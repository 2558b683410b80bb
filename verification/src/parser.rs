//! The combinator engine: the parser representation and its semantics.
//!
//! A [`Parser`] is first-order data: a tree of combinators. Applying one to
//! an input slice (see [`parse`]) yields a list of successes — every pair of
//! a matched value and the unconsumed physical suffix of the input, in order
//! of preference. An empty list is the normal "no match" outcome, not an
//! error.
//!
//! Sequencing ([`liftA2`]) takes a cross product over ambiguous results;
//! choice ([`alt`]) and repetition ([`many`]) deliberately commit to the
//! first candidate, giving ordered choice and greedy repetition on top of the
//! generally ambiguous core.
//!
//! The meaning of every parser is the specification function [`apply_spec`],
//! stated over the models of values and inputs. A recursive grammar rule
//! stands in a parser as a [`Rule`] name; applying it expands the rule's
//! body. The expansion budget [`RULE_BUDGET`] bounds how many rule names may
//! be expanded in a row without consuming a character — the budget is
//! restored whenever a character is consumed, so it does not bound input
//! depth; the rules of [`crate::grammar`] expand at most two names between
//! characters, and stay well inside it.

use vstd::prelude::*;

use crate::ops::MapFn;
use crate::ops::PairFn;
use crate::ops::Pred;
use crate::ops::PredModel;
use crate::ops::map_val;
use crate::ops::pair_val;
use crate::ops::pred_model;
use crate::ops::pred_holds;
use crate::value::Value;
use crate::value::ValModel;
use crate::value::val_model;
use crate::value::vals_model;
use crate::grammar::Rule;
use crate::grammar::rule_model;

verus! {

broadcast use
    vstd::std_specs::vec::group_vec_axioms,
    vstd::seq::group_seq_axioms,
    vstd::seq_lib::group_seq_lib_default,
;

/// How many grammar rule names may be expanded in a row without consuming a
/// character before the engine gives up on the expansion. Consuming a
/// character restores the budget.
pub const RULE_BUDGET: u64 = 8;

/// A parser: a matching rule from an input slice to a list of successes.
#[derive(Debug, PartialEq, Eq)]
pub enum Parser {
    /// Yields nothing on any input.
    Empty,
    /// Yields its value once, consuming nothing.
    Pure(Value),
    /// Yields the first character of the input if the predicate accepts it.
    Satisfy(Pred),
    /// The inner parser, with the map function applied to each value.
    Mapped(MapFn, Box<Parser>),
    /// The first parser, then the second on each unconsumed suffix, values
    /// joined by the pair function; a cross product over ambiguity.
    Combine(PairFn, Box<Parser>, Box<Parser>),
    /// The first parser's successes if there are any, else the second's.
    Choice(Box<Parser>, Box<Parser>),
    /// The inner parser as often as it consumes input, values collected in a
    /// list; always exactly one success.
    Many(Box<Parser>),
    /// A named grammar rule, expanded when applied.
    Call(Rule),
}

/// The mathematical shape of a [`Parser`]: values and character sets become
/// their models.
#[verifier::ext_equal]
pub enum PModel {
    Empty,
    Pure(ValModel),
    Satisfy(PredModel),
    Mapped(MapFn, Box<PModel>),
    Combine(PairFn, Box<PModel>, Box<PModel>),
    Choice(Box<PModel>, Box<PModel>),
    Many(Box<PModel>),
    Call(Rule),
}

impl PModel {
    /// Structural size: part of the measure that grounds the interpreter's
    /// recursion.
    pub open spec fn size(self) -> nat
        decreases self,
    {
        match self {
            PModel::Empty => 1,
            PModel::Pure(_) => 1,
            PModel::Satisfy(_) => 1,
            PModel::Mapped(_, q) => 1 + (*q).size(),
            PModel::Combine(_, a, b) => 1 + (*a).size() + (*b).size(),
            PModel::Choice(a, b) => 1 + (*a).size() + (*b).size(),
            PModel::Many(q) => 1 + (*q).size(),
            PModel::Call(_) => 1,
        }
    }
}

/// The model of one parser.
pub open spec fn model(p: Parser) -> PModel
    decreases p,
{
    match p {
        Parser::Empty => PModel::Empty,
        Parser::Pure(v) => PModel::Pure(val_model(v)),
        Parser::Satisfy(pr) => PModel::Satisfy(pred_model(pr)),
        Parser::Mapped(f, q) => PModel::Mapped(f, Box::new(model(*q))),
        Parser::Combine(f, a, b) => PModel::Combine(
            f,
            Box::new(model(*a)),
            Box::new(model(*b)),
        ),
        Parser::Choice(a, b) => PModel::Choice(Box::new(model(*a)), Box::new(model(*b))),
        Parser::Many(q) => PModel::Many(Box::new(model(*q))),
        Parser::Call(r) => PModel::Call(r),
    }
}

/// One success: a matched value and the model of the unconsumed suffix.
pub type ResultModel = (ValModel, Seq<char>);

/// A map function applied to each success, suffixes untouched.
pub open spec fn map_results(f: MapFn, rs: Seq<ResultModel>) -> Seq<ResultModel> {
    rs.map_values(|t: ResultModel| (map_val(f, t.0), t.1))
}

/// A pair function applied to one left value and each right success.
pub open spec fn pair_results(f: PairFn, a: ValModel, rs: Seq<ResultModel>) -> Seq<ResultModel> {
    rs.map_values(|t: ResultModel| (pair_val(f, a, t.0), t.1))
}

/// The meaning of a parser: every success of applying it to the input `s`,
/// in order of preference, with `b` rule expansions left before a character
/// must be consumed.
pub open spec fn apply_spec(p: PModel, s: Seq<char>, b: nat) -> Seq<ResultModel>
    decreases s.len(), b, p.size(), 0nat, 0nat,
{
    match p {
        PModel::Empty => Seq::empty(),
        PModel::Pure(v) => seq![(v, s)],
        PModel::Satisfy(pr) => if s.len() > 0 && pred_holds(pr, s[0]) {
            seq![(ValModel::Ch(s[0]), s.drop_first())]
        } else {
            Seq::empty()
        },
        PModel::Mapped(f, q) => map_results(f, apply_spec(*q, s, b)),
        PModel::Combine(f, a, q) => combine_spec(f, *q, apply_spec(*a, s, b), s.len(), b),
        PModel::Choice(a, q) => {
            let l = apply_spec(*a, s, b);
            if l.len() > 0 {
                l
            } else {
                apply_spec(*q, s, b)
            }
        },
        PModel::Many(q) => {
            let (vs, rest) = many_spec(*q, s, b);
            seq![(ValModel::List(vs), rest)]
        },
        PModel::Call(r) => if b > 0 {
            apply_spec(rule_model(r), s, (b - 1) as nat)
        } else {
            Seq::empty()
        },
    }
}

/// Sequencing, continued: for each left success, the right parser applied to
/// the left success's suffix, the values joined. A suffix shorter than the
/// original input restores the rule budget; a "suffix" longer than the input
/// never comes out of [`apply_spec`] and contributes nothing.
pub open spec fn combine_spec(
    f: PairFn,
    q: PModel,
    rs: Seq<ResultModel>,
    orig: nat,
    b: nat,
) -> Seq<ResultModel>
    decreases orig, b, q.size(), 1nat, rs.len(),
{
    if rs.len() == 0 {
        Seq::empty()
    } else {
        let (a, rest1) = rs[0];
        let here = if rest1.len() < orig {
            pair_results(f, a, apply_spec(q, rest1, RULE_BUDGET as nat))
        } else if rest1.len() == orig {
            pair_results(f, a, apply_spec(q, rest1, b))
        } else {
            Seq::empty()
        };
        here + combine_spec(f, q, rs.drop_first(), orig, b)
    }
}

/// Greedy repetition: the values of the successive first successes of the
/// inner parser, as long as each consumes input, and the suffix where the
/// repetition stopped.
pub open spec fn many_spec(p: PModel, s: Seq<char>, b: nat) -> (Seq<ValModel>, Seq<char>)
    decreases s.len(), b, p.size(), 1nat, 0nat,
{
    let rs = apply_spec(p, s, b);
    if rs.len() == 0 {
        (Seq::empty(), s)
    } else {
        let (v, rest) = rs[0];
        if rest.len() >= s.len() {
            (Seq::empty(), s)
        } else {
            let (vs, fin) = many_spec(p, rest, RULE_BUDGET as nat);
            (seq![v] + vs, fin)
        }
    }
}

/// The models of a vector of successes: each value's model, each suffix's
/// characters.
pub open spec fn results_model(rs: Seq<(Value, &[char])>) -> Seq<ResultModel> {
    rs.map_values(|t: (Value, &[char])| (val_model(t.0), t.1@))
}

/// Appending one success appends its model.
proof fn lemma_results_model_push(rs: Seq<(Value, &[char])>, x: (Value, &[char]))
    ensures
        results_model(rs.push(x)) == results_model(rs).push((val_model(x.0), x.1@)),
{
    assert(results_model(rs.push(x)) =~= results_model(rs).push((val_model(x.0), x.1@)));
}

/// A map function distributes over appending a success.
proof fn lemma_map_results_push(f: MapFn, rs: Seq<ResultModel>, x: ResultModel)
    ensures
        map_results(f, rs.push(x)) == map_results(f, rs).push((map_val(f, x.0), x.1)),
{
    assert(map_results(f, rs.push(x)) =~= map_results(f, rs).push((map_val(f, x.0), x.1)));
}

/// A pair function distributes over appending a success.
proof fn lemma_pair_results_push(f: PairFn, a: ValModel, rs: Seq<ResultModel>, x: ResultModel)
    ensures
        pair_results(f, a, rs.push(x)) == pair_results(f, a, rs).push((pair_val(f, a, x.0), x.1)),
{
    assert(pair_results(f, a, rs.push(x)) =~= pair_results(f, a, rs).push(
        (pair_val(f, a, x.0), x.1),
    ));
}

/// A suffix of a suffix is a suffix.
proof fn lemma_suffix_transitive(a: Seq<char>, b: Seq<char>, c: Seq<char>)
    requires
        a.is_suffix_of(b),
        b.is_suffix_of(c),
    ensures
        a.is_suffix_of(c),
{
    assert(a =~= c.subrange((c.len() - a.len()) as int, c.len() as int));
}

/// The value for one matched character.
fn ch_value(c: char) -> (v: Value)
    ensures
        v == Value::Ch(c),
{
    Value::Ch(c)
}

/// Applies a parser to an input slice with `b` rule expansions in hand:
/// every success, in order of preference, each suffix a physical suffix of
/// `s`. This is the one operation that reads input; the combinators above
/// only build parsers.
#[verifier::loop_isolation(false)]
#[verifier::rlimit(100)]
pub fn apply<'a>(p: &Parser, s: &'a [char], b: u64) -> (r: Vec<(Value, &'a [char])>)
    ensures
        results_model(r@) == apply_spec(model(*p), s@, b as nat),
        forall|i: int| 0 <= i < r@.len() ==> (#[trigger] r@[i].1@).is_suffix_of(s@),
    decreases s@.len(), b, model(*p).size(),
{
    match p {
        Parser::Empty => {
            let out: Vec<(Value, &'a [char])> = Vec::new();
            proof {
                assert(results_model(out@) =~= Seq::<ResultModel>::empty());
                assert(apply_spec(model(*p), s@, b as nat) =~= Seq::<ResultModel>::empty());
            }
            out
        },
        Parser::Pure(v) => {
            let mut out: Vec<(Value, &'a [char])> = Vec::new();
            out.push((crate::value::clone_value(v), s));
            proof {
                assert(results_model(out@) =~= seq![(val_model(*v), s@)]);
                assert(s@.is_suffix_of(s@)) by {
                    assert(s@ =~= s@.subrange(0, s@.len() as int));
                }
            }
            out
        },
        Parser::Satisfy(pr) => {
            let mut out: Vec<(Value, &'a [char])> = Vec::new();
            if s.len() > 0 {
                let c = *vstd::slice::slice_index_get(s, 0);
                if crate::ops::pred_eval(pr, c) {
                    let rest = vstd::slice::slice_subrange(s, 1, s.len());
                    proof {
                        assert(rest@ =~= s@.drop_first());
                    }
                    let v = ch_value(c);
                    out.push((v, rest));
                    proof {
                        assert(out@.len() == 1);
                        assert(out@[0] == (v, rest));
                        assert(rest@ == s@.drop_first());
                        assert(val_model(v) == ValModel::Ch(s@[0]));
                        assert(results_model(out@).len() == 1);
                        assert(results_model(out@)[0] == (val_model(v), rest@));
                        assert(results_model(out@) =~= seq![(ValModel::Ch(s@[0]), s@.drop_first())]);
                        assert(rest@.is_suffix_of(s@));
                    }
                    return out;
                }
            }
            proof {
                assert(results_model(out@) =~= Seq::<ResultModel>::empty());
                assert(apply_spec(model(*p), s@, b as nat) =~= Seq::<ResultModel>::empty());
            }
            out
        },
        Parser::Mapped(f, q) => {
            let f0 = *f;
            let inner = apply(&**q, s, b);
            let ghost innerm = results_model(inner@);
            let mut out: Vec<(Value, &'a [char])> = Vec::new();
            let mut i: usize = 0;
            while i < inner.len()
                invariant
                    i <= inner.len(),
                    results_model(out@) == map_results(f0, innerm.take(i as int)),
                    out@.len() == i,
                    forall|k: int| 0 <= k < i ==> out@[k].1 == inner@[k].1,
                decreases inner.len() - i,
            {
                let mv = crate::ops::map_value(f0, crate::value::clone_value(&inner[i].0));
                let rest = inner[i].1;
                proof {
                    lemma_results_model_push(out@, (mv, rest));
                    assert(innerm.take(i as int).push(innerm[i as int]) =~= innerm.take(i + 1 as int));
                    lemma_map_results_push(f0, innerm.take(i as int), innerm[i as int]);
                }
                out.push((mv, rest));
                i = i + 1;
            }
            proof {
                assert(innerm.take(inner@.len() as int) =~= innerm);
            }
            out
        },
        Parser::Choice(a, q) => {
            let l = apply(&**a, s, b);
            proof {
                assert(results_model(l@).len() == l@.len());
            }
            if l.len() > 0 {
                l
            } else {
                apply(&**q, s, b)
            }
        },
        Parser::Combine(f, pa, pq) => {
            let f0 = *f;
            let left = apply(&**pa, s, b);
            let ghost qm = model(**pq);
            let ghost leftm = results_model(left@);
            let ghost total = combine_spec(f0, qm, leftm, s@.len() as nat, b as nat);
            let mut out: Vec<(Value, &'a [char])> = Vec::new();
            let mut i: usize = 0;
            proof {
                assert(leftm.skip(0) =~= leftm);
                assert(results_model(out@) =~= Seq::<ResultModel>::empty());
                assert(Seq::<ResultModel>::empty() + total =~= total);
            }
            while i < left.len()
                invariant
                    i <= left.len(),
                    results_model(out@) + combine_spec(
                        f0,
                        qm,
                        leftm.skip(i as int),
                        s@.len() as nat,
                        b as nat,
                    ) == total,
                    forall|k: int| 0 <= k < out@.len() ==> (#[trigger] out@[k].1@).is_suffix_of(
                        s@,
                    ),
                decreases left.len() - i,
            {
                let rest1 = left[i].1;
                let bb = if rest1.len() < s.len() {
                    RULE_BUDGET
                } else {
                    b
                };
                let right = apply(&**pq, rest1, bb);
                let ghost rightm = results_model(right@);
                let ghost am = val_model(left@[i as int].0);
                let ghost here = pair_results(f0, am, rightm);
                let ghost out0 = out@;
                let mut j: usize = 0;
                while j < right.len()
                    invariant
                        j <= right.len(),
                        results_model(out@) == results_model(out0) + pair_results(
                            f0,
                            am,
                            rightm.take(j as int),
                        ),
                        forall|k: int| 0 <= k < out@.len() ==> (#[trigger] out@[k].1@).is_suffix_of(
                            s@,
                        ),
                    decreases right.len() - j,
                {
                    let bv = crate::value::clone_value(&right[j].0);
                    let pv = crate::ops::pair_value(f0, &left[i].0, bv);
                    let rest2 = right[j].1;
                    proof {
                        lemma_suffix_transitive(rest2@, rest1@, s@);
                        lemma_results_model_push(out@, (pv, rest2));
                        assert(rightm.take(j as int).push(rightm[j as int]) =~= rightm.take(
                            j + 1 as int,
                        ));
                        lemma_pair_results_push(f0, am, rightm.take(j as int), rightm[j as int]);
                        assert(results_model(out0) + pair_results(f0, am, rightm.take(j as int)).push(
                            (pair_val(f0, am, rightm[j as int].0), rightm[j as int].1),
                        ) =~= (results_model(out0) + pair_results(f0, am, rightm.take(j as int))).push(
                            (pair_val(f0, am, rightm[j as int].0), rightm[j as int].1),
                        ));
                    }
                    out.push((pv, rest2));
                    j = j + 1;
                }
                proof {
                    assert(rightm.take(right@.len() as int) =~= rightm);
                    // One step of the specification's recursion over the left
                    // successes.
                    assert(leftm.skip(i as int)[0] == leftm[i as int]);
                    assert(leftm.skip(i as int).drop_first() =~= leftm.skip(i + 1 as int));
                    assert(combine_spec(f0, qm, leftm.skip(i as int), s@.len() as nat, b as nat)
                        == here + combine_spec(
                        f0,
                        qm,
                        leftm.skip(i + 1 as int),
                        s@.len() as nat,
                        b as nat,
                    ));
                    assert(results_model(out@) + combine_spec(
                        f0,
                        qm,
                        leftm.skip(i + 1 as int),
                        s@.len() as nat,
                        b as nat,
                    ) =~= total);
                }
                i = i + 1;
            }
            proof {
                assert(leftm.skip(left@.len() as int) =~= Seq::<ResultModel>::empty());
                assert(combine_spec(f0, qm, Seq::empty(), s@.len() as nat, b as nat)
                    =~= Seq::<ResultModel>::empty());
                assert(results_model(out@) =~= total);
            }
            out
        },
        Parser::Many(q) => {
            let ghost qm = model(**q);
            let mut acc: Vec<Value> = Vec::new();
            let mut cur: &'a [char] = s;
            let mut cb: u64 = b;
            proof {
                assert(s@.is_suffix_of(s@)) by {
                    assert(s@ =~= s@.subrange(0, s@.len() as int));
                }
            }
            loop
                invariant
                    cur@.is_suffix_of(s@),
                    cur@.len() == s@.len() ==> cb == b,
                    many_spec(qm, s@, b as nat).0 == vals_model(acc@) + many_spec(
                        qm,
                        cur@,
                        cb as nat,
                    ).0,
                    many_spec(qm, s@, b as nat).1 == many_spec(qm, cur@, cb as nat).1,
                decreases cur@.len(),
            {
                let rs = apply(&**q, cur, cb);
                if rs.len() == 0 {
                    let mut out: Vec<(Value, &'a [char])> = Vec::new();
                    out.push((Value::List(acc), cur));
                    proof {
                        assert(many_spec(qm, cur@, cb as nat) == (Seq::<ValModel>::empty(), cur@));
                        assert(vals_model(acc@) + Seq::<ValModel>::empty() =~= vals_model(acc@));
                        assert(results_model(out@) =~= seq![
                            (ValModel::List(many_spec(qm, s@, b as nat).0), many_spec(
                                qm,
                                s@,
                                b as nat,
                            ).1),
                        ]);
                    }
                    return out;
                }
                let v0 = crate::value::clone_value(&rs[0].0);
                let rest = rs[0].1;
                proof {
                    assert(results_model(rs@)[0] == (val_model(rs@[0].0), rs@[0].1@));
                }
                if rest.len() == cur.len() {
                    let mut out: Vec<(Value, &'a [char])> = Vec::new();
                    out.push((Value::List(acc), cur));
                    proof {
                        assert(many_spec(qm, cur@, cb as nat) == (Seq::<ValModel>::empty(), cur@));
                        assert(vals_model(acc@) + Seq::<ValModel>::empty() =~= vals_model(acc@));
                        assert(results_model(out@) =~= seq![
                            (ValModel::List(many_spec(qm, s@, b as nat).0), many_spec(
                                qm,
                                s@,
                                b as nat,
                            ).1),
                        ]);
                    }
                    return out;
                }
                proof {
                    assert(rest@.len() < cur@.len());
                    assert(many_spec(qm, cur@, cb as nat).0 == seq![val_model(v0)] + many_spec(
                        qm,
                        rest@,
                        RULE_BUDGET as nat,
                    ).0);
                    assert(many_spec(qm, cur@, cb as nat).1 == many_spec(
                        qm,
                        rest@,
                        RULE_BUDGET as nat,
                    ).1);
                    crate::value::lemma_vals_model_push(acc@, v0);
                    assert(vals_model(acc@) + (seq![val_model(v0)] + many_spec(
                        qm,
                        rest@,
                        RULE_BUDGET as nat,
                    ).0) =~= vals_model(acc@.push(v0)) + many_spec(qm, rest@, RULE_BUDGET as nat).0);
                }
                proof {
                    lemma_suffix_transitive(rest@, cur@, s@);
                }
                acc.push(v0);
                cur = rest;
                cb = RULE_BUDGET;
            }
        },
        Parser::Call(r) => {
            if b > 0 {
                let body = crate::grammar::rule_body(*r);
                apply(&body, s, b - 1)
            } else {
                let out: Vec<(Value, &'a [char])> = Vec::new();
                proof {
                    assert(results_model(out@) =~= Seq::<ResultModel>::empty());
                    assert(apply_spec(model(*p), s@, b as nat) =~= Seq::<ResultModel>::empty());
                }
                out
            }
        },
    }
}

/// Runs a parser on an input slice: every success, in order of preference,
/// each suffix a physical suffix of `s`. An empty result is "no match"; a
/// non-empty one lists every way a prefix of `s` matches.
pub fn parse<'a>(p: &Parser, s: &'a [char]) -> (r: Vec<(Value, &'a [char])>)
    ensures
        results_model(r@) == apply_spec(model(*p), s@, RULE_BUDGET as nat),
        forall|i: int| 0 <= i < r@.len() ==> (#[trigger] r@[i].1@).is_suffix_of(s@),
{
    apply(p, s, RULE_BUDGET)
}

impl Clone for Parser {
    /// A copy of a parser with the same model.
    fn clone(&self) -> (r: Self)
        ensures
            model(r) == model(*self),
        decreases *self,
    {
        match self {
            Parser::Empty => Parser::Empty,
            Parser::Pure(v) => Parser::Pure(crate::value::clone_value(v)),
            Parser::Satisfy(pr) => Parser::Satisfy(crate::ops::clone_pred(pr)),
            Parser::Mapped(f, q) => Parser::Mapped(*f, Box::new((&**q).clone())),
            Parser::Combine(f, a, b) => Parser::Combine(
                *f,
                Box::new((&**a).clone()),
                Box::new((&**b).clone()),
            ),
            Parser::Choice(a, b) => Parser::Choice(
                Box::new((&**a).clone()),
                Box::new((&**b).clone()),
            ),
            Parser::Many(q) => Parser::Many(Box::new((&**q).clone())),
            Parser::Call(r) => Parser::Call(*r),
        }
    }
}

/// A parser that yields nothing on any input.
pub fn empty() -> (p: Parser)
    ensures
        model(p) == PModel::Empty,
{
    Parser::Empty
}

/// A parser that yields `v` once on any input, consuming nothing.
pub fn pure(v: Value) -> (p: Parser)
    ensures
        model(p) == PModel::Pure(val_model(v)),
{
    Parser::Pure(v)
}

/// A value turned into the parser that yields it.
pub trait IntoPure: Sized {
    /// The parser that yields `self` once on any input.
    fn into_pure(self) -> Parser;
}

impl IntoPure for Value {
    fn into_pure(self) -> (p: Parser)
        ensures
            model(p) == PModel::Pure(val_model(self)),
    {
        Parser::Pure(self)
    }
}

/// The parser `q` with `f` applied to each matched value; result count,
/// order, and unconsumed suffixes are exactly those of `q`.
pub fn fmap(q: Parser, f: MapFn) -> (p: Parser)
    ensures
        model(p) == PModel::Mapped(f, Box::new(model(q))),
{
    Parser::Mapped(f, Box::new(q))
}

/// `a`, then `b` on each unconsumed suffix, the two values joined by `f`.
#[allow(non_snake_case)]
pub fn liftA2(a: Parser, b: Parser, f: PairFn) -> (p: Parser)
    ensures
        model(p) == PModel::Combine(f, Box::new(model(a)), Box::new(model(b))),
{
    Parser::Combine(f, Box::new(a), Box::new(b))
}

/// `a`, then `b`, keeping `a`'s value.
pub fn then_keep_left(a: Parser, b: Parser) -> (p: Parser)
    ensures
        model(p) == PModel::Combine(PairFn::KeepLeft, Box::new(model(a)), Box::new(model(b))),
{
    liftA2(a, b, PairFn::KeepLeft)
}

/// `a`, then `b`, keeping `b`'s value.
pub fn then_keep_right(a: Parser, b: Parser) -> (p: Parser)
    ensures
        model(p) == PModel::Combine(PairFn::KeepRight, Box::new(model(a)), Box::new(model(b))),
{
    liftA2(a, b, PairFn::KeepRight)
}

/// Ordered choice: `a`'s successes if there are any, else `b`'s.
pub fn alt(a: Parser, b: Parser) -> (p: Parser)
    ensures
        model(p) == PModel::Choice(Box::new(model(a)), Box::new(model(b))),
{
    Parser::Choice(Box::new(a), Box::new(b))
}

/// Ordered choice with the second branch built on demand.
pub fn alt_with<F: FnOnce() -> Parser>(a: Parser, f: F) -> (p: Parser)
    requires
        call_requires(f, ()),
    ensures
        exists|b: Parser|
            call_ensures(f, (), b) && model(p) == PModel::Choice(
                Box::new(model(a)),
                Box::new(model(b)),
            ),
{
    let b = f();
    alt(a, b)
}

/// A deferred reference to a named grammar rule: the rule's body is built
/// and applied only when the parser is applied, so a rule may refer to
/// itself through another rule without the construction recursing forever.
pub fn lazy(r: Rule) -> (p: Parser)
    ensures
        model(p) == PModel::Call(r),
{
    Parser::Call(r)
}

/// Zero or more repetitions of `q`, greedy, the values in a list; always
/// exactly one success.
pub fn many(q: Parser) -> (p: Parser)
    ensures
        model(p) == PModel::Many(Box::new(model(q))),
{
    Parser::Many(Box::new(q))
}

/// One or more repetitions of `q`: `q` must match once, then zero or more
/// further repetitions follow; the first value is put on the front of the
/// rest.
pub fn some(q: Parser) -> (p: Parser)
    ensures
        model(p) == PModel::Combine(
            PairFn::ConsList,
            Box::new(model(q)),
            Box::new(PModel::Many(Box::new(model(q)))),
        ),
{
    let tail = many(q.clone());
    liftA2(q, tail, PairFn::ConsList)
}

/// The model of a vector of parsers sequenced left to right: each value put
/// on the front of the list of the rest, the empty vector yielding the empty
/// list.
pub open spec fn sequence_model(ps: Seq<Parser>) -> PModel
    decreases ps.len(),
{
    if ps.len() == 0 {
        PModel::Pure(ValModel::List(Seq::empty()))
    } else {
        PModel::Combine(
            PairFn::ConsList,
            Box::new(model(ps[0])),
            Box::new(sequence_model(ps.drop_first())),
        )
    }
}

/// All the parsers of `ps` in order, their values collected in one list.
#[allow(non_snake_case)]
pub fn sequenceA(ps: Vec<Parser>) -> (p: Parser)
    ensures
        model(p) == sequence_model(ps@),
{
    let ghost orig = ps@;
    let mut ps = ps;
    let mut acc = pure(Value::List(Vec::new()));
    proof {
        assert(orig.skip(orig.len() as int) =~= Seq::<Parser>::empty());
        assert(vals_model(Seq::<Value>::empty()) =~= Seq::<ValModel>::empty());
        assert(model(acc) =~~= sequence_model(orig.skip(ps@.len() as int)));
    }
    while ps.len() > 0
        invariant
            ps@.len() <= orig.len(),
            ps@ == orig.take(ps@.len() as int),
            model(acc) == sequence_model(orig.skip(ps@.len() as int)),
        decreases ps.len(),
    {
        let ghost k = ps@.len() as int;
        let q = match ps.pop() {
            Option::Some(q) => q,
            Option::None => vstd::pervasive::unreached(),
        };
        proof {
            assert(q == orig[k - 1]);
            assert(ps@ =~= orig.take(k - 1));
            assert(orig.skip(k - 1)[0] == orig[k - 1]);
            assert(orig.skip(k - 1).drop_first() =~= orig.skip(k));
        }
        acc = liftA2(q, acc, PairFn::ConsList);
    }
    proof {
        assert(orig.skip(0) =~= orig);
    }
    acc
}

/// Each item turned into a parser by `f`, and the results sequenced in
/// order, their values collected in one list.
pub fn traverse<A, F: Fn(A) -> Parser>(items: Vec<A>, f: F) -> (p: Parser)
    requires
        forall|a: A| call_requires(f, (a,)),
    ensures
        exists|ps: Seq<Parser>|
            {
                &&& ps.len() == items@.len()
                &&& forall|i: int| 0 <= i < ps.len() ==> call_ensures(f, (items@[i],), #[trigger] ps[i])
                &&& model(p) == sequence_model(ps)
            },
{
    let ghost orig = items@;
    let mut items = items;
    let mut ps: Vec<Parser> = Vec::new();
    while items.len() > 0
        invariant
            forall|a: A| call_requires(f, (a,)),
            items@ == orig.skip(ps@.len() as int),
            ps@.len() <= orig.len(),
            forall|i: int| 0 <= i < ps@.len() ==> call_ensures(f, (orig[i],), #[trigger] ps@[i]),
        decreases items.len(),
    {
        let ghost before = items@;
        let a = items.remove(0);
        proof {
            assert(items@ =~= before.drop_first());
            assert(before[0] == a);
            assert(a == orig[ps@.len() as int]);
            assert(before.drop_first() =~= orig.skip(ps@.len() + 1 as int));
        }
        let q = f(a);
        ps.push(q);
    }
    let ghost psm = ps@;
    let p = sequenceA(ps);
    proof {
        assert(orig.skip(psm.len() as int).len() == 0);
        assert(psm.len() == orig.len());
        assert(forall|i: int| 0 <= i < psm.len() ==> call_ensures(f, (orig[i],), #[trigger] psm[i]));
    }
    p
}

/// `q`'s value wrapped as a present optional value if `q` matches, else the
/// absent optional value; never fails.
pub fn optional(q: Parser) -> (p: Parser)
    ensures
        model(p) == PModel::Choice(
            Box::new(PModel::Mapped(MapFn::WrapFound, Box::new(model(q)))),
            Box::new(PModel::Pure(ValModel::Missing)),
        ),
{
    alt(fmap(q, MapFn::WrapFound), pure(Value::Missing))
}

} // verus!
