//! The operations a parser can carry: character predicates for `satisfy`,
//! and the closed sets of value transformations used by `map` and `combine`.
//!
//! Parsers are data, so the functions they apply to matched values are data
//! too: a [`MapFn`] names a transformation of one value, a [`PairFn`] names a
//! way to join two values, and a [`Pred`] names a test on one character. Each
//! has a total mathematical meaning ([`map_val`], [`pair_val`],
//! [`pred_holds`]) that the engine's contracts are stated over.

use vstd::prelude::*;

use crate::value::Command;
use crate::value::CmdModel;
use crate::value::Value;
use crate::value::ValModel;
use crate::value::val_model;
use crate::value::vals_model;
use crate::value::clone_value;
use crate::value::clone_command;
use crate::value::lemma_vals_model_push;
use crate::value::lemma_cmds_model_push;

verus! {

broadcast use
    vstd::std_specs::vec::group_vec_axioms,
    vstd::seq::group_seq_axioms,
    vstd::seq_lib::group_seq_lib_default,
;

/// A test on a single character.
#[derive(Debug, PartialEq, Eq)]
pub enum Pred {
    /// Accepts every character.
    AnyChar,
    /// Accepts the decimal digits.
    IsDigit,
    /// Accepts exactly the given character.
    CharIs(char),
    /// Accepts the characters of the given set.
    OneOf(Vec<char>),
    /// Accepts every character outside the given set.
    NoneOf(Vec<char>),
}

/// The mathematical shape of a [`Pred`]: a character set is a `Seq`.
#[verifier::ext_equal]
pub enum PredModel {
    AnyChar,
    IsDigit,
    CharIs(char),
    OneOf(Seq<char>),
    NoneOf(Seq<char>),
}

/// The model of one predicate.
pub open spec fn pred_model(p: Pred) -> PredModel {
    match p {
        Pred::AnyChar => PredModel::AnyChar,
        Pred::IsDigit => PredModel::IsDigit,
        Pred::CharIs(c) => PredModel::CharIs(c),
        Pred::OneOf(cs) => PredModel::OneOf(cs@),
        Pred::NoneOf(cs) => PredModel::NoneOf(cs@),
    }
}

/// Whether a predicate accepts a character.
pub open spec fn pred_holds(p: PredModel, c: char) -> bool {
    match p {
        PredModel::AnyChar => true,
        PredModel::IsDigit => 48 <= c as u32 && c as u32 <= 57,
        PredModel::CharIs(d) => c == d,
        PredModel::OneOf(cs) => cs.contains(c),
        PredModel::NoneOf(cs) => !cs.contains(c),
    }
}

/// Whether the characters of `cs` include `c`.
fn chars_contain(cs: &Vec<char>, c: char) -> (r: bool)
    ensures
        r == cs@.contains(c),
{
    let mut i: usize = 0;
    while i < cs.len()
        invariant
            i <= cs.len(),
            forall|j: int| 0 <= j < i ==> cs@[j] != c,
        decreases cs.len() - i,
    {
        if cs[i] == c {
            return true;
        }
        i = i + 1;
    }
    false
}

/// Runs a predicate on a character.
pub fn pred_eval(p: &Pred, c: char) -> (r: bool)
    ensures
        r == pred_holds(pred_model(*p), c),
{
    match p {
        Pred::AnyChar => true,
        Pred::IsDigit => {
            let n = c as u32;
            48 <= n && n <= 57
        },
        Pred::CharIs(d) => *d == c,
        Pred::OneOf(cs) => chars_contain(cs, c),
        Pred::NoneOf(cs) => !chars_contain(cs, c),
    }
}

/// A copy of a predicate with the same model.
pub fn clone_pred(p: &Pred) -> (r: Pred)
    ensures
        pred_model(r) == pred_model(*p),
{
    match p {
        Pred::AnyChar => Pred::AnyChar,
        Pred::IsDigit => Pred::IsDigit,
        Pred::CharIs(c) => Pred::CharIs(*c),
        Pred::OneOf(cs) => Pred::OneOf(crate::value::clone_chars(cs)),
        Pred::NoneOf(cs) => Pred::NoneOf(crate::value::clone_chars(cs)),
    }
}

/// A transformation of one matched value.
#[derive(Clone, Copy, Debug, PartialEq, Eq)]
pub enum MapFn {
    /// Wraps the value as a present optional value.
    WrapFound,
    /// Discards the value, leaving the absent optional value.
    ToMissing,
    /// Turns a list of commands into a block command.
    ToBlock,
    /// Keeps the payloads of the present optional values of a list.
    CatMaybes,
    /// Turns a digit character into its numeric value.
    DigitValue,
    /// Turns a character into its code point.
    CharCode,
}

/// The commands among a sequence of values, in order.
pub open spec fn cmds_of(ms: Seq<ValModel>) -> Seq<CmdModel>
    decreases ms.len(),
{
    if ms.len() == 0 {
        Seq::empty()
    } else {
        (match ms[0] {
            ValModel::Cmd(c) => seq![c],
            _ => Seq::empty(),
        }) + cmds_of(ms.drop_first())
    }
}

/// The payloads of the present optional values among a sequence, in order.
pub open spec fn cat_found(ms: Seq<ValModel>) -> Seq<ValModel>
    decreases ms.len(),
{
    if ms.len() == 0 {
        Seq::empty()
    } else {
        (match ms[0] {
            ValModel::Found(b) => seq![*b],
            _ => Seq::empty(),
        }) + cat_found(ms.drop_first())
    }
}

/// Appending a value appends its command, if it is one.
pub proof fn lemma_cmds_of_push(ms: Seq<ValModel>, m: ValModel)
    ensures
        cmds_of(ms.push(m)) == cmds_of(ms) + (match m {
            ValModel::Cmd(c) => seq![c],
            _ => Seq::<CmdModel>::empty(),
        }),
    decreases ms.len(),
{
    let tail = (match m {
        ValModel::Cmd(c) => seq![c],
        _ => Seq::<CmdModel>::empty(),
    });
    if ms.len() == 0 {
        assert(ms.push(m).drop_first() =~= Seq::<ValModel>::empty());
        assert(ms.push(m)[0] == m);
        assert(cmds_of(Seq::<ValModel>::empty()) =~= Seq::<CmdModel>::empty());
        assert(cmds_of(ms.push(m)) =~= tail);
        assert(cmds_of(ms) + tail =~= tail);
    } else {
        assert(ms.push(m).drop_first() =~= ms.drop_first().push(m));
        lemma_cmds_of_push(ms.drop_first(), m);
        assert(cmds_of(ms.push(m)) =~= cmds_of(ms) + tail);
    }
}

/// Appending a value appends its payload, if it is a present optional value.
pub proof fn lemma_cat_found_push(ms: Seq<ValModel>, m: ValModel)
    ensures
        cat_found(ms.push(m)) == cat_found(ms) + (match m {
            ValModel::Found(b) => seq![*b],
            _ => Seq::<ValModel>::empty(),
        }),
    decreases ms.len(),
{
    let tail = (match m {
        ValModel::Found(b) => seq![*b],
        _ => Seq::<ValModel>::empty(),
    });
    if ms.len() == 0 {
        assert(ms.push(m).drop_first() =~= Seq::<ValModel>::empty());
        assert(ms.push(m)[0] == m);
        assert(cat_found(Seq::<ValModel>::empty()) =~= Seq::<ValModel>::empty());
        assert(cat_found(ms.push(m)) =~= tail);
        assert(cat_found(ms) + tail =~= tail);
    } else {
        assert(ms.push(m).drop_first() =~= ms.drop_first().push(m));
        lemma_cat_found_push(ms.drop_first(), m);
        assert(cat_found(ms.push(m)) =~= cat_found(ms) + tail);
    }
}

/// What a [`MapFn`] means: a total function on value models. A tag applied
/// to a value of the wrong shape leaves the value unchanged.
pub open spec fn map_val(f: MapFn, m: ValModel) -> ValModel {
    match f {
        MapFn::WrapFound => ValModel::Found(Box::new(m)),
        MapFn::ToMissing => ValModel::Missing,
        MapFn::ToBlock => match m {
            ValModel::List(ms) => ValModel::Cmd(CmdModel::B(cmds_of(ms))),
            _ => m,
        },
        MapFn::CatMaybes => match m {
            ValModel::List(ms) => ValModel::List(cat_found(ms)),
            _ => m,
        },
        MapFn::DigitValue => match m {
            ValModel::Ch(c) => if 48 <= c as u32 && c as u32 <= 57 {
                ValModel::Num((c as u32 - 48) as u32)
            } else {
                m
            },
            _ => m,
        },
        MapFn::CharCode => match m {
            ValModel::Ch(c) => ValModel::Num(c as u32),
            _ => m,
        },
    }
}

/// Runs a [`MapFn`] on a value.
pub fn map_value(f: MapFn, v: Value) -> (r: Value)
    ensures
        val_model(r) == map_val(f, val_model(v)),
{
    match f {
        MapFn::WrapFound => Value::Found(Box::new(v)),
        MapFn::ToMissing => Value::Missing,
        MapFn::ToBlock => match v {
            Value::List(vs) => {
                let mut out: Vec<Command> = Vec::new();
                let mut i: usize = 0;
                while i < vs.len()
                    invariant
                        i <= vs.len(),
                        crate::value::cmds_model(out@) == cmds_of(vals_model(vs@.take(i as int))),
                    decreases vs.len() - i,
                {
                    proof {
                        lemma_vals_model_push(vs@.take(i as int), vs@[i as int]);
                        assert(vs@.take(i as int).push(vs@[i as int]) =~= vs@.take(i + 1 as int));
                        assert(vals_model(vs@.take(i as int)) + seq![val_model(vs@[i as int])]
                            =~= vals_model(vs@.take(i as int)).push(val_model(vs@[i as int])));
                        lemma_cmds_of_push(vals_model(vs@.take(i as int)), val_model(vs@[i as int]));
                    }
                    match &vs[i] {
                        Value::Cmd(c) => {
                            let d = clone_command(c);
                            proof {
                                lemma_cmds_model_push(out@, d);
                            }
                            out.push(d);
                        },
                        _ => {
                            proof {
                                assert(cmds_of(vals_model(vs@.take(i + 1 as int)))
                                    =~= cmds_of(vals_model(vs@.take(i as int))));
                            }
                        },
                    }
                    i = i + 1;
                }
                proof {
                    assert(vs@.take(vs@.len() as int) =~= vs@);
                }
                Value::Cmd(Command::B(out))
            },
            _ => v,
        },
        MapFn::CatMaybes => match v {
            Value::List(vs) => {
                let mut out: Vec<Value> = Vec::new();
                let mut i: usize = 0;
                while i < vs.len()
                    invariant
                        i <= vs.len(),
                        vals_model(out@) == cat_found(vals_model(vs@.take(i as int))),
                    decreases vs.len() - i,
                {
                    proof {
                        lemma_vals_model_push(vs@.take(i as int), vs@[i as int]);
                        assert(vs@.take(i as int).push(vs@[i as int]) =~= vs@.take(i + 1 as int));
                        assert(vals_model(vs@.take(i as int)) + seq![val_model(vs@[i as int])]
                            =~= vals_model(vs@.take(i as int)).push(val_model(vs@[i as int])));
                        lemma_cat_found_push(vals_model(vs@.take(i as int)), val_model(vs@[i as int]));
                    }
                    match &vs[i] {
                        Value::Found(b) => {
                            let d = clone_value(&*b);
                            proof {
                                lemma_vals_model_push(out@, d);
                            }
                            out.push(d);
                        },
                        _ => {
                            proof {
                                assert(cat_found(vals_model(vs@.take(i + 1 as int)))
                                    =~= cat_found(vals_model(vs@.take(i as int))));
                            }
                        },
                    }
                    i = i + 1;
                }
                proof {
                    assert(vs@.take(vs@.len() as int) =~= vs@);
                }
                Value::List(out)
            },
            _ => v,
        },
        MapFn::DigitValue => match v {
            Value::Ch(c) => {
                let n = c as u32;
                if 48 <= n && n <= 57 {
                    Value::Num(n - 48)
                } else {
                    Value::Ch(c)
                }
            },
            _ => v,
        },
        MapFn::CharCode => match v {
            Value::Ch(c) => Value::Num(c as u32),
            _ => v,
        },
    }
}

/// A way to join the values of two sequenced parsers.
#[derive(Clone, Copy, Debug, PartialEq, Eq)]
pub enum PairFn {
    /// Keeps the first value.
    KeepLeft,
    /// Keeps the second value.
    KeepRight,
    /// Keeps both values as a pair.
    PairUp,
    /// Puts a character on the front of a string.
    ConsStr,
    /// Puts a value on the front of a list.
    ConsList,
}

/// What a [`PairFn`] means: a total function on two value models. A tag
/// applied to values of the wrong shape keeps the first value.
pub open spec fn pair_val(f: PairFn, a: ValModel, b: ValModel) -> ValModel {
    match f {
        PairFn::KeepLeft => a,
        PairFn::KeepRight => b,
        PairFn::PairUp => ValModel::Pair(Box::new(a), Box::new(b)),
        PairFn::ConsStr => match (a, b) {
            (ValModel::Ch(h), ValModel::Str(t)) => ValModel::Str(seq![h] + t),
            _ => a,
        },
        PairFn::ConsList => match b {
            ValModel::List(ms) => ValModel::List(seq![a] + ms),
            _ => a,
        },
    }
}

/// Runs a [`PairFn`] on two values. The first is borrowed: a sequenced
/// parser may pair one left value with many right values.
pub fn pair_value(f: PairFn, a: &Value, b: Value) -> (r: Value)
    ensures
        val_model(r) == pair_val(f, val_model(*a), val_model(b)),
{
    match f {
        PairFn::KeepLeft => clone_value(a),
        PairFn::KeepRight => b,
        PairFn::PairUp => Value::Pair(Box::new(clone_value(a)), Box::new(b)),
        PairFn::ConsStr => match a {
            Value::Ch(h) => match b {
                Value::Str(mut t) => {
                    let ghost t0 = t@;
                    t.insert(0, *h);
                    proof {
                        assert(t@ =~= seq![*h] + t0);
                    }
                    Value::Str(t)
                },
                _ => clone_value(a),
            },
            _ => clone_value(a),
        },
        PairFn::ConsList => match b {
            Value::List(mut ms) => {
                let ghost ms0 = ms@;
                let d = clone_value(a);
                ms.insert(0, d);
                proof {
                    assert(ms@ =~= seq![d] + ms0);
                    assert((seq![d] + ms0).drop_first() =~= ms0);
                    assert((seq![d] + ms0)[0] == d);
                    assert(vals_model(ms@) =~= seq![val_model(d)] + vals_model(ms0));
                }
                Value::List(ms)
            },
            _ => clone_value(a),
        },
    }
}

} // verus!
