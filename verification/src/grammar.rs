//! The grammar layer: character-level parsers and the turtle-command
//! language, built by composing the engine's combinators.
//!
//! The command language has one recursive rule — a bracketed block holds a
//! command sequence, and a command sequence repeats commands — so the two
//! rules are named by [`Rule`] and a parser refers to one with
//! `Parser::Call`; the engine expands the name when it applies the parser.

use vstd::prelude::*;

use crate::ops::MapFn;
use crate::ops::PairFn;
use crate::ops::Pred;
use crate::ops::PredModel;
use crate::ops::pred_model;
use crate::parser::PModel;
use crate::parser::Parser;
use crate::parser::alt;
use crate::parser::fmap;
use crate::parser::liftA2;
use crate::parser::lazy;
use crate::parser::many;
use crate::parser::model;
use crate::parser::pure;
use crate::parser::then_keep_left;
use crate::parser::then_keep_right;
use crate::value::CmdModel;
use crate::value::Command;
use crate::value::ValModel;
use crate::value::Value;
use crate::value::val_model;

verus! {

/// The named rules of the command grammar: one command, and a sequence of
/// commands.
#[derive(Clone, Copy, Debug, PartialEq, Eq)]
pub enum Rule {
    Cmd,
    Cmds,
}

/// The model of the one-command rule: ordered choice of a forward token
/// (`M` or `N`), a left turn (`+`), a right turn (`-`), a bracketed block,
/// and a catch-all that consumes any other character and yields no command.
pub open spec fn cmd_rule_model() -> PModel {
    PModel::Choice(
        Box::new(PModel::Choice(
            Box::new(PModel::Choice(
                Box::new(forward_rule_model()),
                Box::new(turn_rule_model('+', CmdModel::L)),
            )),
            Box::new(turn_rule_model('-', CmdModel::R)),
        )),
        Box::new(PModel::Choice(
            Box::new(block_rule_model()),
            Box::new(other_rule_model()),
        )),
    )
}

/// The forward alternative: a present `F` command, keeping it over the
/// consumed `M` or `N` token.
pub open spec fn forward_rule_model() -> PModel {
    PModel::Combine(
        PairFn::KeepLeft,
        Box::new(PModel::Pure(ValModel::Found(Box::new(ValModel::Cmd(CmdModel::F))))),
        Box::new(PModel::Satisfy(PredModel::OneOf(seq!['M', 'N']))),
    )
}

/// A turn alternative: a present turn command, keeping it over the consumed
/// marker character.
pub open spec fn turn_rule_model(marker: char, c: CmdModel) -> PModel {
    PModel::Combine(
        PairFn::KeepLeft,
        Box::new(PModel::Pure(ValModel::Found(Box::new(ValModel::Cmd(c))))),
        Box::new(PModel::Satisfy(PredModel::CharIs(marker))),
    )
}

/// The block alternative: an opening bracket, the command-sequence rule
/// turned into a block command, a closing bracket, the block wrapped as a
/// present command.
pub open spec fn block_rule_model() -> PModel {
    PModel::Mapped(
        MapFn::WrapFound,
        Box::new(PModel::Combine(
            PairFn::KeepLeft,
            Box::new(PModel::Combine(
                PairFn::KeepRight,
                Box::new(PModel::Satisfy(PredModel::CharIs('['))),
                Box::new(PModel::Mapped(MapFn::ToBlock, Box::new(PModel::Call(Rule::Cmds)))),
            )),
            Box::new(PModel::Satisfy(PredModel::CharIs(']'))),
        )),
    )
}

/// The catch-all alternative: any character outside the grammar's alphabet
/// is consumed and yields the absent optional value.
pub open spec fn other_rule_model() -> PModel {
    PModel::Mapped(
        MapFn::ToMissing,
        Box::new(PModel::Satisfy(PredModel::NoneOf(seq!['M', 'N', '+', '-', '[', ']']))),
    )
}

/// The model of the command-sequence rule: zero or more commands, with the
/// absent optional values dropped.
pub open spec fn cmds_rule_model() -> PModel {
    PModel::Mapped(MapFn::CatMaybes, Box::new(PModel::Many(Box::new(PModel::Call(Rule::Cmd)))))
}

/// The body that a rule name stands for.
pub open spec fn rule_model(r: Rule) -> PModel {
    match r {
        Rule::Cmd => cmd_rule_model(),
        Rule::Cmds => cmds_rule_model(),
    }
}

/// A parser for one character that the predicate accepts; it consumes that
/// character, and fails on an unacceptable first character or empty input.
pub fn satisfy(pr: Pred) -> (p: Parser)
    ensures
        model(p) == PModel::Satisfy(pred_model(pr)),
{
    Parser::Satisfy(pr)
}

/// A parser for exactly the character `c`.
pub fn char_(c: char) -> (p: Parser)
    ensures
        model(p) == PModel::Satisfy(PredModel::CharIs(c)),
{
    satisfy(Pred::CharIs(c))
}

/// A parser for any one character of the set `cs`.
pub fn one_of(cs: Vec<char>) -> (p: Parser)
    ensures
        model(p) == PModel::Satisfy(PredModel::OneOf(cs@)),
{
    satisfy(Pred::OneOf(cs))
}

/// A parser for any one character outside the set `cs`.
pub fn none_of(cs: Vec<char>) -> (p: Parser)
    ensures
        model(p) == PModel::Satisfy(PredModel::NoneOf(cs@)),
{
    satisfy(Pred::NoneOf(cs))
}

/// The one-command parser; see [`cmd_rule_model`] for what it matches.
pub fn cmd() -> (p: Parser)
    ensures
        model(p) == cmd_rule_model(),
{
    let forward_set = vec!['M', 'N'];
    let other_set = vec!['M', 'N', '+', '-', '[', ']'];
    proof {
        assert(forward_set@ =~= seq!['M', 'N']);
        assert(other_set@ =~= seq!['M', 'N', '+', '-', '[', ']']);
        assert(val_model(Value::Cmd(Command::F)) == ValModel::Cmd(CmdModel::F));
        assert(val_model(Value::Cmd(Command::L)) == ValModel::Cmd(CmdModel::L));
        assert(val_model(Value::Cmd(Command::R)) == ValModel::Cmd(CmdModel::R));
    }
    let forward = then_keep_left(
        pure(Value::Found(Box::new(Value::Cmd(Command::F)))),
        one_of(forward_set),
    );
    let left = then_keep_left(pure(Value::Found(Box::new(Value::Cmd(Command::L)))), char_('+'));
    let right = then_keep_left(pure(Value::Found(Box::new(Value::Cmd(Command::R)))), char_('-'));
    let inner = fmap(lazy(Rule::Cmds), MapFn::ToBlock);
    let block = fmap(
        then_keep_left(then_keep_right(char_('['), inner), char_(']')),
        MapFn::WrapFound,
    );
    let other = fmap(none_of(other_set), MapFn::ToMissing);
    proof {
        assert(model(forward) =~~= forward_rule_model());
        assert(model(left) =~~= turn_rule_model('+', CmdModel::L));
        assert(model(right) =~~= turn_rule_model('-', CmdModel::R));
        assert(model(block) =~~= block_rule_model());
        assert(model(other) =~~= other_rule_model());
    }
    let p = alt(alt(alt(forward, left), right), alt(block, other));
    proof {
        assert(model(p) =~~= cmd_rule_model());
    }
    p
}

/// The command-sequence parser; see [`cmds_rule_model`] for what it matches.
pub fn cmds() -> (p: Parser)
    ensures
        model(p) == cmds_rule_model(),
{
    let p = fmap(many(lazy(Rule::Cmd)), MapFn::CatMaybes);
    proof {
        assert(model(p) =~~= cmds_rule_model());
    }
    p
}

/// The body of a named rule, built afresh.
pub fn rule_body(r: Rule) -> (p: Parser)
    ensures
        model(p) == rule_model(r),
{
    match r {
        Rule::Cmd => cmd(),
        Rule::Cmds => cmds(),
    }
}

/// Whether `p` is the model of the parser for the literal string `cs`:
/// each character matched in turn and put on the front of the rest, the
/// empty string matched by yielding the empty string.
pub open spec fn is_string_model(p: PModel, cs: Seq<char>) -> bool
    decreases cs.len(),
{
    if cs.len() == 0 {
        p == PModel::Pure(ValModel::Str(Seq::empty()))
    } else {
        &&& p matches PModel::Combine(f, a, q)
        &&& f == PairFn::ConsStr
        &&& *a == PModel::Satisfy(PredModel::CharIs(cs[0]))
        &&& is_string_model(*q, cs.drop_first())
    }
}

/// A parser for the literal string `pat`: it matches exactly `pat` as a
/// prefix of the input and yields it; see
/// [`crate::laws::lemma_string_matches_prefix`] for what that means of its
/// successes.
pub fn string_(pat: &[char]) -> (p: Parser)
    ensures
        is_string_model(model(p), pat@),
    decreases pat@.len(),
{
    if pat.len() == 0 {
        let none: Vec<char> = Vec::new();
        proof {
            assert(val_model(Value::Str(none)) =~~= ValModel::Str(Seq::<char>::empty()));
        }
        pure(Value::Str(none))
    } else {
        let c = *vstd::slice::slice_index_get(pat, 0);
        let rest = vstd::slice::slice_subrange(pat, 1, pat.len());
        proof {
            assert(rest@ =~= pat@.drop_first());
        }
        let tail = string_(rest);
        let p = liftA2(char_(c), tail, PairFn::ConsStr);
        p
    }
}

/// The values of the successes that consumed the whole input, in order.
pub open spec fn full_values(rs: Seq<crate::parser::ResultModel>) -> Seq<ValModel>
    decreases rs.len(),
{
    if rs.len() == 0 {
        Seq::empty()
    } else {
        (if rs[0].1.len() == 0 {
            seq![rs[0].0]
        } else {
            Seq::empty()
        }) + full_values(rs.drop_first())
    }
}

/// A success that consumed the whole input appends its value.
pub proof fn lemma_full_values_push(rs: Seq<crate::parser::ResultModel>, x: crate::parser::ResultModel)
    ensures
        full_values(rs.push(x)) == full_values(rs) + (if x.1.len() == 0 {
            seq![x.0]
        } else {
            Seq::<ValModel>::empty()
        }),
    decreases rs.len(),
{
    let tail = (if x.1.len() == 0 {
        seq![x.0]
    } else {
        Seq::<ValModel>::empty()
    });
    if rs.len() == 0 {
        assert(rs.push(x).drop_first() =~= Seq::<crate::parser::ResultModel>::empty());
        assert(rs.push(x)[0] == x);
        assert(full_values(Seq::<crate::parser::ResultModel>::empty())
            =~= Seq::<ValModel>::empty());
        assert(full_values(rs.push(x)) =~= tail);
        assert(full_values(rs) + tail =~= tail);
    } else {
        assert(rs.push(x).drop_first() =~= rs.drop_first().push(x));
        lemma_full_values_push(rs.drop_first(), x);
        assert(full_values(rs.push(x)) =~= full_values(rs) + tail);
    }
}

/// Runs a parser and keeps only the values of the successes that consumed
/// the whole input: the caller's explicit choice to reject partial matches.
#[verifier::loop_isolation(false)]
pub fn parse_fully(p: &Parser, s: &[char]) -> (r: Vec<Value>)
    ensures
        crate::value::vals_model(r@) == full_values(
            crate::parser::apply_spec(model(*p), s@, crate::parser::RULE_BUDGET as nat),
        ),
{
    let rs = crate::parser::parse(p, s);
    let ghost rsm = crate::parser::results_model(rs@);
    let mut out: Vec<Value> = Vec::new();
    let mut i: usize = 0;
    proof {
        assert(crate::value::vals_model(out@) =~= Seq::<ValModel>::empty());
        assert(full_values(rsm.take(0)) =~= Seq::<ValModel>::empty());
    }
    while i < rs.len()
        invariant
            i <= rs.len(),
            crate::value::vals_model(out@) == full_values(rsm.take(i as int)),
        decreases rs.len() - i,
    {
        proof {
            assert(rsm.take(i as int).push(rsm[i as int]) =~= rsm.take(i + 1 as int));
            lemma_full_values_push(rsm.take(i as int), rsm[i as int]);
        }
        if rs[i].1.len() == 0 {
            let v = crate::value::clone_value(&rs[i].0);
            proof {
                crate::value::lemma_vals_model_push(out@, v);
            }
            out.push(v);
        } else {
            proof {
                assert(full_values(rsm.take(i + 1 as int)) =~= full_values(rsm.take(i as int)));
            }
        }
        i = i + 1;
    }
    proof {
        assert(rsm.take(rs@.len() as int) =~= rsm);
    }
    out
}

/// The canonical text of one command: `M` for forward, `+` and `-` for the
/// turns, and a bracketed rendering of the children for a block.
pub open spec fn render_cmd(c: CmdModel) -> Seq<char>
    decreases c,
{
    match c {
        CmdModel::F => seq!['M'],
        CmdModel::L => seq!['+'],
        CmdModel::R => seq!['-'],
        CmdModel::B(cs) => seq!['['] + render_cmds(cs) + seq![']'],
    }
}

/// The canonical text of a command sequence: the commands one after another.
pub open spec fn render_cmds(cs: Seq<CmdModel>) -> Seq<char>
    decreases cs,
{
    if cs.len() == 0 {
        Seq::empty()
    } else {
        render_cmd(cs[0]) + render_cmds(cs.drop_first())
    }
}

/// The values the one-command rule yields for these commands, before the
/// absent ones are filtered out: each command wrapped as present.
pub open spec fn found_values(cs: Seq<CmdModel>) -> Seq<ValModel>
    decreases cs,
{
    if cs.len() == 0 {
        Seq::empty()
    } else {
        seq![ValModel::Found(Box::new(ValModel::Cmd(cs[0])))] + found_values(cs.drop_first())
    }
}

/// The values the command-sequence rule yields for these commands.
pub open spec fn cmd_values(cs: Seq<CmdModel>) -> Seq<ValModel>
    decreases cs,
{
    if cs.len() == 0 {
        Seq::empty()
    } else {
        seq![ValModel::Cmd(cs[0])] + cmd_values(cs.drop_first())
    }
}

/// Whether the command-sequence rule stops in front of this input: nothing
/// is left, or a closing bracket is next, which no command alternative
/// accepts.
pub open spec fn stops_repetition(t: Seq<char>) -> bool {
    t.len() == 0 || t[0] == ']'
}

} // verus!
