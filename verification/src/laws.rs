//! The algebra of the combinators, proved once and for all over the
//! specification semantics [`apply_spec`].

use vstd::prelude::*;

use crate::ops::MapFn;
use crate::ops::PairFn;
use crate::ops::map_val;
use crate::ops::pair_val;
use crate::parser::PModel;
use crate::parser::ResultModel;
use crate::parser::RULE_BUDGET;
use crate::parser::apply_spec;
use crate::parser::many_spec;
use crate::parser::map_results;
use crate::parser::pair_results;
use crate::parser::combine_spec;
use crate::grammar::Rule;
use crate::grammar::block_rule_model;
use crate::grammar::cmd_rule_model;
use crate::grammar::cmd_values;
use crate::grammar::cmds_rule_model;
use crate::grammar::forward_rule_model;
use crate::grammar::found_values;
use crate::grammar::is_string_model;
use crate::grammar::other_rule_model;
use crate::grammar::render_cmd;
use crate::grammar::render_cmds;
use crate::grammar::stops_repetition;
use crate::grammar::turn_rule_model;
use crate::ops::PredModel;
use crate::ops::cat_found;
use crate::ops::cmds_of;
use crate::ops::pred_holds;
use crate::value::CmdModel;
use crate::value::ValModel;

verus! {

broadcast use
    vstd::seq::group_seq_axioms,
    vstd::seq_lib::group_seq_lib_default,
;

/// Mapping changes no shape: on every input, the mapped parser has exactly
/// as many successes as the parser it wraps, with the same unconsumed
/// suffixes in the same order, and each value transformed pointwise.
pub proof fn lemma_map_preserves_shape(f: MapFn, p: PModel, s: Seq<char>, b: nat)
    ensures
        apply_spec(PModel::Mapped(f, Box::new(p)), s, b).len() == apply_spec(p, s, b).len(),
        forall|i: int|
            0 <= i < apply_spec(p, s, b).len() ==> #[trigger] apply_spec(
                PModel::Mapped(f, Box::new(p)),
                s,
                b,
            )[i] == (map_val(f, apply_spec(p, s, b)[i].0), apply_spec(p, s, b)[i].1),
{
}

/// A pure parser has exactly one success on every input, the empty input
/// included: its value, with the input unconsumed.
pub proof fn lemma_pure_one_success(v: ValModel, s: Seq<char>, b: nat)
    ensures
        apply_spec(PModel::Pure(v), s, b) == seq![(v, s)],
{
}

/// Choice is left-biased: when the first branch has any success, the choice
/// returns exactly the first branch's successes, whatever the second branch
/// would produce; only a failing first branch lets the second run.
pub proof fn lemma_choice_left_biased(p: PModel, q: PModel, s: Seq<char>, b: nat)
    ensures
        apply_spec(p, s, b).len() > 0 ==> apply_spec(
            PModel::Choice(Box::new(p), Box::new(q)),
            s,
            b,
        ) == apply_spec(p, s, b),
        apply_spec(p, s, b).len() == 0 ==> apply_spec(
            PModel::Choice(Box::new(p), Box::new(q)),
            s,
            b,
        ) == apply_spec(q, s, b),
{
}

/// Repetition never fails and is never ambiguous: on every input it has
/// exactly one success, whose value lists the values gathered by
/// [`many_spec`] — one for each successful, input-consuming application of
/// the inner parser before the first failure or zero-width match — and whose
/// suffix is where that repetition stopped. That the repetition terminates
/// on every input is witnessed by the recursion measure of `many_spec` and
/// of the executable [`crate::parser::apply`].
pub proof fn lemma_many_one_success(p: PModel, s: Seq<char>, b: nat)
    ensures
        apply_spec(PModel::Many(Box::new(p)), s, b).len() == 1,
        apply_spec(PModel::Many(Box::new(p)), s, b)[0] == (ValModel::List(
            many_spec(p, s, b).0,
        ), many_spec(p, s, b).1),
{
}

/// Each gathered repetition value stands for at least one consumed
/// character: the count of values plus the unconsumed suffix never exceeds
/// the input.
pub proof fn lemma_many_consumes(p: PModel, s: Seq<char>, b: nat)
    ensures
        many_spec(p, s, b).0.len() + many_spec(p, s, b).1.len() <= s.len(),
    decreases s.len(),
{
    let rs = apply_spec(p, s, b);
    if rs.len() > 0 {
        let rest = rs[0].1;
        if rest.len() < s.len() {
            lemma_many_consumes(p, rest, RULE_BUDGET as nat);
        }
    }
}

/// The command-sequence rule never fails and is never ambiguous: on every
/// input, and with any rule budget in hand, it has exactly one success — a
/// repetition that matches nothing still succeeds with the empty sequence.
pub proof fn lemma_cmds_always_one_success(s: Seq<char>, b: nat)
    ensures
        apply_spec(crate::grammar::cmds_rule_model(), s, b).len() == 1,
{
    let inner = PModel::Many(Box::new(PModel::Call(crate::grammar::Rule::Cmd)));
    assert(apply_spec(crate::grammar::cmds_rule_model(), s, b) == map_results(
        MapFn::CatMaybes,
        apply_spec(inner, s, b),
    ));
    assert(apply_spec(inner, s, b).len() == 1);
}


/// Filtering the wrapped command values unwraps them all: none is absent.
proof fn lemma_cat_found_of_found(cs: Seq<CmdModel>)
    ensures
        cat_found(found_values(cs)) == cmd_values(cs),
    decreases cs,
{
    if cs.len() == 0 {
        assert(cat_found(found_values(cs)) =~= cmd_values(cs));
    } else {
        let head = ValModel::Found(Box::new(ValModel::Cmd(cs[0])));
        assert(found_values(cs)[0] == head);
        assert(found_values(cs).drop_first() =~= found_values(cs.drop_first()));
        lemma_cat_found_of_found(cs.drop_first());
        assert(cat_found(found_values(cs)) =~= cmd_values(cs));
    }
}

/// The command payloads of the command values are the commands themselves.
proof fn lemma_cmds_of_values(cs: Seq<CmdModel>)
    ensures
        cmds_of(cmd_values(cs)) == cs,
    decreases cs,
{
    if cs.len() == 0 {
        assert(cmds_of(cmd_values(cs)) =~= cs);
    } else {
        assert(cmd_values(cs)[0] == ValModel::Cmd(cs[0]));
        assert(cmd_values(cs).drop_first() =~= cmd_values(cs.drop_first()));
        lemma_cmds_of_values(cs.drop_first());
        assert(cmds_of(cmd_values(cs)) =~= cs);
    }
}

/// Every command's canonical text holds at least one character.
proof fn lemma_render_cmd_nonempty(c: CmdModel)
    ensures
        render_cmd(c).len() >= 1,
{
    match c {
        CmdModel::F => {},
        CmdModel::L => {},
        CmdModel::R => {},
        CmdModel::B(_) => {},
    }
}

/// A tagging alternative of the command grammar — a pure value kept over
/// one accepted character — yields its value over the consumed character.
/// The witness `c` carries the consumed character as a typed value.
proof fn lemma_tag_alt_hit(v: ValModel, pr: PredModel, s: Seq<char>, c: char, b: nat)
    requires
        s.len() > 0,
        s[0] == c,
        pred_holds(pr, s[0]),
    ensures
        apply_spec(
            PModel::Combine(
                PairFn::KeepLeft,
                Box::new(PModel::Pure(v)),
                Box::new(PModel::Satisfy(pr)),
            ),
            s,
            b,
        ) == seq![(v, s.drop_first())],
{
    let p = PModel::Combine(
        PairFn::KeepLeft,
        Box::new(PModel::Pure(v)),
        Box::new(PModel::Satisfy(pr)),
    );
    let rs0 = apply_spec(PModel::Pure(v), s, b);
    assert(rs0 =~= seq![(v, s)]);
    assert(apply_spec(p, s, b) == combine_spec(
        PairFn::KeepLeft,
        PModel::Satisfy(pr),
        rs0,
        s.len(),
        b,
    ));
    assert(rs0.drop_first() =~= Seq::<ResultModel>::empty());
    assert(combine_spec(PairFn::KeepLeft, PModel::Satisfy(pr), rs0.drop_first(), s.len(), b)
        =~= Seq::<ResultModel>::empty());
    let sat = apply_spec(PModel::Satisfy(pr), s, b);
    assert(combine_spec(PairFn::KeepLeft, PModel::Satisfy(pr), rs0, s.len(), b) =~= pair_results(
        PairFn::KeepLeft,
        v,
        sat,
    ));
    assert(sat =~= seq![(ValModel::Ch(s[0]), s.drop_first())]);
    assert(pair_results(PairFn::KeepLeft, v, sat) =~= seq![(v, s.drop_first())]);
}

/// A tagging alternative fails exactly where its predicate rejects the
/// first character or the input is empty.
proof fn lemma_tag_alt_miss(v: ValModel, pr: PredModel, s: Seq<char>, b: nat)
    requires
        !(s.len() > 0 && pred_holds(pr, s[0])),
    ensures
        apply_spec(
            PModel::Combine(
                PairFn::KeepLeft,
                Box::new(PModel::Pure(v)),
                Box::new(PModel::Satisfy(pr)),
            ),
            s,
            b,
        ) == Seq::<ResultModel>::empty(),
{
    let p = PModel::Combine(
        PairFn::KeepLeft,
        Box::new(PModel::Pure(v)),
        Box::new(PModel::Satisfy(pr)),
    );
    let rs0 = apply_spec(PModel::Pure(v), s, b);
    assert(rs0 =~= seq![(v, s)]);
    assert(apply_spec(p, s, b) == combine_spec(
        PairFn::KeepLeft,
        PModel::Satisfy(pr),
        rs0,
        s.len(),
        b,
    ));
    assert(rs0.drop_first() =~= Seq::<ResultModel>::empty());
    assert(combine_spec(PairFn::KeepLeft, PModel::Satisfy(pr), rs0.drop_first(), s.len(), b)
        =~= Seq::<ResultModel>::empty());
    let sat = apply_spec(PModel::Satisfy(pr), s, b);
    assert(sat =~= Seq::<ResultModel>::empty());
    assert(pair_results(PairFn::KeepLeft, v, sat) =~= Seq::<ResultModel>::empty());
    assert(combine_spec(PairFn::KeepLeft, PModel::Satisfy(pr), rs0, s.len(), b)
        =~= Seq::<ResultModel>::empty());
}

/// A mapped single-character alternative yields the mapped value over the
/// consumed character. The witness `c` carries the consumed character as a
/// typed value.
proof fn lemma_mapped_satisfy_hit(f: MapFn, pr: PredModel, s: Seq<char>, c: char, b: nat)
    requires
        s.len() > 0,
        s[0] == c,
        pred_holds(pr, s[0]),
    ensures
        apply_spec(PModel::Mapped(f, Box::new(PModel::Satisfy(pr))), s, b) == seq![
            (map_val(f, ValModel::Ch(s[0])), s.drop_first()),
        ],
{
    let sat = apply_spec(PModel::Satisfy(pr), s, b);
    assert(sat =~= seq![(ValModel::Ch(s[0]), s.drop_first())]);
    assert(map_results(f, sat) =~= seq![(map_val(f, ValModel::Ch(s[0])), s.drop_first())]);
}

/// A mapped single-character alternative fails exactly where its predicate
/// rejects the first character or the input is empty.
proof fn lemma_mapped_satisfy_miss(f: MapFn, pr: PredModel, s: Seq<char>, b: nat)
    requires
        !(s.len() > 0 && pred_holds(pr, s[0])),
    ensures
        apply_spec(PModel::Mapped(f, Box::new(PModel::Satisfy(pr))), s, b)
            == Seq::<ResultModel>::empty(),
{
    let sat = apply_spec(PModel::Satisfy(pr), s, b);
    assert(sat =~= Seq::<ResultModel>::empty());
    assert(map_results(f, sat) =~= Seq::<ResultModel>::empty());
}


/// No command alternative accepts an empty input or one that begins with a
/// closing bracket: the one-command rule fails there, which is what stops
/// the command-sequence repetition.
proof fn lemma_cmd_fails_on_stop(t: Seq<char>, b: nat)
    requires
        stops_repetition(t),
    ensures
        apply_spec(cmd_rule_model(), t, b) == Seq::<ResultModel>::empty(),
{
    let fwd = forward_rule_model();
    let lft = turn_rule_model('+', CmdModel::L);
    let rgt = turn_rule_model('-', CmdModel::R);
    let blk = block_rule_model();
    let oth = other_rule_model();
    let c12 = PModel::Choice(Box::new(fwd), Box::new(lft));
    let c123 = PModel::Choice(Box::new(c12), Box::new(rgt));
    let c45 = PModel::Choice(Box::new(blk), Box::new(oth));
    assert(cmd_rule_model() == PModel::Choice(Box::new(c123), Box::new(c45)));
    if t.len() > 0 {
        assert(t[0] == ']');
        assert(seq!['M', 'N'][0] == 'M');
        assert(seq!['M', 'N'][1] == 'N');
        assert(!seq!['M', 'N'].contains(t[0])) by {
            assert forall|i: int| 0 <= i < seq!['M', 'N'].len() implies seq!['M', 'N'][i] != t[0] by {
                if i == 0 {
                } else {
                    assert(i == 1);
                }
            }
        }
        assert(seq!['M', 'N', '+', '-', '[', ']'][5] == ']');
        assert(seq!['M', 'N', '+', '-', '[', ']'].contains(t[0]));
    }
    assert(!(t.len() > 0 && pred_holds(PredModel::OneOf(seq!['M', 'N']), t[0])));
    assert(!(t.len() > 0 && pred_holds(PredModel::CharIs('+'), t[0])));
    assert(!(t.len() > 0 && pred_holds(PredModel::CharIs('-'), t[0])));
    assert(!(t.len() > 0 && pred_holds(PredModel::CharIs('['), t[0])));
    assert(!(t.len() > 0 && pred_holds(
        PredModel::NoneOf(seq!['M', 'N', '+', '-', '[', ']']),
        t[0],
    )));
    lemma_tag_alt_miss(
        ValModel::Found(Box::new(ValModel::Cmd(CmdModel::F))),
        PredModel::OneOf(seq!['M', 'N']),
        t,
        b,
    );
    lemma_tag_alt_miss(
        ValModel::Found(Box::new(ValModel::Cmd(CmdModel::L))),
        PredModel::CharIs('+'),
        t,
        b,
    );
    lemma_tag_alt_miss(
        ValModel::Found(Box::new(ValModel::Cmd(CmdModel::R))),
        PredModel::CharIs('-'),
        t,
        b,
    );
    lemma_mapped_satisfy_miss(
        MapFn::ToMissing,
        PredModel::NoneOf(seq!['M', 'N', '+', '-', '[', ']']),
        t,
        b,
    );
    // The block alternative dies at its opening bracket.
    let mblock = PModel::Mapped(MapFn::ToBlock, Box::new(PModel::Call(Rule::Cmds)));
    let inner1 = PModel::Combine(
        PairFn::KeepRight,
        Box::new(PModel::Satisfy(PredModel::CharIs('['))),
        Box::new(mblock),
    );
    let bhead = PModel::Combine(
        PairFn::KeepLeft,
        Box::new(inner1),
        Box::new(PModel::Satisfy(PredModel::CharIs(']'))),
    );
    assert(blk == PModel::Mapped(MapFn::WrapFound, Box::new(bhead)));
    let sat1 = apply_spec(PModel::Satisfy(PredModel::CharIs('[')), t, b);
    assert(sat1 =~= Seq::<ResultModel>::empty());
    assert(apply_spec(inner1, t, b) == combine_spec(PairFn::KeepRight, mblock, sat1, t.len(), b));
    assert(combine_spec(PairFn::KeepRight, mblock, sat1, t.len(), b)
        =~= Seq::<ResultModel>::empty());
    assert(apply_spec(bhead, t, b) == combine_spec(
        PairFn::KeepLeft,
        PModel::Satisfy(PredModel::CharIs(']')),
        apply_spec(inner1, t, b),
        t.len(),
        b,
    ));
    assert(combine_spec(
        PairFn::KeepLeft,
        PModel::Satisfy(PredModel::CharIs(']')),
        apply_spec(inner1, t, b),
        t.len(),
        b,
    ) =~= Seq::<ResultModel>::empty());
    assert(apply_spec(blk, t, b) == map_results(MapFn::WrapFound, apply_spec(bhead, t, b)));
    assert(map_results(MapFn::WrapFound, apply_spec(bhead, t, b))
        =~= Seq::<ResultModel>::empty());
    // Every branch of the choice chain is empty.
    assert(apply_spec(c12, t, b) =~= Seq::<ResultModel>::empty());
    assert(apply_spec(c123, t, b) =~= Seq::<ResultModel>::empty());
    assert(apply_spec(c45, t, b) =~= Seq::<ResultModel>::empty());
    assert(apply_spec(cmd_rule_model(), t, b) =~= Seq::<ResultModel>::empty());
}


/// Greedy repetition of the one-command rule over rendered commands gathers
/// exactly the wrapped commands and stops in front of `t`. The budget must
/// allow one rule expansion; every consumed command restores it.
proof fn lemma_many_cmds(cs: Seq<CmdModel>, t: Seq<char>, b: nat)
    requires
        b >= 1,
        stops_repetition(t),
    ensures
        many_spec(PModel::Call(Rule::Cmd), render_cmds(cs) + t, b) == (found_values(cs), t),
    decreases cs,
{
    let s = render_cmds(cs) + t;
    let callp = PModel::Call(Rule::Cmd);
    assert(apply_spec(callp, s, b) == apply_spec(cmd_rule_model(), s, (b - 1) as nat));
    if cs.len() == 0 {
        assert(s =~= t);
        lemma_cmd_fails_on_stop(t, (b - 1) as nat);
        assert(apply_spec(callp, s, b) =~= Seq::<ResultModel>::empty());
        assert(many_spec(callp, s, b) == (Seq::<ValModel>::empty(), s));
        assert(found_values(cs) =~= Seq::<ValModel>::empty());
    } else {
        let c0 = cs[0];
        let cs1 = cs.drop_first();
        let rest_in = render_cmds(cs1) + t;
        assert(render_cmds(cs) == render_cmd(c0) + render_cmds(cs1));
        assert(s =~= render_cmd(c0) + rest_in);
        assert(decreases_to!(cs => cs[0]));
        lemma_cmd_parses_rendered(c0, rest_in, (b - 1) as nat);
        let found0 = ValModel::Found(Box::new(ValModel::Cmd(c0)));
        assert(apply_spec(callp, s, b) == seq![(found0, rest_in)]);
        lemma_render_cmd_nonempty(c0);
        assert(rest_in.len() < s.len());
        lemma_many_cmds(cs1, t, RULE_BUDGET as nat);
        let rs = apply_spec(callp, s, b);
        assert(rs[0] == (found0, rest_in));
        assert(many_spec(callp, s, b).0 == seq![found0] + many_spec(
            callp,
            rest_in,
            RULE_BUDGET as nat,
        ).0);
        assert(many_spec(callp, s, b).1 == many_spec(callp, rest_in, RULE_BUDGET as nat).1);
        assert(found_values(cs) =~= seq![found0] + found_values(cs1));
        assert(many_spec(callp, s, b).0 =~= found_values(cs));
    }
}

/// The one-command rule on a rendered command: exactly one success — the
/// command, wrapped as present — with the trailing input untouched. The
/// rendered text pins which alternative fires; a block restores the rule
/// budget by consuming its opening bracket, so any budget serves.
pub proof fn lemma_cmd_parses_rendered(c: CmdModel, t: Seq<char>, b: nat)
    ensures
        apply_spec(cmd_rule_model(), render_cmd(c) + t, b) == seq![
            (ValModel::Found(Box::new(ValModel::Cmd(c))), t),
        ],
    decreases c,
{
    let s = render_cmd(c) + t;
    let fwd = forward_rule_model();
    let lft = turn_rule_model('+', CmdModel::L);
    let rgt = turn_rule_model('-', CmdModel::R);
    let blk = block_rule_model();
    let oth = other_rule_model();
    let c12 = PModel::Choice(Box::new(fwd), Box::new(lft));
    let c123 = PModel::Choice(Box::new(c12), Box::new(rgt));
    let c45 = PModel::Choice(Box::new(blk), Box::new(oth));
    assert(cmd_rule_model() == PModel::Choice(Box::new(c123), Box::new(c45)));
    let f_val = ValModel::Found(Box::new(ValModel::Cmd(CmdModel::F)));
    let l_val = ValModel::Found(Box::new(ValModel::Cmd(CmdModel::L)));
    let r_val = ValModel::Found(Box::new(ValModel::Cmd(CmdModel::R)));
    let mn = seq!['M', 'N'];
    assert(mn[0] == 'M');
    assert(mn[1] == 'N');
    match c {
        CmdModel::F => {
            assert(s[0] == 'M');
            assert(s.drop_first() =~= t);
            assert(mn.contains(s[0]));
            lemma_tag_alt_hit(f_val, PredModel::OneOf(mn), s, 'M', b);
            assert(apply_spec(fwd, s, b) == seq![(f_val, t)]);
            assert(apply_spec(c12, s, b) == apply_spec(fwd, s, b));
            assert(apply_spec(c123, s, b) == apply_spec(fwd, s, b));
            assert(apply_spec(cmd_rule_model(), s, b) == apply_spec(fwd, s, b));
        },
        CmdModel::L => {
            assert(s[0] == '+');
            assert(s.drop_first() =~= t);
            assert(!mn.contains(s[0])) by {
                assert forall|i: int| 0 <= i < mn.len() implies mn[i] != s[0] by {
                    if i != 0 {
                        assert(i == 1);
                    }
                }
            }
            lemma_tag_alt_miss(f_val, PredModel::OneOf(mn), s, b);
            lemma_tag_alt_hit(l_val, PredModel::CharIs('+'), s, '+', b);
            assert(apply_spec(fwd, s, b).len() == 0);
            assert(apply_spec(lft, s, b) == seq![(l_val, t)]);
            assert(apply_spec(c12, s, b) == apply_spec(lft, s, b));
            assert(apply_spec(c123, s, b) == apply_spec(lft, s, b));
            assert(apply_spec(cmd_rule_model(), s, b) == apply_spec(lft, s, b));
        },
        CmdModel::R => {
            assert(s[0] == '-');
            assert(s.drop_first() =~= t);
            assert(!mn.contains(s[0])) by {
                assert forall|i: int| 0 <= i < mn.len() implies mn[i] != s[0] by {
                    if i != 0 {
                        assert(i == 1);
                    }
                }
            }
            lemma_tag_alt_miss(f_val, PredModel::OneOf(mn), s, b);
            lemma_tag_alt_miss(l_val, PredModel::CharIs('+'), s, b);
            lemma_tag_alt_hit(r_val, PredModel::CharIs('-'), s, '-', b);
            assert(apply_spec(fwd, s, b).len() == 0);
            assert(apply_spec(lft, s, b).len() == 0);
            assert(apply_spec(rgt, s, b) == seq![(r_val, t)]);
            assert(apply_spec(c12, s, b) == apply_spec(lft, s, b));
            assert(apply_spec(c123, s, b) == apply_spec(rgt, s, b));
            assert(apply_spec(cmd_rule_model(), s, b) == apply_spec(rgt, s, b));
        },
        CmdModel::B(csb) => {
            assert(render_cmd(c) == seq!['['] + render_cmds(csb) + seq![']']);
            let tail2 = seq![']'] + t;
            let inner_in = render_cmds(csb) + tail2;
            assert(s =~= seq!['['] + inner_in);
            assert(s[0] == '[');
            assert(s.drop_first() =~= inner_in);
            // The three tagging alternatives reject the bracket.
            assert(!mn.contains(s[0])) by {
                assert forall|i: int| 0 <= i < mn.len() implies mn[i] != s[0] by {
                    if i != 0 {
                        assert(i == 1);
                    }
                }
            }
            lemma_tag_alt_miss(f_val, PredModel::OneOf(mn), s, b);
            lemma_tag_alt_miss(l_val, PredModel::CharIs('+'), s, b);
            lemma_tag_alt_miss(r_val, PredModel::CharIs('-'), s, b);
            assert(apply_spec(c12, s, b) =~= Seq::<ResultModel>::empty());
            assert(apply_spec(c123, s, b) =~= Seq::<ResultModel>::empty());
            // The block alternative, step by step.
            let mblock = PModel::Mapped(MapFn::ToBlock, Box::new(PModel::Call(Rule::Cmds)));
            let inner1 = PModel::Combine(
                PairFn::KeepRight,
                Box::new(PModel::Satisfy(PredModel::CharIs('['))),
                Box::new(mblock),
            );
            let bhead = PModel::Combine(
                PairFn::KeepLeft,
                Box::new(inner1),
                Box::new(PModel::Satisfy(PredModel::CharIs(']'))),
            );
            assert(blk == PModel::Mapped(MapFn::WrapFound, Box::new(bhead)));
            // The opening bracket is consumed, restoring the rule budget.
            let sat1 = apply_spec(PModel::Satisfy(PredModel::CharIs('[')), s, b);
            assert(sat1 =~= seq![(ValModel::Ch(s[0]), inner_in)]);
            assert(apply_spec(inner1, s, b) == combine_spec(
                PairFn::KeepRight,
                mblock,
                sat1,
                s.len(),
                b,
            ));
            assert(sat1.drop_first() =~= Seq::<ResultModel>::empty());
            assert(combine_spec(PairFn::KeepRight, mblock, sat1.drop_first(), s.len(), b)
                =~= Seq::<ResultModel>::empty());
            assert(inner_in.len() < s.len());
            let mres = apply_spec(mblock, inner_in, RULE_BUDGET as nat);
            assert(combine_spec(PairFn::KeepRight, mblock, sat1, s.len(), b) =~= pair_results(
                PairFn::KeepRight,
                ValModel::Ch(s[0]),
                mres,
            ));
            // The command-sequence rule inside the brackets.
            assert(tail2[0] == ']');
            assert(stops_repetition(tail2));
            assert(c->B_0 == csb);
            assert(decreases_to!(c => c->B_0));
            lemma_many_cmds(csb, tail2, (RULE_BUDGET - 1) as nat);
            let callres = apply_spec(PModel::Call(Rule::Cmds), inner_in, RULE_BUDGET as nat);
            assert(callres == apply_spec(cmds_rule_model(), inner_in, (RULE_BUDGET - 1) as nat));
            let manyp = PModel::Many(Box::new(PModel::Call(Rule::Cmd)));
            assert(cmds_rule_model() == PModel::Mapped(MapFn::CatMaybes, Box::new(manyp)));
            assert(apply_spec(manyp, inner_in, (RULE_BUDGET - 1) as nat) =~= seq![
                (ValModel::List(found_values(csb)), tail2),
            ]);
            lemma_cat_found_of_found(csb);
            assert(map_val(MapFn::CatMaybes, ValModel::List(found_values(csb)))
                == ValModel::List(cmd_values(csb)));
            assert(apply_spec(cmds_rule_model(), inner_in, (RULE_BUDGET - 1) as nat)
                == map_results(
                MapFn::CatMaybes,
                apply_spec(manyp, inner_in, (RULE_BUDGET - 1) as nat),
            ));
            assert(callres =~= seq![(ValModel::List(cmd_values(csb)), tail2)]);
            // The gathered commands become one block command.
            lemma_cmds_of_values(csb);
            assert(map_val(MapFn::ToBlock, ValModel::List(cmd_values(csb))) == ValModel::Cmd(
                CmdModel::B(csb),
            ));
            assert(mres == map_results(MapFn::ToBlock, callres));
            assert(mres =~= seq![(ValModel::Cmd(CmdModel::B(csb)), tail2)]);
            assert(pair_results(PairFn::KeepRight, ValModel::Ch(s[0]), mres) =~= seq![
                (ValModel::Cmd(CmdModel::B(csb)), tail2),
            ]);
            let i1res = apply_spec(inner1, s, b);
            assert(i1res =~= seq![(ValModel::Cmd(CmdModel::B(csb)), tail2)]);
            // The closing bracket is consumed.
            assert(apply_spec(bhead, s, b) == combine_spec(
                PairFn::KeepLeft,
                PModel::Satisfy(PredModel::CharIs(']')),
                i1res,
                s.len(),
                b,
            ));
            assert(i1res.drop_first() =~= Seq::<ResultModel>::empty());
            assert(combine_spec(
                PairFn::KeepLeft,
                PModel::Satisfy(PredModel::CharIs(']')),
                i1res.drop_first(),
                s.len(),
                b,
            ) =~= Seq::<ResultModel>::empty());
            assert(tail2.len() < s.len());
            let sat2 = apply_spec(PModel::Satisfy(PredModel::CharIs(']')), tail2, RULE_BUDGET as nat);
            assert(tail2.drop_first() =~= t);
            assert(sat2 =~= seq![(ValModel::Ch(tail2[0]), t)]);
            assert(combine_spec(
                PairFn::KeepLeft,
                PModel::Satisfy(PredModel::CharIs(']')),
                i1res,
                s.len(),
                b,
            ) =~= pair_results(PairFn::KeepLeft, ValModel::Cmd(CmdModel::B(csb)), sat2));
            assert(pair_results(PairFn::KeepLeft, ValModel::Cmd(CmdModel::B(csb)), sat2) =~= seq![
                (ValModel::Cmd(CmdModel::B(csb)), t),
            ]);
            // The block is wrapped as a present command.
            assert(apply_spec(blk, s, b) == map_results(
                MapFn::WrapFound,
                apply_spec(bhead, s, b),
            ));
            assert(apply_spec(blk, s, b) =~= seq![
                (ValModel::Found(Box::new(ValModel::Cmd(c))), t),
            ]);
            // The first three alternatives fell through; the block hit.
            assert(apply_spec(c45, s, b) == apply_spec(blk, s, b));
            assert(apply_spec(cmd_rule_model(), s, b) == apply_spec(c45, s, b));
        },
    }
}

/// Parsing a canonically rendered command sequence gives back exactly those
/// commands — one success, nothing left over — whenever the text after it
/// cannot start another command.
pub proof fn lemma_cmds_parses_rendered(cs: Seq<CmdModel>, t: Seq<char>, b: nat)
    requires
        b >= 1,
        stops_repetition(t),
    ensures
        apply_spec(cmds_rule_model(), render_cmds(cs) + t, b) == seq![
            (ValModel::List(cmd_values(cs)), t),
        ],
{
    let s = render_cmds(cs) + t;
    let manyp = PModel::Many(Box::new(PModel::Call(Rule::Cmd)));
    assert(cmds_rule_model() == PModel::Mapped(MapFn::CatMaybes, Box::new(manyp)));
    lemma_many_cmds(cs, t, b);
    assert(apply_spec(manyp, s, b) =~= seq![(ValModel::List(found_values(cs)), t)]);
    lemma_cat_found_of_found(cs);
    assert(map_val(MapFn::CatMaybes, ValModel::List(found_values(cs))) == ValModel::List(
        cmd_values(cs),
    ));
    assert(apply_spec(cmds_rule_model(), s, b) == map_results(
        MapFn::CatMaybes,
        apply_spec(manyp, s, b),
    ));
    assert(apply_spec(cmds_rule_model(), s, b) =~= seq![(ValModel::List(cmd_values(cs)), t)]);
}

/// A literal-string parser matches exactly its string as a prefix: where
/// the pattern is a prefix of the input, one success yields the pattern with
/// the input after it; everywhere else the parser fails. The rule budget
/// plays no part: a string parser names no grammar rule.
pub proof fn lemma_string_matches_prefix(p: PModel, cs: Seq<char>, s: Seq<char>, b: nat)
    requires
        is_string_model(p, cs),
    ensures
        cs.is_prefix_of(s) ==> apply_spec(p, s, b) == seq![
            (ValModel::Str(cs), s.skip(cs.len() as int)),
        ],
        !cs.is_prefix_of(s) ==> apply_spec(p, s, b) == Seq::<ResultModel>::empty(),
    decreases cs.len(),
{
    if cs.len() == 0 {
        assert(cs =~= s.subrange(0, 0));
        assert(cs.is_prefix_of(s));
        assert(s.skip(0) =~= s);
        assert(cs =~= Seq::<char>::empty());
        assert(apply_spec(p, s, b) =~= seq![(ValModel::Str(cs), s.skip(0))]);
    } else {
        let cs1 = cs.drop_first();
        let (a, q) = choose|a: Box<PModel>, q: Box<PModel>|
            p == PModel::Combine(PairFn::ConsStr, a, q);
        assert(*a == PModel::Satisfy(crate::ops::PredModel::CharIs(cs[0])));
        // The typed character carried by the parser itself; the pattern's
        // first element equals it.
        let d = (*a)->Satisfy_0->CharIs_0;
        assert(d == cs[0]);
        let rs0 = apply_spec(*a, s, b);
        if s.len() > 0 && s[0] == cs[0] {
            assert(s[0] == d);
            let s1 = s.drop_first();
            assert(rs0 =~= seq![(ValModel::Ch(s[0]), s1)]);
            assert(s1.len() < s.len());
            assert(apply_spec(p, s, b) == combine_spec(PairFn::ConsStr, *q, rs0, s.len(), b));
            // One step of the sequencing recursion: the single head success,
            // then nothing.
            assert(rs0.drop_first() =~= Seq::<ResultModel>::empty());
            assert(combine_spec(PairFn::ConsStr, *q, rs0.drop_first(), s.len(), b)
                =~= Seq::<ResultModel>::empty());
            let inner = apply_spec(*q, s1, RULE_BUDGET as nat);
            let here = pair_results(PairFn::ConsStr, ValModel::Ch(s[0]), inner);
            assert(combine_spec(PairFn::ConsStr, *q, rs0, s.len(), b) =~= here);
            assert(apply_spec(p, s, b) =~= here);
            lemma_string_matches_prefix(*q, cs1, s1, RULE_BUDGET as nat);
            if cs1.is_prefix_of(s1) {
                assert(seq![cs[0]] + cs1 =~= cs);
                assert(s1.skip(cs1.len() as int) =~= s.skip(cs.len() as int));
                assert(pair_val(PairFn::ConsStr, ValModel::Ch(s[0]), ValModel::Str(cs1))
                    == ValModel::Str(seq![cs[0]] + cs1));
                assert(here =~= seq![(ValModel::Str(cs), s.skip(cs.len() as int))]);
                assert(cs =~= s.subrange(0, cs.len() as int));
                assert(cs.is_prefix_of(s));
            } else {
                assert(here =~= Seq::<ResultModel>::empty());
                assert(!cs.is_prefix_of(s)) by {
                    if cs.is_prefix_of(s) {
                        assert(cs1 =~= s1.subrange(0, cs1.len() as int));
                        assert(cs1.is_prefix_of(s1));
                    }
                }
            }
        } else {
            assert(rs0 =~= Seq::<ResultModel>::empty());
            assert(apply_spec(p, s, b) == combine_spec(PairFn::ConsStr, *q, rs0, s.len(), b));
            assert(combine_spec(PairFn::ConsStr, *q, rs0, s.len(), b)
                =~= Seq::<ResultModel>::empty());
            assert(apply_spec(p, s, b) =~= Seq::<ResultModel>::empty());
            assert(!cs.is_prefix_of(s)) by {
                if cs.is_prefix_of(s) {
                    assert(s.subrange(0, cs.len() as int)[0] == s[0]);
                }
            }
        }
    }
}

} // verus!
