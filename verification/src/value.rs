//! The values that parsers produce, and their mathematical models.
//!
//! Parsers are first-order data (see [`crate::parser`]), so the values they
//! can yield form one closed type, [`Value`]. Contracts never speak of
//! `Value` directly: they use its model [`ValModel`], in which every vector
//! is a `Seq`, so that results can be stated and composed in specifications.

use vstd::prelude::*;

verus! {

broadcast use
    vstd::std_specs::vec::group_vec_axioms,
    vstd::seq::group_seq_axioms,
    vstd::seq_lib::group_seq_lib_default,
;

/// A turtle-graphics command: step forward, turn left, turn right,
/// or run a bracketed block of commands.
#[derive(Debug, PartialEq, Eq)]
pub enum Command {
    F,
    L,
    R,
    B(Vec<Command>),
}

/// The mathematical shape of a [`Command`]: a block's children are a `Seq`.
#[verifier::ext_equal]
pub enum CmdModel {
    F,
    L,
    R,
    B(Seq<CmdModel>),
}

/// The model of one command.
pub open spec fn cmd_model(c: Command) -> CmdModel
    decreases c,
{
    match c {
        Command::F => CmdModel::F,
        Command::L => CmdModel::L,
        Command::R => CmdModel::R,
        Command::B(cs) => CmdModel::B(cmds_model(cs@)),
    }
}

/// The models of a sequence of commands, pointwise.
pub open spec fn cmds_model(cs: Seq<Command>) -> Seq<CmdModel>
    decreases cs,
{
    if cs.len() == 0 {
        Seq::empty()
    } else {
        seq![cmd_model(cs[0])] + cmds_model(cs.drop_first())
    }
}

/// What a parser yields: a character, a string of characters, a list of
/// values, a pair of values, a present or absent optional value, a command,
/// or a small number.
#[derive(Debug, PartialEq, Eq)]
pub enum Value {
    Ch(char),
    Str(Vec<char>),
    List(Vec<Value>),
    Pair(Box<Value>, Box<Value>),
    Found(Box<Value>),
    Missing,
    Cmd(Command),
    Num(u32),
}

/// The mathematical shape of a [`Value`]: vectors become sequences.
#[verifier::ext_equal]
pub enum ValModel {
    Ch(char),
    Str(Seq<char>),
    List(Seq<ValModel>),
    Pair(Box<ValModel>, Box<ValModel>),
    Found(Box<ValModel>),
    Missing,
    Cmd(CmdModel),
    Num(u32),
}

/// The model of one value.
pub open spec fn val_model(v: Value) -> ValModel
    decreases v,
{
    match v {
        Value::Ch(c) => ValModel::Ch(c),
        Value::Str(cs) => ValModel::Str(cs@),
        Value::List(vs) => ValModel::List(vals_model(vs@)),
        Value::Pair(a, b) => ValModel::Pair(Box::new(val_model(*a)), Box::new(val_model(*b))),
        Value::Found(a) => ValModel::Found(Box::new(val_model(*a))),
        Value::Missing => ValModel::Missing,
        Value::Cmd(c) => ValModel::Cmd(cmd_model(c)),
        Value::Num(n) => ValModel::Num(n),
    }
}

/// The models of a sequence of values, pointwise.
pub open spec fn vals_model(vs: Seq<Value>) -> Seq<ValModel>
    decreases vs,
{
    if vs.len() == 0 {
        Seq::empty()
    } else {
        seq![val_model(vs[0])] + vals_model(vs.drop_first())
    }
}

/// `vals_model` looked at elementwise.
pub proof fn lemma_vals_model_index(vs: Seq<Value>)
    ensures
        vals_model(vs).len() == vs.len(),
        forall|i: int| 0 <= i < vs.len() ==> vals_model(vs)[i] == val_model(vs[i]),
    decreases vs,
{
    if vs.len() > 0 {
        lemma_vals_model_index(vs.drop_first());
    }
}

/// Appending one value appends its model.
pub proof fn lemma_vals_model_push(vs: Seq<Value>, v: Value)
    ensures
        vals_model(vs.push(v)) == vals_model(vs) + seq![val_model(v)],
    decreases vs,
{
    if vs.len() == 0 {
        assert(vs.push(v).drop_first() =~= Seq::<Value>::empty());
        assert(vs.push(v)[0] == v);
        assert(vals_model(Seq::<Value>::empty()) =~= Seq::<ValModel>::empty());
        assert(vals_model(vs.push(v)) =~= seq![val_model(v)]);
        assert(vals_model(vs) + seq![val_model(v)] =~= seq![val_model(v)]);
    } else {
        assert(vs.push(v).drop_first() =~= vs.drop_first().push(v));
        lemma_vals_model_push(vs.drop_first(), v);
        assert(vals_model(vs.push(v)) =~= vals_model(vs) + seq![val_model(v)]);
    }
}

/// `cmds_model` looked at elementwise.
pub proof fn lemma_cmds_model_index(cs: Seq<Command>)
    ensures
        cmds_model(cs).len() == cs.len(),
        forall|i: int| 0 <= i < cs.len() ==> cmds_model(cs)[i] == cmd_model(cs[i]),
    decreases cs,
{
    if cs.len() > 0 {
        lemma_cmds_model_index(cs.drop_first());
    }
}

/// Appending one command appends its model.
pub proof fn lemma_cmds_model_push(cs: Seq<Command>, c: Command)
    ensures
        cmds_model(cs.push(c)) == cmds_model(cs) + seq![cmd_model(c)],
    decreases cs,
{
    if cs.len() == 0 {
        assert(cs.push(c).drop_first() =~= Seq::<Command>::empty());
        assert(cs.push(c)[0] == c);
        assert(cmds_model(Seq::<Command>::empty()) =~= Seq::<CmdModel>::empty());
        assert(cmds_model(cs.push(c)) =~= seq![cmd_model(c)]);
        assert(cmds_model(cs) + seq![cmd_model(c)] =~= seq![cmd_model(c)]);
    } else {
        assert(cs.push(c).drop_first() =~= cs.drop_first().push(c));
        lemma_cmds_model_push(cs.drop_first(), c);
        assert(cmds_model(cs.push(c)) =~= cmds_model(cs) + seq![cmd_model(c)]);
    }
}

/// A copy of a command with the same model.
pub fn clone_command(c: &Command) -> (r: Command)
    ensures
        cmd_model(r) == cmd_model(*c),
    decreases *c,
{
    match c {
        Command::F => Command::F,
        Command::L => Command::L,
        Command::R => Command::R,
        Command::B(cs) => {
            let mut out: Vec<Command> = Vec::new();
            let mut i: usize = 0;
            while i < cs.len()
                invariant
                    *c == Command::B(*cs),
                    i <= cs.len(),
                    cmds_model(out@) == cmds_model(cs@.take(i as int)),
                    out@.len() == i,
                decreases cs.len() - i,
            {
                proof {
                    assert(c->B_0 == *cs);
                    assert(decreases_to!(*c => c->B_0));
                    assert(decreases_to!(*cs => cs@));
                    assert(decreases_to!(cs@ => cs@[i as int]));
                    assert(decreases_to!(*c => cs@[i as int]));
                }
                let d = clone_command(&cs[i]);
                proof {
                    lemma_cmds_model_push(out@, d);
                    lemma_cmds_model_push(cs@.take(i as int), cs@[i as int]);
                    lemma_cmds_model_index(out@);
                    assert(cs@.take(i as int).push(cs@[i as int]) =~= cs@.take(i + 1 as int));
                }
                out.push(d);
                i = i + 1;
            }
            proof {
                assert(cs@.take(cs@.len() as int) =~= cs@);
            }
            Command::B(out)
        },
    }
}

/// A copy of a vector of characters with the same view.
pub fn clone_chars(cs: &Vec<char>) -> (r: Vec<char>)
    ensures
        r@ == cs@,
{
    let mut out: Vec<char> = Vec::new();
    let mut i: usize = 0;
    while i < cs.len()
        invariant
            i <= cs.len(),
            out@ == cs@.take(i as int),
        decreases cs.len() - i,
    {
        out.push(cs[i]);
        proof {
            assert(cs@.take(i as int).push(cs@[i as int]) =~= cs@.take(i + 1 as int));
        }
        i = i + 1;
    }
    proof {
        assert(cs@.take(cs@.len() as int) =~= cs@);
    }
    out
}

/// A copy of a value with the same model.
pub fn clone_value(v: &Value) -> (r: Value)
    ensures
        val_model(r) == val_model(*v),
    decreases *v,
{
    match v {
        Value::Ch(c) => Value::Ch(*c),
        Value::Str(cs) => Value::Str(clone_chars(cs)),
        Value::List(vs) => {
            let mut out: Vec<Value> = Vec::new();
            let mut i: usize = 0;
            while i < vs.len()
                invariant
                    *v == Value::List(*vs),
                    i <= vs.len(),
                    vals_model(out@) == vals_model(vs@.take(i as int)),
                    out@.len() == i,
                decreases vs.len() - i,
            {
                proof {
                    assert(decreases_to!(*v => v->List_0));
                    assert(decreases_to!(*vs => vs@));
                    assert(decreases_to!(vs@ => vs@[i as int]));
                    assert(decreases_to!(*v => vs@[i as int]));
                }
                let d = clone_value(&vs[i]);
                proof {
                    lemma_vals_model_push(out@, d);
                    lemma_vals_model_push(vs@.take(i as int), vs@[i as int]);
                    assert(vs@.take(i as int).push(vs@[i as int]) =~= vs@.take(i + 1 as int));
                }
                out.push(d);
                i = i + 1;
            }
            proof {
                assert(vs@.take(vs@.len() as int) =~= vs@);
            }
            Value::List(out)
        },
        Value::Pair(a, b) => {
            proof {
                assert(decreases_to!(*v => v->Pair_0));
                assert(decreases_to!(*v => v->Pair_1));
            }
            let ca = clone_value(&*a);
            let cb = clone_value(&*b);
            Value::Pair(Box::new(ca), Box::new(cb))
        },
        Value::Found(a) => {
            proof {
                assert(decreases_to!(*v => v->Found_0));
            }
            Value::Found(Box::new(clone_value(&*a)))
        },
        Value::Missing => Value::Missing,
        Value::Cmd(c) => Value::Cmd(clone_command(c)),
        Value::Num(n) => Value::Num(*n),
    }
}

} // verus!
