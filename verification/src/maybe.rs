//! Small helpers over optional values, kept beside the parser because the
//! grammar layer speaks of present and absent results.

use vstd::prelude::*;

verus! {

broadcast use
    vstd::std_specs::vec::group_vec_axioms,
    vstd::seq::group_seq_axioms,
    vstd::seq_lib::group_seq_lib_default,
;

/// The payloads of the present values of a sequence, in order.
pub open spec fn present_values<T>(ms: Seq<Option<T>>) -> Seq<T>
    decreases ms.len(),
{
    if ms.len() == 0 {
        Seq::empty()
    } else {
        (match ms[0] {
            Option::Some(v) => seq![v],
            Option::None => Seq::empty(),
        }) + present_values(ms.drop_first())
    }
}

/// The payloads of the present values of `items`, in order; the absent
/// values are dropped.
#[allow(non_snake_case)]
pub fn catMaybes<T>(items: Vec<Option<T>>) -> (r: Vec<T>)
    ensures
        r@ == present_values(items@),
{
    let ghost orig = items@;
    let mut items = items;
    let mut out: Vec<T> = Vec::new();
    proof {
        assert(out@ + present_values(items@) =~= present_values(orig));
    }
    while items.len() > 0
        invariant
            present_values(orig) == out@ + present_values(items@),
        decreases items.len(),
    {
        let ghost before = items@;
        let x = items.remove(0);
        proof {
            assert(items@ =~= before.drop_first());
            assert(before[0] == x);
        }
        match x {
            Option::Some(v) => {
                proof {
                    assert((out@ + seq![v]) + present_values(items@) =~= out@ + (seq![v]
                        + present_values(items@)));
                    assert(out@.push(v) =~= out@ + seq![v]);
                }
                out.push(v);
            },
            Option::None => {
                proof {
                    assert(out@ + present_values(items@) =~= present_values(orig));
                }
            },
        }
    }
    proof {
        assert(present_values(items@) =~= Seq::<T>::empty());
        assert(out@ + Seq::<T>::empty() =~= out@);
    }
    out
}

/// Sequencing of optional values: the continuation runs only on a present
/// payload; an absent value stays absent.
pub fn bind<A, B, F: FnOnce(A) -> Option<B>>(ma: Option<A>, k: F) -> (r: Option<B>)
    requires
        ma matches Option::Some(a) ==> call_requires(k, (a,)),
    ensures
        ma is None ==> r is None,
        ma matches Option::Some(a) ==> call_ensures(k, (a,), r),
{
    match ma {
        Option::Some(a) => k(a),
        Option::None => Option::None,
    }
}

/// One layer of optional nesting removed.
pub fn join<A>(mma: Option<Option<A>>) -> (r: Option<A>)
    ensures
        r == (match mma {
            Option::Some(ma) => ma,
            Option::None => Option::None::<A>,
        }),
{
    match mma {
        Option::Some(ma) => ma,
        Option::None => Option::None,
    }
}

/// The identity function as a value: calling the result on any argument
/// gives that argument back.
pub fn id<T>() -> (f: impl Fn(T) -> T)
    ensures
        forall|x: T| call_requires(f, (x,)),
        forall|x: T, y: T| call_ensures(f, (x,), y) ==> y == x,
{
    |x: T| -> (y: T)
        ensures
            y == x,
        {
            x
        }
}

} // verus!
