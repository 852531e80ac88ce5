//! Building a whole run of elements from an index-wise constructor, on
//! top of the slot-run protocol: every slot is filled in ascending
//! order and the run is handed back fully valid.

use crate::slice::Slots;
use vstd::prelude::*;

verus! {

/// Creates a run of `n` elements, element `i` produced by `f(i)`. The
/// constructor is infallible, so the run always completes and nothing
/// is ever destructed along the way.
pub fn create_array_with<T, F: Fn(usize) -> T>(n: usize, f: F) -> (r: Vec<T>)
    requires
        forall|i: usize| i < n ==> call_requires(f, (i,)),
    ensures
        r@.len() == n,
        forall|i: int| 0 <= i < n ==> call_ensures(f, ((i as usize),), #[trigger] r@[i]),
{
    let mut slots: Slots<T> = Slots::new_vacant(n);
    let mut i: usize = 0;
    while i < n
        invariant
            slots@.len() == n,
            i <= n,
            forall|k: usize| k < n ==> call_requires(f, (k,)),
            forall|k: int|
                0 <= k < i ==> (#[trigger] slots@[k]) is Some && call_ensures(
                    f,
                    ((k as usize),),
                    slots@[k]->Some_0,
                ),
            forall|k: int| i <= k < n ==> (#[trigger] slots@[k]) is None,
        decreases n - i,
    {
        let v = f(i);
        slots.fill(i, v);
        i = i + 1;
    }
    let out = slots.take_all();
    proof {
        assert forall|k: int| 0 <= k < n implies call_ensures(
            f,
            ((k as usize),),
            #[trigger] out@[k],
        ) by {
            assert(slots@[k] == Some(out@[k]));
            assert(slots@[k]->Some_0 == out@[k]);
        }
    }
    out
}

} // verus!
