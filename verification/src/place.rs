//! A place containing a single value: the external contract by which a
//! consumer obtains a fully owned value built in place. An initializer
//! either produces the value, in which case ownership of the filled
//! place transfers to the caller, or fails, in which case its failure
//! propagates unchanged and no half-valid place survives.

use vstd::prelude::*;

verus! {

/// A place containing a single value of type `T`.
pub trait SinglePlace<T>: Sized {
    /// Whether this place holds exactly the value `t`.
    spec fn places(self, t: T) -> bool;

    /// Builds a value in place with `f`. On success the place holds
    /// precisely what `f` produced; on failure `f`'s error comes back
    /// unchanged and no place is handed out.
    fn emplace_with<E, F: FnOnce() -> Result<T, E>>(f: F) -> (r: Result<Self, E>)
        requires
            call_requires(f, ()),
        ensures
            r is Ok ==> exists|t: T|
                (r->Ok_0).places(t) && call_ensures(f, (), Result::<T, E>::Ok(t)),
            r is Err ==> call_ensures(f, (), Result::<T, E>::Err(r->Err_0)),
    ;

    /// Builds a value in place starting from the zero-filled value
    /// `zero`: the initializer receives it and reworks exactly the
    /// parts whose zero pattern is not already the value it wants. The
    /// success and failure contract is that of `emplace_with`.
    fn emplace_zeroed_with<E, F: FnOnce(T) -> Result<T, E>>(zero: T, f: F) -> (r: Result<Self, E>)
        requires
            call_requires(f, (zero,)),
        ensures
            r is Ok ==> exists|t: T|
                (r->Ok_0).places(t) && call_ensures(f, (zero,), Result::<T, E>::Ok(t)),
            r is Err ==> call_ensures(f, (zero,), Result::<T, E>::Err(r->Err_0)),
    ;
}

impl<T> SinglePlace<T> for Box<T> {
    /// A box places the value it holds.
    open spec fn places(self, t: T) -> bool {
        *self == t
    }

    fn emplace_with<E, F: FnOnce() -> Result<T, E>>(f: F) -> (r: Result<Self, E>) {
        let res = f();
        let ghost gres = res;
        match res {
            Ok(t) => {
                let ghost gt = t;
                let b = Box::new(t);
                let out: Result<Self, E> = Ok(b);
                proof {
                    assert(gres == Result::<T, E>::Ok(gt));
                    assert((out->Ok_0).places(gt) && call_ensures(f, (), Result::<T, E>::Ok(gt)));
                    assert(exists|t2: T|
                        (out->Ok_0).places(t2) && call_ensures(f, (), Result::<T, E>::Ok(t2)));
                }
                out
            }
            Err(e) => Err(e),
        }
    }

    fn emplace_zeroed_with<E, F: FnOnce(T) -> Result<T, E>>(zero: T, f: F) -> (r: Result<
        Self,
        E,
    >) {
        let ghost gzero = zero;
        let res = f(zero);
        let ghost gres = res;
        match res {
            Ok(t) => {
                let ghost gt = t;
                let b = Box::new(t);
                let out: Result<Self, E> = Ok(b);
                proof {
                    assert(gres == Result::<T, E>::Ok(gt));
                    assert((out->Ok_0).places(gt) && call_ensures(f, (gzero,), Result::<T, E>::Ok(gt)));
                    assert(exists|t2: T|
                        (out->Ok_0).places(t2) && call_ensures(f, (gzero,), Result::<T, E>::Ok(t2)));
                }
                out
            }
            Err(e) => Err(e),
        }
    }
}

} // verus!
