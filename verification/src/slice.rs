//! The incremental slot-run initializer: fills a contiguous run of
//! homogeneous slots one at a time, keeping the protocol's cursor
//! invariant — every slot before the cursor holds a fully valid element
//! that owns its resources, every slot at or past it holds nothing and
//! is never treated as owning anything.
//!
//! On a per-slot failure at index `k`, exactly the already-filled
//! prefix — the `k` elements below the cursor — is destructed, in
//! ascending index order, before the failure continues to the caller
//! unchanged; slot `k` itself and all later slots are left untouched.
//! The run records (as ghost state) the order in which slots were ever
//! destructed, so the cleanup contract is exact.

use vstd::pervasive::VecAdditionalExecFns;
use vstd::prelude::*;

verus! {

/// Whether every slot of `s` is vacant.
pub open spec fn all_vacant<T>(s: Seq<Option<T>>) -> bool {
    forall|i: int| 0 <= i < s.len() ==> s[i] is None
}

/// A run of homogeneous slots, each either vacant or holding a fully
/// valid element, with a ghost record of every destruction in the
/// order it happened.
pub struct Slots<T> {
    inner: Vec<Option<T>>,
    destroyed: Ghost<Seq<int>>,
}

impl<T> View for Slots<T> {
    type V = Seq<Option<T>>;

    closed spec fn view(&self) -> Seq<Option<T>> {
        self.inner@
    }
}

impl<T> Slots<T> {
    /// The indices whose element was destructed, oldest first.
    pub closed spec fn drop_log(self) -> Seq<int> {
        self.destroyed@
    }

    /// A run of `n` vacant slots with an empty destruction record.
    pub fn new_vacant(n: usize) -> (s: Slots<T>)
        ensures
            s@.len() == n,
            all_vacant(s@),
            s.drop_log() == Seq::<int>::empty(),
    {
        let mut inner: Vec<Option<T>> = Vec::new();
        let mut i: usize = 0;
        while i < n
            invariant
                i <= n,
                inner@.len() == i,
                all_vacant(inner@),
            decreases n - i,
        {
            inner.push(None);
            i = i + 1;
        }
        Slots { inner, destroyed: Ghost(Seq::empty()) }
    }

    /// Number of slots.
    pub fn len(&self) -> (n: usize)
        ensures
            n == self@.len(),
    {
        self.inner.len()
    }

    /// Moves `value` into the vacant slot `i`, which then owns it.
    pub fn fill(&mut self, i: usize, value: T)
        requires
            i < old(self)@.len(),
            old(self)@[i as int] is None,
        ensures
            final(self)@ == old(self)@.update(i as int, Some(value)),
            final(self).drop_log() == old(self).drop_log(),
    {
        self.inner.set(i, Some(value));
    }

    /// Destructs the element in slot `i`: the slot becomes vacant, the
    /// element's resources are released, and the destruction is
    /// recorded.
    fn destroy(&mut self, i: usize)
        requires
            i < old(self)@.len(),
            old(self)@[i as int] is Some,
        ensures
            final(self)@ == old(self)@.update(i as int, None),
            final(self).drop_log() == old(self).drop_log() + seq![i as int],
    {
        self.inner.set(i, None);
        self.destroyed = Ghost(self.destroyed@ + seq![i as int]);
    }

    /// Hands the run back as a sequence of fully valid elements, in
    /// slot order; every slot must be filled.
    pub fn take_all(self) -> (r: Vec<T>)
        requires
            forall|i: int| 0 <= i < self@.len() ==> self@[i] is Some,
        ensures
            r@.len() == self@.len(),
            forall|i: int| 0 <= i < self@.len() ==> self@[i] == Some(r@[i]),
    {
        let mut inner = self.inner;
        let n = inner.len();
        let mut out: Vec<T> = Vec::new();
        let mut i: usize = 0;
        while i < n
            invariant
                n == inner@.len(),
                n == self@.len(),
                i <= n,
                out@.len() == i,
                forall|k: int| i <= k < n ==> inner@[k] == self@[k],
                forall|k: int| 0 <= k < n ==> self@[k] is Some,
                forall|k: int| 0 <= k < i ==> self@[k] == Some(out@[k]),
            decreases n - i,
        {
            let mut taken: Option<T> = None;
            inner.set_and_swap(i, &mut taken);
            match taken {
                Some(v) => out.push(v),
                None => unreached(),
            }
            i = i + 1;
        }
        out
    }
}

/// Whether some successful element production is a possible outcome of
/// `f` at index `i`.
pub open spec fn produces_ok<T, E, F: Fn(usize) -> Result<T, E>>(f: F, i: usize) -> bool {
    exists|v: T| call_ensures(f, (i,), Result::<T, E>::Ok(v))
}

/// Fills the run at ascending indices with elements produced by `f`,
/// maintaining the cursor of fully valid slots. If every call of `f`
/// succeeds the run is fully filled and nothing was ever destructed.
/// If the call at index `k` fails, the `k` elements already produced
/// are destructed, in ascending index order, and exactly they — the
/// record shows precisely the indices below `k` — before the same
/// failure value is handed back unchanged; slots at and past `k` were
/// never filled and are not touched. Freeing whatever backing memory
/// the run lives in is not this protocol's duty: that belongs to the
/// enclosing allocation guard.
pub fn init_slice_with<T, E, F: Fn(usize) -> Result<T, E>>(slots: &mut Slots<T>, f: F) -> (r:
    Result<(), E>)
    requires
        all_vacant(old(slots)@),
        forall|i: usize| i < old(slots)@.len() ==> call_requires(f, (i,)),
    ensures
        final(slots)@.len() == old(slots)@.len(),
        r is Ok ==> {
            &&& forall|i: int|
                0 <= i < final(slots)@.len() ==> (#[trigger] final(slots)@[i]) is Some
                    && call_ensures(f, ((i as usize),), Result::<T, E>::Ok(final(slots)@[i]->Some_0))
            &&& final(slots).drop_log() == old(slots).drop_log()
        },
        r is Err ==> exists|k: usize|
            {
                &&& k < old(slots)@.len()
                &&& call_ensures(f, (k,), Result::<T, E>::Err(r->Err_0))
                &&& forall|i: usize| i < k ==> produces_ok::<T, E, F>(f, i)
                &&& all_vacant(final(slots)@)
                &&& final(slots).drop_log() == old(slots).drop_log() + Seq::new(
                    k as nat,
                    |i: int| i,
                )
            },
{
    let n = slots.len();
    let mut idx: usize = 0;
    while idx < n
        invariant
            n == slots@.len(),
            n == old(slots)@.len(),
            idx <= n,
            forall|i: usize| i < n ==> call_requires(f, (i,)),
            forall|i: int|
                0 <= i < idx ==> (#[trigger] slots@[i]) is Some && call_ensures(
                    f,
                    ((i as usize),),
                    Result::<T, E>::Ok(slots@[i]->Some_0),
                ),
            forall|i: int| idx <= i < n ==> (#[trigger] slots@[i]) is None,
            slots.drop_log() == old(slots).drop_log(),
        decreases n - idx,
    {
        let res = f(idx);
        let ghost gres = res;
        match res {
            Ok(v) => {
                slots.fill(idx, v);
                idx = idx + 1;
            }
            Err(e) => {
                let ghost ge = e;
                let ghost k = idx as int;
                let mut j: usize = 0;
                while j < idx
                    invariant
                        n == slots@.len(),
                        j <= idx <= n,
                        k == idx as int,
                        forall|i: int| 0 <= i < j ==> (#[trigger] slots@[i]) is None,
                        forall|i: usize| i < j ==> produces_ok::<T, E, F>(f, i),
                        forall|i: int|
                            j <= i < idx ==> (#[trigger] slots@[i]) is Some && call_ensures(
                                f,
                                ((i as usize),),
                                Result::<T, E>::Ok(slots@[i]->Some_0),
                            ),
                        forall|i: int| idx <= i < n ==> (#[trigger] slots@[i]) is None,
                        slots.drop_log() == old(slots).drop_log() + Seq::new(
                            j as nat,
                            |i: int| i,
                        ),
                    decreases idx - j,
                {
                    proof {
                        assert(slots.drop_log() + seq![j as int] =~= old(slots).drop_log()
                            + Seq::new((j + 1) as nat, |i: int| i));
                        assert(call_ensures(f, (j,), Result::<T, E>::Ok(slots@[j as int]->Some_0)));
                        assert(produces_ok::<T, E, F>(f, j));
                    }
                    slots.destroy(j);
                    j = j + 1;
                }
                let out: Result<(), E> = Err(e);
                proof {
                    assert(gres == Result::<T, E>::Err(out->Err_0));
                    assert(call_ensures(f, (idx,), Result::<T, E>::Err(out->Err_0)));
                    assert(all_vacant(slots@));
                    assert(exists|kw: usize|
                        {
                            &&& kw < old(slots)@.len()
                            &&& call_ensures(f, (kw,), Result::<T, E>::Err(out->Err_0))
                            &&& forall|i: usize| i < kw ==> produces_ok::<T, E, F>(f, i)
                            &&& all_vacant(slots@)
                            &&& slots.drop_log() == old(slots).drop_log() + Seq::new(
                                kw as nat,
                                |i: int| i,
                            )
                        });
                }
                return out;
            }
        }
    }
    Ok(())
}

} // verus!
