//! The raw placement allocator: a model of the host allocator's
//! boundary, and the guarded allocate-and-initialize protocol on top of
//! it.
//!
//! The host allocator hands out fresh, exclusively owned regions and
//! takes them back by address; the model keeps the outstanding
//! allocations and counts every call, so that a caller can state — and
//! this module can prove — that a failed construction releases its
//! backing region exactly once, and a successful one transfers
//! ownership out and releases nothing.
//!
//! A failed initializer is a value on the error path, not a control
//! transfer: the initializer returns `Err`, the rollback guard fires,
//! the region is deallocated, and the same error continues to the
//! caller unchanged. Requests of size zero never reach the host: the
//! initializer runs on a zero-length region whose address token is
//! derived from the alignment.

use crate::guard::Guard;
use crate::layout::{align_up, align_up_spec, lemma_align_up, lemma_pow2_positive, LayoutDesc};
use crate::region::{all_uninit, all_zero, Region};
use crate::slice::{all_vacant, init_slice_with, Slots};
use vstd::prelude::*;

verus! {

/// The host allocator's boundary: outstanding allocations and call
/// counts. Exhaustion of the model's address space is a fatal
/// condition, excluded up front by `fits`; there is no recovery path
/// from it, so no operation reports it as a value.
pub struct HostAlloc {
    /// First address not yet claimed.
    pub next: usize,
    /// Outstanding allocations: address of each live region, and the
    /// layout it was claimed with.
    pub live: Ghost<Map<int, LayoutDesc>>,
    /// How many times `allocate` ran.
    pub allocate_calls: usize,
    /// How many times `allocate_zeroed` ran.
    pub allocate_zeroed_calls: usize,
    /// How many times `deallocate` ran.
    pub deallocate_calls: usize,
}

impl HostAlloc {
    /// The allocator's invariant: live regions sit below the watermark,
    /// and the books balance — every claimed region was either released
    /// or is still outstanding.
    pub open spec fn wf(self) -> bool {
        &&& self.next >= 1
        &&& self.allocate_calls + self.allocate_zeroed_calls < self.next
        &&& self.live@.dom().finite()
        &&& forall|ad: int| self.live@.dom().contains(ad) ==> 1 <= ad < self.next
        &&& self.allocate_calls + self.allocate_zeroed_calls == self.deallocate_calls
            + self.live@.dom().len()
    }

    /// Whether the model's address space still has room for `layout`.
    pub open spec fn fits(self, layout: LayoutDesc) -> bool {
        align_up_spec(self.next as int, layout.align as int) + layout.size + 1 <= usize::MAX
    }

    /// A fresh allocator with no outstanding region and all counts at
    /// zero.
    pub fn new() -> (a: HostAlloc)
        ensures
            a.wf(),
            a.live@ == Map::<int, LayoutDesc>::empty(),
            a.allocate_calls == 0,
            a.allocate_zeroed_calls == 0,
            a.deallocate_calls == 0,
    {
        HostAlloc {
            next: 1,
            live: Ghost(Map::empty()),
            allocate_calls: 0,
            allocate_zeroed_calls: 0,
            deallocate_calls: 0,
        }
    }

    /// Claims a fresh region of `layout`. Its cells are indeterminate,
    /// its address is aligned, non-zero and distinct from every
    /// outstanding region's.
    pub fn allocate(&mut self, layout: LayoutDesc) -> (r: Region)
        requires
            old(self).wf(),
            layout.valid(),
            old(self).fits(layout),
        ensures
            final(self).wf(),
            r@.len() == layout.size,
            all_uninit(r@),
            r.addr() != 0,
            r.addr() as int % layout.align as int == 0,
            !old(self).live@.dom().contains(r.addr() as int),
            final(self).live@ == old(self).live@.insert(r.addr() as int, layout),
            final(self).allocate_calls == old(self).allocate_calls + 1,
            final(self).allocate_zeroed_calls == old(self).allocate_zeroed_calls,
            final(self).deallocate_calls == old(self).deallocate_calls,
    {
        let addr = self.claim(layout);
        self.allocate_calls = self.allocate_calls + 1;
        Region::new_uninit(addr, layout.size)
    }

    /// Claims a fresh region of `layout` with every cell zero; the same
    /// guarantees as `allocate` otherwise.
    pub fn allocate_zeroed(&mut self, layout: LayoutDesc) -> (r: Region)
        requires
            old(self).wf(),
            layout.valid(),
            old(self).fits(layout),
        ensures
            final(self).wf(),
            r@.len() == layout.size,
            all_zero(r@),
            r.addr() != 0,
            r.addr() as int % layout.align as int == 0,
            !old(self).live@.dom().contains(r.addr() as int),
            final(self).live@ == old(self).live@.insert(r.addr() as int, layout),
            final(self).allocate_calls == old(self).allocate_calls,
            final(self).allocate_zeroed_calls == old(self).allocate_zeroed_calls + 1,
            final(self).deallocate_calls == old(self).deallocate_calls,
    {
        let addr = self.claim(layout);
        self.allocate_zeroed_calls = self.allocate_zeroed_calls + 1;
        Region::new_zeroed(addr, layout.size)
    }

    /// Advances the watermark past a fresh aligned address and records
    /// the new outstanding region.
    fn claim(&mut self, layout: LayoutDesc) -> (addr: usize)
        requires
            old(self).wf(),
            layout.valid(),
            old(self).fits(layout),
        ensures
            final(self).next >= 1,
            final(self).allocate_calls + final(self).allocate_zeroed_calls + 1 < final(self).next,
            final(self).live@.dom().finite(),
            forall|ad: int| final(self).live@.dom().contains(ad) ==> 1 <= ad < final(self).next,
            final(self).allocate_calls + final(self).allocate_zeroed_calls + 1 == final(self).deallocate_calls
                + final(self).live@.dom().len(),
            addr != 0,
            addr as int % layout.align as int == 0,
            !old(self).live@.dom().contains(addr as int),
            final(self).live@ == old(self).live@.insert(addr as int, layout),
            final(self).allocate_calls == old(self).allocate_calls,
            final(self).allocate_zeroed_calls == old(self).allocate_zeroed_calls,
            final(self).deallocate_calls == old(self).deallocate_calls,
    {
        proof {
            lemma_pow2_positive(layout.align as int);
            lemma_align_up(self.next as int, layout.align as int);
        }
        let addr = match align_up(self.next, layout.align) {
            Ok(v) => v,
            Err(_) => unreached(),
        };
        self.next = addr + layout.size + 1;
        proof {
            vstd::set::axiom_set_insert_len(self.live@.dom(), addr as int);
        }
        self.live = Ghost(self.live@.insert(addr as int, layout));
        addr
    }

    /// Releases the outstanding region at `addr`. Release cannot fail;
    /// the books record one more completed release.
    pub fn deallocate(&mut self, addr: usize, layout: LayoutDesc)
        requires
            old(self).wf(),
            old(self).live@.dom().contains(addr as int),
            old(self).live@[addr as int] == layout,
        ensures
            final(self).wf(),
            final(self).live@ == old(self).live@.remove(addr as int),
            final(self).deallocate_calls == old(self).deallocate_calls + 1,
            final(self).allocate_calls == old(self).allocate_calls,
            final(self).allocate_zeroed_calls == old(self).allocate_zeroed_calls,
            final(self).next == old(self).next,
    {
        proof {
            vstd::set::axiom_set_remove_len(self.live@.dom(), addr as int);
        }
        self.live = Ghost(self.live@.remove(addr as int));
        self.deallocate_calls = self.deallocate_calls + 1;
    }
}

/// Whether `s` is the content a fresh region of `size` cells has:
/// all-zero when the request was zero-filled, all-indeterminate
/// otherwise.
pub open spec fn fresh_cells(s: Seq<Option<u8>>, size: int, zeroed: bool) -> bool {
    &&& s.len() == size
    &&& if zeroed {
        all_zero(s)
    } else {
        all_uninit(s)
    }
}

/// Allocates a region of `layout`, hands it to the initializer `f`, and
/// returns whatever `f` returns. If `f` succeeds, ownership of the
/// region passes to the caller and nothing is released. If `f` fails,
/// the rollback guard releases the backing region exactly once and the
/// failure propagates unchanged; nothing inside the region is
/// destructed here, because nothing in it was necessarily ever valid —
/// that duty belongs to whatever protocol `f` ran internally. A request
/// of size zero never reaches the host allocator: the initializer still
/// runs, on a zero-length region whose address token is the alignment.
fn emplace<E, F: FnOnce(Region) -> Result<Region, E>>(
    a: &mut HostAlloc,
    layout: LayoutDesc,
    zeroed: bool,
    f: F,
) -> (r: Result<Region, E>)
    requires
        old(a).wf(),
        layout.valid(),
        layout.size > 0 ==> old(a).fits(layout),
        forall|reg: Region|
            fresh_cells(reg@, layout.size as int, zeroed) ==> call_requires(f, (reg,)),
    ensures
        final(a).wf(),
        exists|reg: Region|
            {
                &&& fresh_cells(reg@, layout.size as int, zeroed)
                &&& call_ensures(f, (reg,), r)
                &&& layout.size > 0 ==> {
                    &&& reg.addr() != 0
                    &&& !old(a).live@.dom().contains(reg.addr() as int)
                    &&& (r is Ok ==> final(a).live@ == old(a).live@.insert(
                        reg.addr() as int,
                        layout,
                    ))
                }
                &&& layout.size == 0 ==> reg.addr() == layout.align
            },
        layout.size == 0 ==> *final(a) == *old(a),
        layout.size > 0 ==> {
            &&& (if zeroed {
                final(a).allocate_zeroed_calls == old(a).allocate_zeroed_calls + 1
                    && final(a).allocate_calls == old(a).allocate_calls
            } else {
                final(a).allocate_calls == old(a).allocate_calls + 1
                    && final(a).allocate_zeroed_calls == old(a).allocate_zeroed_calls
            })
            &&& (r is Ok ==> final(a).deallocate_calls == old(a).deallocate_calls)
            &&& (r is Err ==> final(a).deallocate_calls == old(a).deallocate_calls + 1
                && final(a).live@ == old(a).live@)
        },
{
    if layout.size == 0 {
        let region = Region::new_uninit(layout.align, 0);
        let ghost greg = region;
        let r = f(region);
        proof {
            assert(fresh_cells(greg@, layout.size as int, zeroed));
            assert(call_ensures(f, (greg,), r));
        }
        return r;
    }
    let region = if zeroed {
        a.allocate_zeroed(layout)
    } else {
        a.allocate(layout)
    };
    let ghost greg = region;
    let addr = region.address();
    let guard = Guard::new((addr, layout));
    match f(region) {
        Ok(out) => {
            guard.cancel();
            Ok(out)
        }
        Err(e) => {
            let (raddr, rlayout) = guard.fire();
            a.deallocate(raddr, rlayout);
            proof {
                assert(final(a).live@ =~= old(a).live@);
            }
            Err(e)
        }
    }
}

/// Allocates memory of `layout` and initializes it with `f`; the
/// region's cells start indeterminate. Success hands the region out,
/// with its backing allocation still on the books; failure releases the
/// backing allocation exactly once and propagates unchanged.
pub fn emplace_with<E, F: FnOnce(Region) -> Result<Region, E>>(
    a: &mut HostAlloc,
    layout: LayoutDesc,
    f: F,
) -> (r: Result<Region, E>)
    requires
        old(a).wf(),
        layout.valid(),
        layout.size > 0 ==> old(a).fits(layout),
        forall|reg: Region|
            fresh_cells(reg@, layout.size as int, false) ==> call_requires(f, (reg,)),
    ensures
        final(a).wf(),
        exists|reg: Region|
            {
                &&& fresh_cells(reg@, layout.size as int, false)
                &&& call_ensures(f, (reg,), r)
                &&& layout.size > 0 ==> {
                    &&& reg.addr() != 0
                    &&& !old(a).live@.dom().contains(reg.addr() as int)
                    &&& (r is Ok ==> final(a).live@ == old(a).live@.insert(
                        reg.addr() as int,
                        layout,
                    ))
                }
                &&& layout.size == 0 ==> reg.addr() == layout.align
            },
        layout.size == 0 ==> *final(a) == *old(a),
        layout.size > 0 ==> {
            &&& final(a).allocate_calls == old(a).allocate_calls + 1
            &&& final(a).allocate_zeroed_calls == old(a).allocate_zeroed_calls
            &&& (r is Ok ==> final(a).deallocate_calls == old(a).deallocate_calls)
            &&& (r is Err ==> final(a).deallocate_calls == old(a).deallocate_calls + 1
                && final(a).live@ == old(a).live@)
        },
{
    emplace(a, layout, false, f)
}

/// Allocates zero-filled memory of `layout` and initializes it with
/// `f`: before `f` writes anything, every cell of the region holds the
/// byte zero. The rest of the contract is that of `emplace_with`.
pub fn emplace_zeroed_with<E, F: FnOnce(Region) -> Result<Region, E>>(
    a: &mut HostAlloc,
    layout: LayoutDesc,
    f: F,
) -> (r: Result<Region, E>)
    requires
        old(a).wf(),
        layout.valid(),
        layout.size > 0 ==> old(a).fits(layout),
        forall|reg: Region|
            fresh_cells(reg@, layout.size as int, true) ==> call_requires(f, (reg,)),
    ensures
        final(a).wf(),
        exists|reg: Region|
            {
                &&& fresh_cells(reg@, layout.size as int, true)
                &&& call_ensures(f, (reg,), r)
                &&& layout.size > 0 ==> {
                    &&& reg.addr() != 0
                    &&& !old(a).live@.dom().contains(reg.addr() as int)
                    &&& (r is Ok ==> final(a).live@ == old(a).live@.insert(
                        reg.addr() as int,
                        layout,
                    ))
                }
                &&& layout.size == 0 ==> reg.addr() == layout.align
            },
        layout.size == 0 ==> *final(a) == *old(a),
        layout.size > 0 ==> {
            &&& final(a).allocate_zeroed_calls == old(a).allocate_zeroed_calls + 1
            &&& final(a).allocate_calls == old(a).allocate_calls
            &&& (r is Ok ==> final(a).deallocate_calls == old(a).deallocate_calls)
            &&& (r is Err ==> final(a).deallocate_calls == old(a).deallocate_calls + 1
                && final(a).live@ == old(a).live@)
        },
{
    emplace(a, layout, true, f)
}

/// The layout of a contiguous run of `n` values with layout `elem`:
/// one stride — the element size rounded up to its alignment — per
/// value.
pub open spec fn run_layout_spec(elem: LayoutDesc, n: int) -> int {
    align_up_spec(elem.size as int, elem.align as int) * n
}

/// Builds a contiguous run in place: allocates backing memory for
/// `slots.len()` values of layout `elem`, fills the slots at ascending
/// indices with `f`, and hands the backing region out on success. On a
/// per-slot failure the two rollback layers run innermost first:
/// exactly the already-built prefix is destructed, in ascending order,
/// and only then does the outer guard release the backing region,
/// exactly once, before the failure propagates unchanged. Neither layer
/// knows about the other; the ordering comes from the inner protocol
/// finishing its cleanup before this one's guard fires. A run of total
/// size zero never reaches the host allocator.
pub fn emplace_slice_with<T, E, F: Fn(usize) -> Result<T, E>>(
    a: &mut HostAlloc,
    elem: LayoutDesc,
    slots: &mut Slots<T>,
    f: F,
) -> (r: Result<Region, E>)
    requires
        old(a).wf(),
        elem.valid(),
        run_layout_spec(elem, old(slots)@.len() as int) <= usize::MAX,
        run_layout_spec(elem, old(slots)@.len() as int) > 0 ==> old(a).fits(
            LayoutDesc {
                size: run_layout_spec(elem, old(slots)@.len() as int) as usize,
                align: elem.align,
            },
        ),
        all_vacant(old(slots)@),
        forall|i: usize| i < old(slots)@.len() ==> call_requires(f, (i,)),
    ensures
        final(a).wf(),
        final(slots)@.len() == old(slots)@.len(),
        r is Ok ==> {
            &&& forall|i: int|
                0 <= i < final(slots)@.len() ==> (#[trigger] final(slots)@[i]) is Some
                    && call_ensures(f, ((i as usize),), Result::<T, E>::Ok(final(slots)@[i]->Some_0))
            &&& final(slots).drop_log() == old(slots).drop_log()
            &&& (r->Ok_0)@.len() == run_layout_spec(elem, old(slots)@.len() as int)
            &&& final(a).deallocate_calls == old(a).deallocate_calls
        },
        r is Err ==> exists|k: usize|
            {
                &&& k < old(slots)@.len()
                &&& call_ensures(f, (k,), Result::<T, E>::Err(r->Err_0))
                &&& forall|i: usize| i < k ==> crate::slice::produces_ok::<T, E, F>(f, i)
                &&& all_vacant(final(slots)@)
                &&& final(slots).drop_log() == old(slots).drop_log() + Seq::new(
                    k as nat,
                    |i: int| i,
                )
            },
        r is Err ==> final(a).live@ == old(a).live@ && (run_layout_spec(
            elem,
            old(slots)@.len() as int,
        ) > 0 ==> final(a).deallocate_calls == old(a).deallocate_calls + 1),
        run_layout_spec(elem, old(slots)@.len() as int) > 0 ==> final(a).allocate_calls == old(
            a,
        ).allocate_calls + 1 && final(a).allocate_zeroed_calls == old(a).allocate_zeroed_calls,
        r is Ok ==> all_uninit((r->Ok_0)@),
        r is Ok && run_layout_spec(elem, old(slots)@.len() as int) > 0 ==> final(a).live@ == old(
            a,
        ).live@.insert(
            (r->Ok_0).addr() as int,
            LayoutDesc {
                size: run_layout_spec(elem, old(slots)@.len() as int) as usize,
                align: elem.align,
            },
        ),
        run_layout_spec(elem, old(slots)@.len() as int) == 0 ==> *final(a) == *old(a),
{
    let n = slots.len();
    let layout = match elem.repeat(n) {
        Ok(l) => l,
        Err(_) => unreached(),
    };
    if layout.size == 0 {
        let region = Region::new_uninit(layout.align, 0);
        let inner = init_slice_with(slots, f);
        let ghost ginner = inner;
        return match inner {
            Ok(()) => Ok(region),
            Err(e) => {
                let out: Result<Region, E> = Err(e);
                proof {
                    lemma_slice_failure_witness(
                        ginner,
                        old(slots)@.len() as int,
                        old(slots).drop_log(),
                        slots@,
                        slots.drop_log(),
                        f,
                        out->Err_0,
                    );
                }
                out
            }
        };
    }
    let region = a.allocate(layout);
    let addr = region.address();
    let guard = Guard::new((addr, layout));
    let inner = init_slice_with(slots, f);
    let ghost ginner = inner;
    match inner {
        Ok(()) => {
            guard.cancel();
            Ok(region)
        }
        Err(e) => {
            let (raddr, rlayout) = guard.fire();
            a.deallocate(raddr, rlayout);
            let out: Result<Region, E> = Err(e);
            proof {
                assert(final(a).live@ =~= old(a).live@);
                lemma_slice_failure_witness(
                    ginner,
                    old(slots)@.len() as int,
                    old(slots).drop_log(),
                    slots@,
                    slots.drop_log(),
                    f,
                    out->Err_0,
                );
            }
            out
        }
    }
}

/// Carries the slot-run failure contract across the composition: the
/// inner protocol's witness index serves the outer contract unchanged.
proof fn lemma_slice_failure_witness<T, E, F: Fn(usize) -> Result<T, E>>(
    inner: Result<(), E>,
    before_len: int,
    before_log: Seq<int>,
    after_view: Seq<Option<T>>,
    after_log: Seq<int>,
    f: F,
    err: E,
) -> (k: usize)
    requires
        inner is Err,
        inner->Err_0 == err,
        exists|k: usize|
            {
                &&& k < before_len
                &&& call_ensures(f, (k,), Result::<T, E>::Err(inner->Err_0))
                &&& forall|i: usize| i < k ==> crate::slice::produces_ok::<T, E, F>(f, i)
                &&& all_vacant(after_view)
                &&& after_log == before_log + Seq::new(k as nat, |i: int| i)
            },
    ensures
        k < before_len,
        call_ensures(f, (k,), Result::<T, E>::Err(err)),
        forall|i: usize| i < k ==> crate::slice::produces_ok::<T, E, F>(f, i),
        all_vacant(after_view),
        after_log == before_log + Seq::new(k as nat, |i: int| i),
{
    choose|k: usize|
        {
            &&& k < before_len
            &&& call_ensures(f, (k,), Result::<T, E>::Err(inner->Err_0))
            &&& forall|i: usize| i < k ==> crate::slice::produces_ok::<T, E, F>(f, i)
            &&& all_vacant(after_view)
            &&& after_log == before_log + Seq::new(k as nat, |i: int| i)
        }
}

} // verus!
