//! Memory region model: an address token plus a run of byte cells, each
//! either indeterminate (never written since the region was obtained) or
//! holding a definite byte value.
//!
//! A region starts life either fully indeterminate or fully zero-filled.
//! Whoever holds the `Region` value owns it exclusively; ownership moves
//! by value, mirroring the explicit hand-off of raw memory from the
//! allocator to an initializer and onward. No operation reads a cell
//! that is still indeterminate.

use vstd::pervasive::VecAdditionalExecFns;
use vstd::prelude::*;

verus! {

/// A memory region under construction: an address token and its byte
/// cells. A cell of `None` is indeterminate and must never be read or
/// treated as owning anything.
#[derive(Debug)]
pub struct Region {
    addr: usize,
    cells: Vec<Option<u8>>,
}

impl View for Region {
    type V = Seq<Option<u8>>;

    closed spec fn view(&self) -> Seq<Option<u8>> {
        self.cells@
    }
}

/// Whether every cell of `s` holds a definite value.
pub open spec fn all_init(s: Seq<Option<u8>>) -> bool {
    forall|i: int| 0 <= i < s.len() ==> s[i] is Some
}

/// Whether every cell of `s` is still indeterminate.
pub open spec fn all_uninit(s: Seq<Option<u8>>) -> bool {
    forall|i: int| 0 <= i < s.len() ==> s[i] is None
}

/// Whether every cell of `s` holds the byte zero.
pub open spec fn all_zero(s: Seq<Option<u8>>) -> bool {
    forall|i: int| 0 <= i < s.len() ==> s[i] == Some(0u8)
}

/// Bitwise-or of all bytes of a fully defined run of cells.
pub open spec fn or_fold_spec(s: Seq<Option<u8>>) -> u8
    recommends
        all_init(s),
    decreases s.len(),
{
    if s.len() == 0 {
        0u8
    } else {
        or_fold_spec(s.drop_last()) | s.last()->Some_0
    }
}

impl Region {
    /// The region's address token.
    pub closed spec fn addr(self) -> usize {
        self.addr
    }

    /// A fresh region of `size` indeterminate cells at `addr`.
    pub fn new_uninit(addr: usize, size: usize) -> (r: Region)
        ensures
            r.addr() == addr,
            r@.len() == size,
            all_uninit(r@),
    {
        let mut cells: Vec<Option<u8>> = Vec::new();
        let mut i: usize = 0;
        while i < size
            invariant
                i <= size,
                cells@.len() == i,
                all_uninit(cells@),
            decreases size - i,
        {
            cells.push(None);
            i = i + 1;
        }
        Region { addr, cells }
    }

    /// A fresh region of `size` cells at `addr`, every cell zero.
    pub fn new_zeroed(addr: usize, size: usize) -> (r: Region)
        ensures
            r.addr() == addr,
            r@.len() == size,
            all_zero(r@),
    {
        let mut cells: Vec<Option<u8>> = Vec::new();
        let mut i: usize = 0;
        while i < size
            invariant
                i <= size,
                cells@.len() == i,
                all_zero(cells@),
            decreases size - i,
        {
            cells.push(Some(0u8));
            i = i + 1;
        }
        Region { addr, cells }
    }

    /// Number of cells.
    pub fn len(&self) -> (n: usize)
        ensures
            n == self@.len(),
    {
        self.cells.len()
    }

    /// The address token, as a value.
    pub fn address(&self) -> (a: usize)
        ensures
            a == self.addr(),
    {
        self.addr
    }

    /// Whether cell `i` holds a definite value.
    pub fn is_init(&self, i: usize) -> (r: bool)
        requires
            i < self@.len(),
        ensures
            r == (self@[i as int] is Some),
    {
        self.cells[i].is_some()
    }

    /// Writes one definite byte into cell `i`.
    pub fn write_byte(&mut self, i: usize, b: u8)
        requires
            i < old(self)@.len(),
        ensures
            final(self)@ == old(self)@.update(i as int, Some(b)),
            final(self).addr() == old(self).addr(),
    {
        self.cells.set(i, Some(b));
    }

    /// Reads the definite byte in cell `i`.
    pub fn read_byte(&self, i: usize) -> (b: u8)
        requires
            i < self@.len(),
            self@[i as int] is Some,
        ensures
            self@[i as int] == Some(b),
    {
        match self.cells[i] {
            Some(b) => b,
            None => unreached(),
        }
    }

    /// Returns cell `i` to the indeterminate state: whatever value stood
    /// there is no longer reachable through this region.
    pub fn deinit_byte(&mut self, i: usize)
        requires
            i < old(self)@.len(),
        ensures
            final(self)@ == old(self)@.update(i as int, None),
            final(self).addr() == old(self).addr(),
    {
        self.cells.set(i, None);
    }

    /// Bitwise-or of all bytes of a fully defined region.
    pub fn or_fold(&self) -> (r: u8)
        requires
            all_init(self@),
        ensures
            r == or_fold_spec(self@),
    {
        let mut acc: u8 = 0;
        let mut i: usize = 0;
        while i < self.cells.len()
            invariant
                all_init(self@),
                i <= self@.len(),
                acc == or_fold_spec(self@.take(i as int)),
            decreases self@.len() - i,
        {
            let b = self.read_byte(i);
            proof {
                assert(self@.take(i + 1).drop_last() =~= self@.take(i as int));
                assert(self@.take(i + 1).last() == self@[i as int]);
            }
            acc = acc | b;
            i = i + 1;
        }
        proof {
            assert(self@.take(self@.len() as int) =~= self@);
        }
        acc
    }
}

/// A fully defined run of cells folds to zero exactly when every cell
/// holds the byte zero.
pub proof fn lemma_or_fold_zero(s: Seq<Option<u8>>)
    requires
        all_init(s),
    ensures
        or_fold_spec(s) == 0 <==> all_zero(s),
    decreases s.len(),
{
    if s.len() > 0 {
        lemma_or_fold_zero(s.drop_last());
        let a = or_fold_spec(s.drop_last());
        let b = s.last()->Some_0;
        assert((a | b) == 0 <==> (a == 0 && b == 0)) by (bit_vector);
        if or_fold_spec(s) == 0 {
            assert forall|i: int| 0 <= i < s.len() implies s[i] == Some(0u8) by {
                if i < s.len() - 1 {
                    assert(s.drop_last()[i] == s[i]);
                }
            }
        } else {
            if all_zero(s) {
                assert forall|i: int| 0 <= i < s.drop_last().len() implies s.drop_last()[i]
                    == Some(0u8) by {
                    assert(s.drop_last()[i] == s[i]);
                }
                assert(s.last() == Some(0u8));
            }
        }
    }
}

} // verus!
