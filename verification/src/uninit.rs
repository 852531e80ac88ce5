//! Field-wise operations on a region under construction.
//!
//! A projected mirror addresses each field of an aggregate as a byte
//! span of the backing region. A wrapped (not-yet-valid) field accepts
//! either a direct overwrite of its bytes or a zero-fill of its bytes;
//! nothing here reads a byte, so projection and field writes are safe on
//! a region that holds no valid value yet.

use crate::mirror::StructDef;
use vstd::prelude::*;

verus! {

/// A byte span within a region: `size` bytes starting at `off`.
#[derive(Clone, Copy, PartialEq, Eq, Structural, Debug)]
pub struct Span {
    /// Offset of the first byte, from the region's start.
    pub off: usize,
    /// Number of bytes.
    pub size: usize,
}

impl Span {
    /// Whether the span lies within a region of `n` cells.
    pub open spec fn in_bounds(self, n: int) -> bool {
        self.off + self.size <= n
    }

    /// Whether cell `i` belongs to the span.
    pub open spec fn contains(self, i: int) -> bool {
        self.off <= i < self.off + self.size
    }

    /// Whether the two spans share no cell.
    pub open spec fn disjoint(self, other: Span) -> bool {
        self.off + self.size <= other.off || other.off + other.size <= self.off
    }
}

/// The cells of `s` covered by `sp`.
pub open spec fn extract(s: Seq<Option<u8>>, sp: Span) -> Seq<Option<u8>>
    recommends
        sp.in_bounds(s.len() as int),
{
    s.subrange(sp.off as int, sp.off + sp.size)
}

/// The cell sequence after one field write: the cells under `sp` hold
/// `val`, every other cell is unchanged.
pub open spec fn write_field_spec(s: Seq<Option<u8>>, sp: Span, val: Seq<u8>) -> Seq<Option<u8>>
    recommends
        sp.in_bounds(s.len() as int),
        val.len() == sp.size,
{
    Seq::new(
        s.len(),
        |i: int|
            if sp.contains(i) {
                Some(val[i - sp.off])
            } else {
                s[i]
            },
    )
}

/// Overwrites the bytes of one wrapped field with `src`, leaving every
/// cell outside the field untouched.
pub fn overwrite(this: &mut crate::region::Region, field: Span, src: &Vec<u8>)
    requires
        field.in_bounds(old(this)@.len() as int),
        src@.len() == field.size,
    ensures
        final(this)@ == write_field_spec(old(this)@, field, src@),
        final(this).addr() == old(this).addr(),
{
    let n = this.len();
    let mut i: usize = 0;
    while i < field.size
        invariant
            field.in_bounds(this@.len() as int),
            src@.len() == field.size,
            i <= field.size,
            n == this@.len(),
            this.addr() == old(this).addr(),
            this@.len() == old(this)@.len(),
            forall|j: int|
                0 <= j < this@.len() && field.off <= j < field.off + i ==> this@[j] == Some(
                    src@[j - field.off],
                ),
            forall|j: int|
                0 <= j < this@.len() && !(field.off <= j < field.off + i) ==> this@[j] == old(
                    this,
                )@[j],
        decreases field.size - i,
    {
        this.write_byte(field.off + i, src[i]);
        i = i + 1;
    }
    proof {
        assert(this@ =~= write_field_spec(old(this)@, field, src@));
    }
}

/// Zero-fills the bytes of one wrapped field, leaving every cell outside
/// the field untouched.
pub fn memset_zeroed(this: &mut crate::region::Region, field: Span)
    requires
        field.in_bounds(old(this)@.len() as int),
    ensures
        final(this)@ == write_field_spec(old(this)@, field, Seq::new(field.size as nat, |i: int| 0u8)),
        final(this).addr() == old(this).addr(),
{
    let n = this.len();
    let mut i: usize = 0;
    while i < field.size
        invariant
            field.in_bounds(this@.len() as int),
            i <= field.size,
            n == this@.len(),
            this.addr() == old(this).addr(),
            this@.len() == old(this)@.len(),
            forall|j: int|
                0 <= j < this@.len() && field.off <= j < field.off + i ==> this@[j] == Some(0u8),
            forall|j: int|
                0 <= j < this@.len() && !(field.off <= j < field.off + i) ==> this@[j] == old(
                    this,
                )@[j],
        decreases field.size - i,
    {
        this.write_byte(field.off + i, 0u8);
        i = i + 1;
    }
    proof {
        assert(this@ =~= write_field_spec(
            old(this)@,
            field,
            Seq::new(field.size as nat, |i: int| 0u8),
        ));
    }
}

/// The cells a fully written field shows: each byte of `val`, defined.
pub open spec fn as_written(val: Seq<u8>) -> Seq<Option<u8>> {
    Seq::new(val.len(), |i: int| Some(val[i]))
}

/// Whether every span lies inside a region of `n` cells and no two
/// spans share a cell.
pub open spec fn spans_wf(spans: Seq<Span>, n: int) -> bool {
    &&& forall|i: int| 0 <= i < spans.len() ==> (#[trigger] spans[i]).in_bounds(n)
    &&& forall|i: int, j: int|
        0 <= i < spans.len() && 0 <= j < spans.len() && i != j ==> (#[trigger] spans[i]).disjoint(
            #[trigger] spans[j],
        )
}

/// Whether each recorded write names an existing field and carries
/// exactly that field's number of bytes.
pub open spec fn writes_valid(spans: Seq<Span>, ws: Seq<(int, Seq<u8>)>) -> bool {
    forall|w: int|
        0 <= w < ws.len() ==> 0 <= (#[trigger] ws[w]).0 < spans.len() && ws[w].1.len()
            == spans[ws[w].0].size
}

/// The cell sequence after performing the recorded field writes in
/// order, each as one `overwrite` of its field's span.
pub open spec fn apply_writes(
    s: Seq<Option<u8>>,
    spans: Seq<Span>,
    ws: Seq<(int, Seq<u8>)>,
) -> Seq<Option<u8>>
    decreases ws.len(),
{
    if ws.len() == 0 {
        s
    } else {
        write_field_spec(
            apply_writes(s, spans, ws.drop_last()),
            spans[ws.last().0],
            ws.last().1,
        )
    }
}

/// Whether the recorded writes touch field `j` at all.
pub open spec fn writes_field(ws: Seq<(int, Seq<u8>)>, j: int) -> bool {
    exists|w: int| 0 <= w < ws.len() && (#[trigger] ws[w]).0 == j
}

/// The bytes of the last recorded write to field `j`.
pub open spec fn last_write(ws: Seq<(int, Seq<u8>)>, j: int) -> Seq<u8>
    recommends
        writes_field(ws, j),
    decreases ws.len(),
{
    if ws.len() == 0 {
        Seq::empty()
    } else if ws.last().0 == j {
        ws.last().1
    } else {
        last_write(ws.drop_last(), j)
    }
}

/// After any sequence of field writes, each written field holds exactly
/// the bytes of its last write, and each untouched field still holds
/// its starting cells — whatever order the writes came in.
pub proof fn lemma_apply_writes(s: Seq<Option<u8>>, spans: Seq<Span>, ws: Seq<(int, Seq<u8>)>)
    requires
        spans_wf(spans, s.len() as int),
        writes_valid(spans, ws),
    ensures
        apply_writes(s, spans, ws).len() == s.len(),
        forall|j: int|
            0 <= j < spans.len() && writes_field(ws, j) ==> extract(
                apply_writes(s, spans, ws),
                #[trigger] spans[j],
            ) == as_written(last_write(ws, j)),
        forall|j: int|
            0 <= j < spans.len() && !writes_field(ws, j) ==> extract(
                apply_writes(s, spans, ws),
                #[trigger] spans[j],
            ) == extract(s, spans[j]),
    decreases ws.len(),
{
    if ws.len() > 0 {
        let prev = apply_writes(s, spans, ws.drop_last());
        let j0 = ws.last().0;
        let val = ws.last().1;
        assert(writes_valid(spans, ws.drop_last())) by {
            assert(forall|w: int|
                0 <= w < ws.len() - 1 ==> ws.drop_last()[w] == ws[w]);
        }
        lemma_apply_writes(s, spans, ws.drop_last());
        let cur = apply_writes(s, spans, ws);
        assert(ws[ws.len() - 1] == ws.last());
        assert(cur == write_field_spec(prev, spans[j0], val));
        assert forall|j: int| 0 <= j < spans.len() implies extract(cur, #[trigger] spans[j]) == (
            if writes_field(ws, j) {
                as_written(last_write(ws, j))
            } else {
                extract(s, spans[j])
            }
        ) by {
            if j == j0 {
                assert(writes_field(ws, j));
                assert(last_write(ws, j) == val);
                assert(extract(cur, spans[j]) =~= as_written(val));
            } else {
                assert(spans[j].disjoint(spans[j0]));
                assert(extract(cur, spans[j]) =~= extract(prev, spans[j]));
                if writes_field(ws, j) {
                    let w = choose|w: int| 0 <= w < ws.len() && (#[trigger] ws[w]).0 == j;
                    assert(w < ws.len() - 1);
                    assert(ws.drop_last()[w] == ws[w]);
                    assert(writes_field(ws.drop_last(), j));
                    assert(last_write(ws, j) == last_write(ws.drop_last(), j));
                } else {
                    assert(!writes_field(ws.drop_last(), j)) by {
                        assert(forall|w: int|
                            0 <= w < ws.len() - 1 ==> ws.drop_last()[w] == ws[w]);
                    }
                }
            }
        }
    }
}

/// Law: byte-for-byte equivalence of placement and direct construction.
/// Two constructions that write every field — in any order, starting
/// from any cells, as long as each field's last write carries the same
/// bytes — end with identical bytes in every field.
pub proof fn lemma_placement_equivalence(
    s1: Seq<Option<u8>>,
    ws1: Seq<(int, Seq<u8>)>,
    s2: Seq<Option<u8>>,
    ws2: Seq<(int, Seq<u8>)>,
    spans: Seq<Span>,
)
    requires
        s1.len() == s2.len(),
        spans_wf(spans, s1.len() as int),
        writes_valid(spans, ws1),
        writes_valid(spans, ws2),
        forall|j: int| 0 <= j < spans.len() ==> writes_field(ws1, j) && writes_field(ws2, j),
        forall|j: int|
            0 <= j < spans.len() ==> last_write(ws1, j) == #[trigger] last_write(ws2, j),
    ensures
        forall|j: int|
            0 <= j < spans.len() ==> extract(apply_writes(s1, spans, ws1), #[trigger] spans[j])
                == extract(apply_writes(s2, spans, ws2), spans[j]),
{
    lemma_apply_writes(s1, spans, ws1);
    lemma_apply_writes(s2, spans, ws2);
}

/// A type that declares a fixed, defined field layout (field order and
/// placement are part of the declaration, not chosen by the compiler),
/// and can therefore be projected to a layout-identical mirror whose
/// fields are not yet guaranteed to hold valid values.
pub trait UninitProject: Sized {
    /// The declared field layout of `Self`: it opts into a fixed
    /// layout, with well-formed field alignments.
    fn layout_decl() -> (d: StructDef)
        ensures
            d.well_declared(),
    ;
}

impl<T, const N: usize> UninitProject for [T; N] {
    /// An array's layout is always defined: `N` contiguous elements,
    /// each with the element type's own size and alignment.
    #[verifier::loop_isolation(false)]
    fn layout_decl() -> (d: StructDef)
        ensures
            d.fields@.len() == N,
            forall|i: int|
                0 <= i < N ==> (#[trigger] d.fields@[i]).layout.size == vstd::layout::size_of::<
                    T,
                >() && d.fields@[i].layout.align == vstd::layout::align_of::<T>(),
    {
        proof {
            broadcast use vstd::layout::align_properties;

            crate::layout::lemma_pow2_agrees(vstd::layout::align_of::<T>() as int);
        }
        let sz = core::mem::size_of::<T>();
        let al = core::mem::align_of::<T>();
        let mut fields: Vec<crate::mirror::FieldDef> = Vec::new();
        let mut i: usize = 0;
        while i < N
            invariant
                i <= N,
                fields@.len() == i,
                crate::mirror::fields_wf(fields@),
                forall|k: int|
                    0 <= k < i ==> (#[trigger] fields@[k]).layout.size == sz
                        && fields@[k].layout.align == al,
            decreases N - i,
        {
            fields.push(
                crate::mirror::FieldDef {
                    layout: crate::layout::LayoutDesc { size: sz, align: al },
                    wrapped: false,
                },
            );
            i = i + 1;
        }
        StructDef { fixed_layout: true, fields }
    }
}

} // verus!
