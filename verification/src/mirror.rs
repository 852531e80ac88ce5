//! The mirror model: declarations of aggregates with a defined layout,
//! the fixed field-placement computation, and the structural
//! transformation that emits a layout-identical mirror for a struct or
//! an enum declaration.
//!
//! A declaration records, for each field, the layout of its type and
//! whether the field is already wrapped as "not yet guaranteed to hold a
//! valid value". Wrapping never changes a field's size or alignment, so
//! a mirror occupies exactly the bytes of its original; that equivalence
//! is the load-bearing contract that makes reinterpreting a region
//! between the original and the mirror sound, and it is proved here.

use crate::layout::{
    align_up, align_up_spec, is_power_of_two, is_power_of_two_exec, lemma_align_up,
    lemma_pow2_positive, LayoutDesc, LayoutError,
};
use crate::region::Region;
use crate::uninit::Span;
use vstd::prelude::*;

verus! {

/// A declared field: the layout of its type, and whether the field is
/// wrapped as not-yet-guaranteed-valid.
#[derive(Clone, Copy, PartialEq, Eq, Structural, Debug)]
pub struct FieldDef {
    /// Size and alignment of the field's type.
    pub layout: LayoutDesc,
    /// Whether the field is wrapped as not yet holding a valid value.
    pub wrapped: bool,
}

/// A struct declaration: whether it opts into a fixed, defined field
/// order and placement, and its fields in declaration order.
#[derive(Clone, Debug)]
pub struct StructDef {
    /// Whether the declaration fixes its layout (field order and
    /// placement are defined, not compiler-chosen).
    pub fixed_layout: bool,
    /// The fields, in declaration order.
    pub fields: Vec<FieldDef>,
}

/// One variant of an enum declaration: its payload fields.
#[derive(Clone, Debug)]
pub struct VariantDef {
    /// The payload fields, in declaration order.
    pub fields: Vec<FieldDef>,
}

/// An enum declaration: fixed-layout flag, discriminant layout, and the
/// variants in declaration order.
#[derive(Clone, Debug)]
pub struct EnumDef {
    /// Whether the declaration fixes its layout.
    pub fixed_layout: bool,
    /// Layout of the discriminant tag.
    pub tag: LayoutDesc,
    /// The variants, in declaration order.
    pub variants: Vec<VariantDef>,
}

/// An aggregate declaration handed to the mirror generator.
pub enum TypeDef {
    /// A struct declaration.
    Struct(StructDef),
    /// An enum declaration.
    Enum(EnumDef),
    /// A union-shaped declaration; mirrors are never generated for it.
    Union(StructDef),
}

impl StructDef {
    /// Whether the declaration fixes its layout and every field's
    /// alignment is well-formed: what a type must declare before any
    /// projection question arises.
    pub open spec fn well_declared(self) -> bool {
        &&& self.fixed_layout
        &&& fields_wf(self.fields@)
    }

    /// Whether a mirror can be generated for the declaration: it fixes
    /// its layout, declares at least one field, and its placement is
    /// well-formed and fits the address space.
    pub open spec fn projectable(self) -> bool {
        &&& self.fixed_layout
        &&& self.fields@.len() > 0
        &&& fields_wf(self.fields@)
        &&& struct_size_spec(self.fields@) <= usize::MAX
    }
}

/// Whether every field's alignment is a power of two.
pub open spec fn fields_wf(fields: Seq<FieldDef>) -> bool {
    forall|i: int| 0 <= i < fields.len() ==> is_power_of_two((#[trigger] fields[i]).layout.align as int)
}

/// Alignment of an aggregate with these fields: the largest field
/// alignment, or one if there is no field.
pub open spec fn struct_align_spec(fields: Seq<FieldDef>) -> int
    decreases fields.len(),
{
    if fields.len() == 0 {
        1
    } else {
        let rest = struct_align_spec(fields.drop_last());
        let a = fields.last().layout.align as int;
        if a >= rest {
            a
        } else {
            rest
        }
    }
}

/// Offset of field `i` under fixed placement: fields are laid out in
/// declaration order, each at the next suitably aligned offset.
pub open spec fn field_offset_spec(fields: Seq<FieldDef>, i: int) -> int
    recommends
        0 <= i < fields.len(),
    decreases i,
{
    if i <= 0 {
        0
    } else {
        align_up_spec(
            field_offset_spec(fields, i - 1) + fields[i - 1].layout.size,
            fields[i].layout.align as int,
        )
    }
}

/// One past the last byte of the last field.
pub open spec fn fields_end_spec(fields: Seq<FieldDef>) -> int {
    if fields.len() == 0 {
        0
    } else {
        field_offset_spec(fields, fields.len() - 1) + fields.last().layout.size
    }
}

/// Total size of an aggregate with these fields: the end of the last
/// field, rounded up to the aggregate alignment.
pub open spec fn struct_size_spec(fields: Seq<FieldDef>) -> int {
    align_up_spec(fields_end_spec(fields), struct_align_spec(fields))
}

/// The aggregate alignment is a positive power of two.
pub proof fn lemma_struct_align_pow2(fields: Seq<FieldDef>)
    requires
        fields_wf(fields),
    ensures
        is_power_of_two(struct_align_spec(fields)),
        struct_align_spec(fields) >= 1,
    decreases fields.len(),
{
    if fields.len() > 0 {
        assert(fields_wf(fields.drop_last())) by {
            assert(forall|i: int|
                0 <= i < fields.len() - 1 ==> fields.drop_last()[i] == fields[i]);
        }
        lemma_struct_align_pow2(fields.drop_last());
        assert(fields[fields.len() - 1] == fields.last());
    }
}

/// Field offsets are non-negative.
pub proof fn lemma_field_offset_nonneg(fields: Seq<FieldDef>, i: int)
    requires
        fields_wf(fields),
        0 <= i < fields.len(),
    ensures
        field_offset_spec(fields, i) >= 0,
    decreases i,
{
    if i > 0 {
        lemma_field_offset_nonneg(fields, i - 1);
        lemma_pow2_positive(fields[i].layout.align as int);
        lemma_align_up(
            field_offset_spec(fields, i - 1) + fields[i - 1].layout.size,
            fields[i].layout.align as int,
        );
    }
}

/// Each field starts at or after the end of the one before it.
pub proof fn lemma_offset_step(fields: Seq<FieldDef>, i: int)
    requires
        fields_wf(fields),
        1 <= i < fields.len(),
    ensures
        field_offset_spec(fields, i) >= field_offset_spec(fields, i - 1) + fields[i
            - 1].layout.size,
{
    lemma_field_offset_nonneg(fields, i - 1);
    lemma_pow2_positive(fields[i].layout.align as int);
    lemma_align_up(
        field_offset_spec(fields, i - 1) + fields[i - 1].layout.size,
        fields[i].layout.align as int,
    );
}

/// Fields declared earlier end at or before fields declared later
/// begin: fixed placement never overlaps two fields.
pub proof fn lemma_offsets_separated(fields: Seq<FieldDef>, i: int, j: int)
    requires
        fields_wf(fields),
        0 <= i < j < fields.len(),
    ensures
        field_offset_spec(fields, i) + fields[i].layout.size <= field_offset_spec(fields, j),
    decreases j - i,
{
    lemma_offset_step(fields, j);
    if i < j - 1 {
        lemma_offsets_separated(fields, i, j - 1);
    }
}

/// Every field lies within the aggregate: its bytes end at or before
/// the end of the last field, which the total size covers.
pub proof fn lemma_field_bound(fields: Seq<FieldDef>, i: int)
    requires
        fields_wf(fields),
        0 <= i < fields.len(),
    ensures
        field_offset_spec(fields, i) + fields[i].layout.size <= fields_end_spec(fields),
        fields_end_spec(fields) <= struct_size_spec(fields),
        field_offset_spec(fields, i) >= 0,
{
    lemma_field_offset_nonneg(fields, i);
    if i < fields.len() - 1 {
        lemma_offsets_separated(fields, i, fields.len() - 1);
        lemma_field_offset_nonneg(fields, fields.len() - 1);
    }
    lemma_struct_align_pow2(fields);
    lemma_field_offset_nonneg(fields, fields.len() - 1);
    lemma_align_up(fields_end_spec(fields), struct_align_spec(fields));
}

/// Maximum payload size over the variants.
pub open spec fn variants_payload_size_spec(vs: Seq<VariantDef>) -> int
    decreases vs.len(),
{
    if vs.len() == 0 {
        0
    } else {
        let rest = variants_payload_size_spec(vs.drop_last());
        let s = struct_size_spec(vs.last().fields@);
        if s >= rest {
            s
        } else {
            rest
        }
    }
}

/// Maximum payload alignment over the variants, or one.
pub open spec fn variants_align_spec(vs: Seq<VariantDef>) -> int
    decreases vs.len(),
{
    if vs.len() == 0 {
        1
    } else {
        let rest = variants_align_spec(vs.drop_last());
        let a = struct_align_spec(vs.last().fields@);
        if a >= rest {
            a
        } else {
            rest
        }
    }
}

/// Alignment of the whole enum: the larger of the tag alignment and
/// every variant's payload alignment.
pub open spec fn enum_align_spec(e: EnumDef) -> int {
    let va = variants_align_spec(e.variants@);
    if e.tag.align as int >= va {
        e.tag.align as int
    } else {
        va
    }
}

/// Size of the whole enum: the tag, then the largest payload, rounded
/// up to the enum alignment. The payload area begins directly after the
/// tag: the raw region splits at the discriminant's size.
pub open spec fn enum_size_spec(e: EnumDef) -> int {
    align_up_spec(e.tag.size + variants_payload_size_spec(e.variants@), enum_align_spec(e))
}

impl EnumDef {
    /// Whether a mirror can be generated for the declaration: it fixes
    /// its layout, declares at least one variant, and tag and fields
    /// have a well-formed placement that fits the address space.
    pub open spec fn projectable(self) -> bool {
        &&& self.fixed_layout
        &&& self.variants@.len() > 0
        &&& is_power_of_two(self.tag.align as int)
        &&& forall|v: int|
            0 <= v < self.variants@.len() ==> fields_wf((#[trigger] self.variants@[v]).fields@)
        &&& enum_size_spec(self) <= usize::MAX
    }
}

/// Computes the fixed placement of `fields`: the byte span of each
/// field, and the total layout. Fails exactly on a degenerate
/// declaration: a field alignment that is not a power of two, or a
/// total size beyond the address space.
pub fn layout_of_fields(fields: &Vec<FieldDef>) -> (r: Result<(Vec<Span>, LayoutDesc), LayoutError>)
    ensures
        r matches Ok((spans, l)) ==> {
            &&& spans@.len() == fields@.len()
            &&& forall|i: int|
                0 <= i < fields@.len() ==> (#[trigger] spans@[i]).off == field_offset_spec(
                    fields@,
                    i,
                ) && spans@[i].size == fields@[i].layout.size
            &&& l.size == struct_size_spec(fields@)
            &&& l.align == struct_align_spec(fields@)
            &&& l.valid()
        },
        r is Ok <==> fields_wf(fields@) && struct_size_spec(fields@) <= usize::MAX,
        r matches Err(e) ==> (e == LayoutError::BadAlign <==> !fields_wf(fields@)),
{
    let n = fields.len();
    let mut align: usize = 1;
    let mut i: usize = 0;
    while i < n
        invariant
            n == fields@.len(),
            i <= n,
            align == struct_align_spec(fields@.take(i as int)),
            fields_wf(fields@.take(i as int)),
            align >= 1,
        decreases n - i,
    {
        let a = fields[i].layout.align;
        if !is_power_of_two_exec(a) {
            proof {
                assert(fields@[i as int].layout.align == a);
            }
            return Err(LayoutError::BadAlign);
        }
        proof {
            assert(fields@.take(i + 1).drop_last() =~= fields@.take(i as int));
            assert(fields@.take(i + 1).last() == fields@[i as int]);
            assert(forall|k: int|
                0 <= k < i + 1 ==> fields@.take(i + 1)[k] == fields@[k]);
        }
        if a >= align {
            align = a;
        }
        i = i + 1;
    }
    proof {
        assert(fields@.take(n as int) =~= fields@);
    }

    let mut spans: Vec<Span> = Vec::new();
    let mut end: usize = 0;
    let mut i: usize = 0;
    while i < n
        invariant
            n == fields@.len(),
            fields_wf(fields@),
            i <= n,
            spans@.len() == i,
            forall|k: int|
                0 <= k < i ==> (#[trigger] spans@[k]).off == field_offset_spec(fields@, k)
                    && spans@[k].size == fields@[k].layout.size,
            end as int == if i == 0 {
                0int
            } else {
                field_offset_spec(fields@, i - 1) + fields@[i - 1].layout.size
            },
            align as int == struct_align_spec(fields@),
        decreases n - i,
    {
        let a = fields[i].layout.align;
        proof {
            lemma_pow2_positive(a as int);
            lemma_field_bound(fields@, i as int);
            if i > 0 {
                lemma_offset_step(fields@, i as int);
            }
        }
        let off = match align_up(end, a) {
            Ok(v) => v,
            Err(_) => {
                proof {
                    // unreachable: the rounded offset fits below the total size
                    lemma_align_up(end as int, a as int);
                }
                return Err(LayoutError::Oversize);
            }
        };
        proof {
            assert(off as int == field_offset_spec(fields@, i as int));
        }
        let sz = fields[i].layout.size;
        let new_end = match off.checked_add(sz) {
            Some(v) => v,
            None => {
                proof {
                    lemma_field_bound(fields@, i as int);
                }
                return Err(LayoutError::Oversize);
            }
        };
        spans.push(Span { off, size: sz });
        end = new_end;
        i = i + 1;
    }
    proof {
        lemma_struct_align_pow2(fields@);
        if n == 0 {
        } else {
            lemma_field_bound(fields@, n - 1);
        }
        lemma_align_up(end as int, align as int);
    }
    match align_up(end, align) {
        Ok(size) => {
            proof {
                lemma_align_up(size as int, align as int);
            }
            Ok((spans, LayoutDesc { size, align }))
        }
        Err(_) => Err(LayoutError::Oversize),
    }
}

/// What the generator emits for a struct declaration: the mirror
/// declaration (same fields in number, order, size and alignment, each
/// wrapped as not-yet-valid), and the placement projection uses.
#[derive(Clone, Debug)]
pub struct StructMirror {
    /// The mirror declaration itself.
    pub def: StructDef,
    /// Byte span of each mirror field within the backing region.
    pub spans: Vec<Span>,
    /// Size and alignment of the whole mirror aggregate.
    pub layout: LayoutDesc,
}

/// What the generator emits for an enum declaration: the discriminant
/// layout of the tag-only shadow enum, and one payload mirror struct
/// per variant, with spans placed after the tag within the backing
/// region.
#[derive(Clone, Debug)]
pub struct EnumMirror {
    /// Layout of the discriminant-only shadow enum.
    pub tag: LayoutDesc,
    /// One payload mirror per variant, in declaration order.
    pub variants: Vec<StructMirror>,
    /// Size and alignment of the whole enum.
    pub layout: LayoutDesc,
}

/// The generator's output for an accepted declaration.
#[derive(Clone, Debug)]
pub enum MirrorDef {
    /// Mirror of a struct declaration.
    Struct(StructMirror),
    /// Mirror of an enum declaration.
    Enum(EnumMirror),
}

/// A declaration the generator rejects, reported as a diagnostic at
/// generation time; none of these conditions can surface later at run
/// time.
#[derive(Clone, Copy, PartialEq, Eq, Structural, Debug)]
pub enum ProjectError {
    /// The declaration does not fix its layout.
    NotFixedLayout,
    /// The declaration is union-shaped.
    UnsupportedShape,
    /// The declaration has no fields, or no variants.
    EmptyDecl,
    /// The declared layout is degenerate.
    Degenerate(LayoutError),
}

/// The mirror field list for `orig`: same length, each field's layout
/// unchanged, each field wrapped.
pub open spec fn wrapped_fields(orig: Seq<FieldDef>, m: Seq<FieldDef>) -> bool {
    &&& m.len() == orig.len()
    &&& forall|i: int|
        0 <= i < orig.len() ==> (#[trigger] m[i]).layout == orig[i].layout && m[i].wrapped
}

/// What `uninit_project` guarantees of a struct mirror.
pub open spec fn mirror_matches_struct(m: StructMirror, s: StructDef) -> bool {
    &&& m.def.fixed_layout
    &&& wrapped_fields(s.fields@, m.def.fields@)
    &&& m.spans@.len() == s.fields@.len()
    &&& forall|i: int|
        0 <= i < s.fields@.len() ==> (#[trigger] m.spans@[i]).off == field_offset_spec(
            s.fields@,
            i,
        ) && m.spans@[i].size == s.fields@[i].layout.size
    &&& m.layout.size == struct_size_spec(s.fields@)
    &&& m.layout.align == struct_align_spec(s.fields@)
    &&& m.layout.valid()
}

/// What `uninit_project` guarantees of one variant's payload mirror:
/// the payload fields sit after the tag, at their fixed placement
/// within the payload area.
pub open spec fn mirror_matches_variant(m: StructMirror, v: VariantDef, tag_size: int) -> bool {
    &&& m.def.fixed_layout
    &&& wrapped_fields(v.fields@, m.def.fields@)
    &&& m.spans@.len() == v.fields@.len()
    &&& forall|i: int|
        0 <= i < v.fields@.len() ==> (#[trigger] m.spans@[i]).off == tag_size + field_offset_spec(
            v.fields@,
            i,
        ) && m.spans@[i].size == v.fields@[i].layout.size
    &&& m.layout.size == struct_size_spec(v.fields@)
    &&& m.layout.align == struct_align_spec(v.fields@)
}

/// What `uninit_project` guarantees of an enum mirror.
pub open spec fn mirror_matches_enum(m: EnumMirror, e: EnumDef) -> bool {
    &&& m.tag == e.tag
    &&& m.variants@.len() == e.variants@.len()
    &&& forall|v: int|
        0 <= v < e.variants@.len() ==> mirror_matches_variant(
            #[trigger] m.variants@[v],
            e.variants@[v],
            e.tag.size as int,
        )
    &&& m.layout.size == enum_size_spec(e)
    &&& m.layout.align == enum_align_spec(e)
    &&& m.layout.valid()
}

/// The diagnostic a rejected struct declaration receives.
pub open spec fn struct_err_spec(s: StructDef) -> ProjectError {
    if !s.fixed_layout {
        ProjectError::NotFixedLayout
    } else if s.fields@.len() == 0 {
        ProjectError::EmptyDecl
    } else if !fields_wf(s.fields@) {
        ProjectError::Degenerate(LayoutError::BadAlign)
    } else {
        ProjectError::Degenerate(LayoutError::Oversize)
    }
}

/// The diagnostic a rejected enum declaration receives.
pub open spec fn enum_err_spec(e: EnumDef) -> ProjectError {
    if !e.fixed_layout {
        ProjectError::NotFixedLayout
    } else if e.variants@.len() == 0 {
        ProjectError::EmptyDecl
    } else if !is_power_of_two(e.tag.align as int) || exists|v: int|
        0 <= v < e.variants@.len() && !fields_wf((#[trigger] e.variants@[v]).fields@) {
        ProjectError::Degenerate(LayoutError::BadAlign)
    } else {
        ProjectError::Degenerate(LayoutError::Oversize)
    }
}

/// Wraps every field as not-yet-valid, leaving its layout untouched.
pub fn project_fields(fields: &Vec<FieldDef>) -> (m: Vec<FieldDef>)
    ensures
        wrapped_fields(fields@, m@),
{
    let mut out: Vec<FieldDef> = Vec::new();
    let mut i: usize = 0;
    while i < fields.len()
        invariant
            i <= fields@.len(),
            out@.len() == i,
            forall|k: int|
                0 <= k < i ==> (#[trigger] out@[k]).layout == fields@[k].layout && out@[k].wrapped,
        decreases fields@.len() - i,
    {
        out.push(FieldDef { layout: fields[i].layout, wrapped: true });
        i = i + 1;
    }
    out
}

/// Clones `origin` and lets `f` rework the clone; the origin itself is
/// never modified.
pub fn clone_and_modify<T: Clone, F: FnOnce(T) -> T>(origin: &T, f: F) -> (r: T)
    requires
        forall|c: T| cloned::<T>(*origin, c) ==> call_requires(f, (c,)),
    ensures
        exists|c: T| cloned::<T>(*origin, c) && call_ensures(f, (c,), r),
{
    let c = origin.clone();
    proof {
        assert(call_ensures(T::clone, (origin,), c));
        assert(cloned::<T>(*origin, c));
    }
    f(c)
}

/// Whether every alignment in `fields` is a power of two.
fn fields_wf_exec(fields: &Vec<FieldDef>) -> (r: bool)
    ensures
        r == fields_wf(fields@),
{
    let mut i: usize = 0;
    while i < fields.len()
        invariant
            i <= fields@.len(),
            forall|k: int|
                0 <= k < i ==> is_power_of_two((#[trigger] fields@[k]).layout.align as int),
        decreases fields@.len() - i,
    {
        if !is_power_of_two_exec(fields[i].layout.align) {
            return false;
        }
        i = i + 1;
    }
    true
}

/// Each variant's payload size is at most the payload area size, which
/// is itself non-negative.
pub proof fn lemma_payload_size_bound(vs: Seq<VariantDef>, v: int)
    requires
        0 <= v < vs.len(),
        forall|k: int| 0 <= k < vs.len() ==> fields_wf((#[trigger] vs[k]).fields@),
    ensures
        struct_size_spec(vs[v].fields@) <= variants_payload_size_spec(vs),
        variants_payload_size_spec(vs) >= 0,
    decreases vs.len(),
{
    assert(forall|k: int|
        0 <= k < vs.len() - 1 ==> vs.drop_last()[k] == vs[k]);
    if vs.len() == 1 {
    } else if v < vs.len() - 1 {
        lemma_payload_size_bound(vs.drop_last(), v);
    } else {
        lemma_payload_size_bound(vs.drop_last(), 0);
    }
    let last = vs.last();
    assert(vs[vs.len() - 1] == last);
    if last.fields@.len() > 0 {
        lemma_field_bound(last.fields@, 0);
    } else {
        lemma_struct_align_pow2(last.fields@);
        lemma_align_up(0, struct_align_spec(last.fields@));
    }
}

/// The payload alignment over all variants is a positive power of two.
pub proof fn lemma_variants_align_pow2(vs: Seq<VariantDef>)
    requires
        forall|k: int| 0 <= k < vs.len() ==> fields_wf((#[trigger] vs[k]).fields@),
    ensures
        is_power_of_two(variants_align_spec(vs)),
        variants_align_spec(vs) >= 1,
    decreases vs.len(),
{
    if vs.len() > 0 {
        assert(forall|k: int|
            0 <= k < vs.len() - 1 ==> vs.drop_last()[k] == vs[k]);
        lemma_variants_align_pow2(vs.drop_last());
        assert(vs[vs.len() - 1] == vs.last());
        lemma_struct_align_pow2(vs.last().fields@);
    }
}

/// Generates the mirror of a struct declaration.
fn mirror_of_struct(s: &StructDef) -> (r: Result<StructMirror, ProjectError>)
    ensures
        r matches Ok(m) ==> mirror_matches_struct(m, *s),
        r is Ok <==> s.projectable(),
        r matches Err(e) ==> e == struct_err_spec(*s),
{
    if !s.fixed_layout {
        return Err(ProjectError::NotFixedLayout);
    }
    if s.fields.len() == 0 {
        return Err(ProjectError::EmptyDecl);
    }
    let wrapped = project_fields(&s.fields);
    match layout_of_fields(&s.fields) {
        Ok((spans, layout)) => Ok(
            StructMirror { def: StructDef { fixed_layout: true, fields: wrapped }, spans, layout },
        ),
        Err(le) => Err(ProjectError::Degenerate(le)),
    }
}

/// Generates the mirror of an enum declaration: the tag-only shadow
/// layout and one payload mirror per variant, placed after the tag.
#[verifier::loop_isolation(false)]
fn mirror_of_enum(e: &EnumDef) -> (r: Result<EnumMirror, ProjectError>)
    ensures
        r matches Ok(m) ==> mirror_matches_enum(m, *e),
        r is Ok <==> e.projectable(),
        r matches Err(er) ==> er == enum_err_spec(*e),
{
    let n = e.variants.len();
    if !e.fixed_layout {
        return Err(ProjectError::NotFixedLayout);
    }
    if n == 0 {
        return Err(ProjectError::EmptyDecl);
    }
    if !is_power_of_two_exec(e.tag.align) {
        return Err(ProjectError::Degenerate(LayoutError::BadAlign));
    }
    let mut v: usize = 0;
    while v < n
        invariant
            n == e.variants@.len(),
            v <= n,
            forall|k: int| 0 <= k < v ==> fields_wf((#[trigger] e.variants@[k]).fields@),
        decreases n - v,
    {
        if !fields_wf_exec(&e.variants[v].fields) {
            proof {
                assert(!fields_wf((e.variants@[v as int]).fields@));
            }
            return Err(ProjectError::Degenerate(LayoutError::BadAlign));
        }
        v = v + 1;
    }
    proof {
        assert(forall|k: int| 0 <= k < n ==> fields_wf((#[trigger] e.variants@[k]).fields@));
    }

    let mut payload: usize = 0;
    let mut valign: usize = 1;
    let mut rels: Vec<(Vec<Span>, LayoutDesc)> = Vec::new();
    let mut v: usize = 0;
    while v < n
        invariant
            n == e.variants@.len(),
            v <= n,
            forall|k: int| 0 <= k < n ==> fields_wf((#[trigger] e.variants@[k]).fields@),
            payload as int == variants_payload_size_spec(e.variants@.take(v as int)),
            valign as int == variants_align_spec(e.variants@.take(v as int)),
            rels@.len() == v,
            forall|k: int|
                0 <= k < v ==> {
                    let (spans, l) = #[trigger] rels@[k];
                    &&& spans@.len() == e.variants@[k].fields@.len()
                    &&& forall|i: int|
                        0 <= i < e.variants@[k].fields@.len() ==> (#[trigger] spans@[i]).off
                            == field_offset_spec(e.variants@[k].fields@, i) && spans@[i].size
                            == e.variants@[k].fields@[i].layout.size
                    &&& l.size == struct_size_spec(e.variants@[k].fields@)
                    &&& l.align == struct_align_spec(e.variants@[k].fields@)
                },
        decreases n - v,
    {
        match layout_of_fields(&e.variants[v].fields) {
            Ok((spans, l)) => {
                proof {
                    assert(e.variants@.take(v + 1).drop_last() =~= e.variants@.take(v as int));
                    assert(e.variants@.take(v + 1).last() == e.variants@[v as int]);
                }
                if l.size >= payload {
                    payload = l.size;
                }
                if l.align >= valign {
                    valign = l.align;
                }
                rels.push((spans, l));
            }
            Err(_) => {
                proof {
                    // only a size beyond the address space remains possible
                    // here, and the whole enum is at least that large
                    lemma_payload_size_bound(e.variants@, v as int);
                    lemma_variants_align_pow2(e.variants@);
                    lemma_pow2_positive(e.tag.align as int);
                    lemma_align_up(
                        e.tag.size + variants_payload_size_spec(e.variants@),
                        enum_align_spec(*e),
                    );
                }
                return Err(ProjectError::Degenerate(LayoutError::Oversize));
            }
        }
        v = v + 1;
    }
    proof {
        assert(e.variants@.take(n as int) =~= e.variants@);
        lemma_variants_align_pow2(e.variants@);
        lemma_pow2_positive(e.tag.align as int);
        lemma_align_up(
            e.tag.size + variants_payload_size_spec(e.variants@),
            enum_align_spec(*e),
        );
    }
    let ealign = if e.tag.align >= valign {
        e.tag.align
    } else {
        valign
    };
    let sum = match e.tag.size.checked_add(payload) {
        Some(x) => x,
        None => {
            return Err(ProjectError::Degenerate(LayoutError::Oversize));
        }
    };
    let total = match align_up(sum, ealign) {
        Ok(t) => t,
        Err(_) => {
            return Err(ProjectError::Degenerate(LayoutError::Oversize));
        }
    };
    proof {
        lemma_align_up(total as int, ealign as int);
    }

    let mut mirrors: Vec<StructMirror> = Vec::new();
    let mut v: usize = 0;
    while v < n
        invariant
            n == e.variants@.len(),
            v <= n,
            forall|k: int| 0 <= k < n ==> fields_wf((#[trigger] e.variants@[k]).fields@),
            sum as int == e.tag.size + variants_payload_size_spec(e.variants@),
            rels@.len() == n,
            forall|k: int|
                0 <= k < n ==> {
                    let (spans, l) = #[trigger] rels@[k];
                    &&& spans@.len() == e.variants@[k].fields@.len()
                    &&& forall|i: int|
                        0 <= i < e.variants@[k].fields@.len() ==> (#[trigger] spans@[i]).off
                            == field_offset_spec(e.variants@[k].fields@, i) && spans@[i].size
                            == e.variants@[k].fields@[i].layout.size
                    &&& l.size == struct_size_spec(e.variants@[k].fields@)
                    &&& l.align == struct_align_spec(e.variants@[k].fields@)
                },
            mirrors@.len() == v,
            forall|k: int|
                0 <= k < v ==> mirror_matches_variant(
                    #[trigger] mirrors@[k],
                    e.variants@[k],
                    e.tag.size as int,
                ),
        decreases n - v,
    {
        let pair = &rels[v];
        let vl = pair.1;
        let wrapped = project_fields(&e.variants[v].fields);
        let mut aspans: Vec<Span> = Vec::new();
        let m = pair.0.len();
        let mut j: usize = 0;
        while j < m
            invariant
                n == e.variants@.len(),
                v < n,
                forall|k: int| 0 <= k < n ==> fields_wf((#[trigger] e.variants@[k]).fields@),
                sum as int == e.tag.size + variants_payload_size_spec(e.variants@),
                rels@.len() == n,
                m == rels@[v as int].0@.len(),
                m == e.variants@[v as int].fields@.len(),
                forall|i: int|
                    0 <= i < m ==> (#[trigger] rels@[v as int].0@[i]).off == field_offset_spec(
                        e.variants@[v as int].fields@,
                        i,
                    ) && rels@[v as int].0@[i].size == e.variants@[v as int].fields@[i].layout.size,
                rels@[v as int].1.size == struct_size_spec(e.variants@[v as int].fields@),
                pair == rels@[v as int],
                j <= m,
                aspans@.len() == j,
                forall|i: int|
                    0 <= i < j ==> (#[trigger] aspans@[i]).off == e.tag.size + field_offset_spec(
                        e.variants@[v as int].fields@,
                        i,
                    ) && aspans@[i].size == e.variants@[v as int].fields@[i].layout.size,
            decreases m - j,
        {
            let rel = pair.0[j];
            proof {
                lemma_field_bound(e.variants@[v as int].fields@, j as int);
                lemma_payload_size_bound(e.variants@, v as int);
            }
            aspans.push(Span { off: e.tag.size + rel.off, size: rel.size });
            j = j + 1;
        }
        mirrors.push(
            StructMirror {
                def: StructDef { fixed_layout: true, fields: wrapped },
                spans: aspans,
                layout: vl,
            },
        );
        v = v + 1;
    }
    Ok(EnumMirror { tag: e.tag, variants: mirrors, layout: LayoutDesc { size: total, align: ealign } })
}

/// Generates the mirror of a declaration: for a struct, one mirror
/// struct with identical field order and placement; for an enum, the
/// tag-only shadow layout and one payload mirror per variant. Rejects a
/// declaration that does not fix its layout, a union shape, an empty
/// declaration, and a degenerate layout — always at generation time.
pub fn uninit_project(input: &TypeDef) -> (r: Result<MirrorDef, ProjectError>)
    ensures
        input matches TypeDef::Struct(s) ==> {
            &&& (r matches Ok(md) ==> md matches MirrorDef::Struct(m) && mirror_matches_struct(
                m,
                *s,
            ))
            &&& (r is Ok <==> s.projectable())
            &&& (r matches Err(er) ==> er == struct_err_spec(*s))
        },
        input matches TypeDef::Enum(e) ==> {
            &&& (r matches Ok(md) ==> md matches MirrorDef::Enum(m) && mirror_matches_enum(
                m,
                *e,
            ))
            &&& (r is Ok <==> e.projectable())
            &&& (r matches Err(er) ==> er == enum_err_spec(*e))
        },
        input is Union ==> r is Err && (r matches Err(er) ==> er == ProjectError::UnsupportedShape),
{
    match input {
        TypeDef::Struct(s) => match mirror_of_struct(s) {
            Ok(m) => Ok(MirrorDef::Struct(m)),
            Err(er) => Err(er),
        },
        TypeDef::Enum(e) => match mirror_of_enum(e) {
            Ok(m) => Ok(MirrorDef::Enum(m)),
            Err(er) => Err(er),
        },
        TypeDef::Union(_) => Err(ProjectError::UnsupportedShape),
    }
}

/// 256 to the power `k`: the number of tag values a `k`-byte
/// discriminant can denote.
pub open spec fn pow256(k: nat) -> int
    decreases k,
{
    if k == 0 {
        1
    } else {
        256 * pow256((k - 1) as nat)
    }
}

/// The little-endian byte encoding of tag value `v` in `k` bytes.
pub open spec fn tag_bytes_spec(v: nat, k: nat) -> Seq<u8>
    decreases k,
{
    if k == 0 {
        Seq::empty()
    } else {
        seq![(v % 256) as u8] + tag_bytes_spec(v / 256, (k - 1) as nat)
    }
}

/// The encoding has one byte per tag byte, and byte `j` holds the
/// `j`-th base-256 digit of the value.
pub proof fn lemma_tag_bytes_index(v: nat, k: nat, j: int)
    requires
        0 <= j < k,
    ensures
        tag_bytes_spec(v, k).len() == k,
        tag_bytes_spec(v, k)[j] == ((v as int / pow256(j as nat)) % 256) as u8,
    decreases k,
{
    lemma_tag_bytes_len(v, k);
    if j == 0 {
        assert(pow256(0) == 1);
        assert(v as int / 1 == v as int);
    } else {
        lemma_tag_bytes_index(v / 256, (k - 1) as nat, j - 1);
        assert(tag_bytes_spec(v, k)[j] == tag_bytes_spec(v / 256, (k - 1) as nat)[j - 1]);
        lemma_pow256_positive((j - 1) as nat);
        vstd::arithmetic::div_mod::lemma_div_denominator(v as int, 256, pow256((j - 1) as nat));
        assert(256 * pow256((j - 1) as nat) == pow256(j as nat));
    }
}

/// The encoding is `k` bytes long.
pub proof fn lemma_tag_bytes_len(v: nat, k: nat)
    ensures
        tag_bytes_spec(v, k).len() == k,
    decreases k,
{
    if k > 0 {
        lemma_tag_bytes_len(v / 256, (k - 1) as nat);
    }
}

/// The tag value a run of bytes denotes, read little-endian.
pub open spec fn tag_value_spec(s: Seq<u8>) -> int
    decreases s.len(),
{
    if s.len() == 0 {
        0
    } else {
        s[0] + 256 * tag_value_spec(s.subrange(1, s.len() as int))
    }
}

/// Law: an observer that reads the discriminant cells after a variant
/// projection sees exactly the variant that was projected — encoding a
/// representable tag value and reading it back round-trips.
pub proof fn lemma_tag_round_trip(v: nat, k: nat)
    requires
        (v as int) < pow256(k),
    ensures
        tag_value_spec(tag_bytes_spec(v, k)) == v,
    decreases k,
{
    if k == 0 {
        lemma_tag_bytes_len(v, k);
    } else {
        let rest = tag_bytes_spec(v / 256, (k - 1) as nat);
        lemma_tag_bytes_len(v, k);
        lemma_tag_bytes_len(v / 256, (k - 1) as nat);
        lemma_pow256_positive((k - 1) as nat);
        assert((v as int) / 256 < pow256((k - 1) as nat)) by {
            vstd::arithmetic::div_mod::lemma_multiply_divide_lt(
                v as int,
                256,
                pow256((k - 1) as nat),
            );
        }
        lemma_tag_round_trip(v / 256, (k - 1) as nat);
        let whole = tag_bytes_spec(v, k);
        assert(whole.subrange(1, whole.len() as int) =~= rest);
        assert(whole[0] == (v % 256) as u8);
        vstd::arithmetic::div_mod::lemma_fundamental_div_mod(v as int, 256);
    }
}

/// Powers of 256 are positive.
pub proof fn lemma_pow256_positive(k: nat)
    ensures
        pow256(k) >= 1,
    decreases k,
{
    if k > 0 {
        lemma_pow256_positive((k - 1) as nat);
    }
}

/// Splits the span of a tagged aggregate at the discriminant's size:
/// the leading tag sub-span, then the payload sub-span. The two parts
/// are disjoint and together cover the whole span exactly.
pub fn split_enum(whole: Span, tag_size: usize) -> (r: (Span, Span))
    requires
        tag_size <= whole.size,
        whole.off + whole.size <= usize::MAX,
    ensures
        r.0.off == whole.off && r.0.size == tag_size,
        r.1.off == whole.off + tag_size && r.1.size == whole.size - tag_size,
        r.0.disjoint(r.1),
        forall|i: int| whole.contains(i) <==> r.0.contains(i) || r.1.contains(i),
{
    let tag = Span { off: whole.off, size: tag_size };
    let payload = Span { off: whole.off + tag_size, size: whole.size - tag_size };
    (tag, payload)
}

/// Projects a not-yet-valid enum region to variant `v`: writes the tag
/// denoting `v` into the leading discriminant cells eagerly — before
/// any payload field is filled — and hands back the variant's payload
/// mirror, whose spans lie after the tag. Between this call and the
/// completion of the payload, the region shows a tag whose payload is
/// not yet valid: the caller must keep it under an enclosing rollback
/// guard so it cannot be observed or dropped in that state.
pub fn uninit_project_variant<'a>(region: &mut Region, m: &'a EnumMirror, v: usize) -> (pm:
    &'a StructMirror)
    requires
        v < m.variants@.len(),
        m.tag.size <= m.layout.size,
        old(region)@.len() == m.layout.size,
        (v as int) < pow256(m.tag.size as nat),
    ensures
        final(region)@.len() == old(region)@.len(),
        final(region).addr() == old(region).addr(),
        forall|i: int|
            0 <= i < m.tag.size ==> final(region)@[i] == Some(
                tag_bytes_spec(v as nat, m.tag.size as nat)[i],
            ),
        forall|i: int|
            m.tag.size <= i < old(region)@.len() ==> final(region)@[i] == old(region)@[i],
        *pm == m.variants@[v as int],
{
    let k = m.tag.size;
    let mut x: usize = v;
    let mut j: usize = 0;
    proof {
        lemma_tag_bytes_len(v as nat, k as nat);
        assert(pow256(0) == 1);
        assert(v as int / 1 == v as int);
    }
    while j < k
        invariant
            k == m.tag.size,
            k <= old(region)@.len(),
            j <= k,
            region@.len() == old(region)@.len(),
            region.addr() == old(region).addr(),
            x as int == v as int / pow256(j as nat),
            forall|i: int|
                0 <= i < j ==> region@[i] == Some(tag_bytes_spec(v as nat, k as nat)[i]),
            forall|i: int| j <= i < old(region)@.len() ==> region@[i] == old(region)@[i],
        decreases k - j,
    {
        proof {
            lemma_tag_bytes_index(v as nat, k as nat, j as int);
            lemma_pow256_positive(j as nat);
            vstd::arithmetic::div_mod::lemma_div_denominator(v as int, pow256(j as nat), 256);
            assert(pow256(j as nat) * 256 == pow256((j + 1) as nat));
        }
        let b: u8 = (x % 256) as u8;
        region.write_byte(j, b);
        x = x / 256;
        j = j + 1;
    }
    &m.variants[v]
}

/// Projects a nested aggregate: a wrapped field that is itself an
/// aggregate accepts the inner mirror's placement, re-addressed within
/// the field's own span. No byte is read or written. Every re-addressed
/// span stays inside the outer field.
pub fn project_nested(outer: Span, inner: &StructMirror) -> (r: Vec<Span>)
    requires
        inner.layout.size <= outer.size,
        outer.off + outer.size <= usize::MAX,
        forall|i: int|
            0 <= i < inner.spans@.len() ==> (#[trigger] inner.spans@[i]).in_bounds(
                inner.layout.size as int,
            ),
    ensures
        r@.len() == inner.spans@.len(),
        forall|i: int|
            0 <= i < r@.len() ==> (#[trigger] r@[i]).off == outer.off + inner.spans@[i].off
                && r@[i].size == inner.spans@[i].size,
        forall|i: int|
            0 <= i < r@.len() ==> outer.off <= (#[trigger] r@[i]).off && r@[i].off + r@[i].size
                <= outer.off + outer.size,
{
    let n = inner.spans.len();
    let mut out: Vec<Span> = Vec::new();
    let mut i: usize = 0;
    while i < n
        invariant
            n == inner.spans@.len(),
            inner.layout.size <= outer.size,
            outer.off + outer.size <= usize::MAX,
            forall|k: int|
                0 <= k < n ==> (#[trigger] inner.spans@[k]).in_bounds(inner.layout.size as int),
            i <= n,
            out@.len() == i,
            forall|k: int|
                0 <= k < i ==> (#[trigger] out@[k]).off == outer.off + inner.spans@[k].off
                    && out@[k].size == inner.spans@[k].size,
        decreases n - i,
    {
        let sp = inner.spans[i];
        out.push(Span { off: outer.off + sp.off, size: sp.size });
        i = i + 1;
    }
    out
}

/// Switches a previously fully-valid enum region to variant `v`: first
/// destructs the current value in place — every cell returns to the
/// indeterminate state, so no byte of the prior value stays reachable —
/// and only then re-tags the fresh region as `v`, handing back the
/// variant's payload mirror for re-initialization from scratch.
/// Destruction precedes re-tagging, which is what makes the switch
/// sound; the switch itself cannot fail, so the region is never left
/// destructed but untagged. If the caller's re-initialization of the
/// new payload can fail, guarding that is the caller's responsibility,
/// as with any projection.
pub fn reset_enum<'a>(region: &mut Region, m: &'a EnumMirror, v: usize) -> (pm: &'a StructMirror)
    requires
        crate::region::all_init(old(region)@),
        v < m.variants@.len(),
        m.tag.size <= m.layout.size,
        old(region)@.len() == m.layout.size,
        (v as int) < pow256(m.tag.size as nat),
    ensures
        final(region)@.len() == old(region)@.len(),
        final(region).addr() == old(region).addr(),
        forall|i: int|
            0 <= i < m.tag.size ==> final(region)@[i] == Some(
                tag_bytes_spec(v as nat, m.tag.size as nat)[i],
            ),
        forall|i: int| m.tag.size <= i < old(region)@.len() ==> final(region)@[i] is None,
        *pm == m.variants@[v as int],
{
    let n = region.len();
    let mut i: usize = 0;
    while i < n
        invariant
            n == region@.len(),
            n == old(region)@.len(),
            i <= n,
            region.addr() == old(region).addr(),
            forall|j: int| 0 <= j < i ==> region@[j] is None,
        decreases n - i,
    {
        region.deinit_byte(i);
        i = i + 1;
    }
    uninit_project_variant(region, m, v)
}

/// Fixed placement depends only on the fields' layouts, never on
/// whether a field is wrapped.
pub proof fn lemma_placement_ignores_wrapping(f1: Seq<FieldDef>, f2: Seq<FieldDef>)
    requires
        f1.len() == f2.len(),
        forall|i: int| 0 <= i < f1.len() ==> (#[trigger] f1[i]).layout == f2[i].layout,
    ensures
        struct_align_spec(f1) == struct_align_spec(f2),
        forall|i: int|
            0 <= i < f1.len() ==> field_offset_spec(f1, i) == field_offset_spec(f2, i),
        struct_size_spec(f1) == struct_size_spec(f2),
    decreases f1.len(),
{
    if f1.len() > 0 {
        assert(forall|i: int| 0 <= i < f1.len() - 1 ==> f1.drop_last()[i] == f1[i]);
        assert(forall|i: int| 0 <= i < f2.len() - 1 ==> f2.drop_last()[i] == f2[i]);
        lemma_placement_ignores_wrapping(f1.drop_last(), f2.drop_last());
        assert(f1.last() == f1[f1.len() - 1] && f2.last() == f2[f2.len() - 1]);
        assert forall|i: int| 0 <= i < f1.len() implies field_offset_spec(f1, i)
            == field_offset_spec(f2, i) by {
            if i < f1.len() - 1 {
                assert(field_offset_spec(f1.drop_last(), i) == field_offset_spec(
                    f2.drop_last(),
                    i,
                ));
                lemma_offset_same_prefix(f1, i);
                lemma_offset_same_prefix(f2, i);
            } else {
                lemma_offset_unfold_eq(f1, f2, i);
            }
        }
    }
}

/// A field's offset only looks at fields up to and including it, so it
/// is the same in the sequence and in its one-shorter prefix.
proof fn lemma_offset_same_prefix(f: Seq<FieldDef>, i: int)
    requires
        0 <= i < f.len() - 1,
    ensures
        field_offset_spec(f.drop_last(), i) == field_offset_spec(f, i),
    decreases i,
{
    if i > 0 {
        lemma_offset_same_prefix(f, i - 1);
        assert(f.drop_last()[i - 1] == f[i - 1]);
        assert(f.drop_last()[i] == f[i]);
    }
}

/// Offsets agree pointwise between two sequences whose layouts agree.
proof fn lemma_offset_unfold_eq(f1: Seq<FieldDef>, f2: Seq<FieldDef>, i: int)
    requires
        f1.len() == f2.len(),
        forall|k: int| 0 <= k < f1.len() ==> (#[trigger] f1[k]).layout == f2[k].layout,
        0 <= i < f1.len(),
    ensures
        field_offset_spec(f1, i) == field_offset_spec(f2, i),
    decreases i,
{
    if i > 0 {
        lemma_offset_unfold_eq(f1, f2, i - 1);
    }
}

/// The placement a generated mirror carries is well-formed for its
/// backing region: every field span lies inside the aggregate, and no
/// two field spans share a byte.
pub proof fn lemma_mirror_spans_wf(s: StructDef, m: StructMirror)
    requires
        mirror_matches_struct(m, s),
        fields_wf(s.fields@),
    ensures
        crate::uninit::spans_wf(m.spans@, m.layout.size as int),
{
    assert forall|i: int| 0 <= i < m.spans@.len() implies (#[trigger] m.spans@[i]).in_bounds(
        m.layout.size as int,
    ) by {
        lemma_field_bound(s.fields@, i);
    }
    assert forall|i: int, j: int|
        0 <= i < m.spans@.len() && 0 <= j < m.spans@.len() && i != j implies (
    #[trigger] m.spans@[i]).disjoint(#[trigger] m.spans@[j]) by {
        if i < j {
            lemma_offsets_separated(s.fields@, i, j);
        } else {
            lemma_offsets_separated(s.fields@, j, i);
        }
    }
}

/// Law: a generated struct mirror occupies exactly the bytes of its
/// original — equal size and equal alignment, computed from the mirror
/// declaration itself.
pub proof fn lemma_mirror_layout_equivalence(s: StructDef, m: StructMirror)
    requires
        mirror_matches_struct(m, s),
    ensures
        struct_size_spec(m.def.fields@) == struct_size_spec(s.fields@),
        struct_align_spec(m.def.fields@) == struct_align_spec(s.fields@),
        m.layout.size == struct_size_spec(m.def.fields@),
        m.layout.align == struct_align_spec(m.def.fields@),
{
    lemma_placement_ignores_wrapping(m.def.fields@, s.fields@);
}

/// Law: each generated variant mirror occupies exactly the bytes of its
/// variant's payload — equal size and equal alignment.
pub proof fn lemma_enum_mirror_layout_equivalence(e: EnumDef, m: EnumMirror, v: int)
    requires
        mirror_matches_enum(m, e),
        0 <= v < e.variants@.len(),
    ensures
        struct_size_spec(m.variants@[v].def.fields@) == struct_size_spec(e.variants@[v].fields@),
        struct_align_spec(m.variants@[v].def.fields@) == struct_align_spec(e.variants@[v].fields@),
        m.variants@[v].layout.size == struct_size_spec(m.variants@[v].def.fields@),
        m.variants@[v].layout.align == struct_align_spec(m.variants@[v].def.fields@),
{
    assert(mirror_matches_variant(m.variants@[v], e.variants@[v], e.tag.size as int));
    lemma_placement_ignores_wrapping(m.variants@[v].def.fields@, e.variants@[v].fields@);
}

} // verus!
