use placement_new::layout::LayoutError;
use placement_new::mirror::{layout_of_fields, project_nested, uninit_project, split_enum,
    EnumDef, FieldDef, MirrorDef, ProjectError, StructDef, TypeDef, VariantDef};
use placement_new::{clone_and_modify, LayoutDesc, Span};

fn field(size: usize, align: usize) -> FieldDef {
    FieldDef { layout: LayoutDesc { size, align }, wrapped: false }
}

#[test]
fn struct_mirror_keeps_placement() {
    let decl = StructDef {
        fixed_layout: true,
        fields: vec![field(8, 8), field(4, 4), field(1, 1)],
    };
    let m = match uninit_project(&TypeDef::Struct(decl)).unwrap() {
        MirrorDef::Struct(m) => m,
        MirrorDef::Enum(_) => panic!("expected a struct mirror"),
    };
    assert_eq!(m.spans.len(), 3);
    assert_eq!(m.spans[0], Span { off: 0, size: 8 });
    assert_eq!(m.spans[1], Span { off: 8, size: 4 });
    assert_eq!(m.spans[2], Span { off: 12, size: 1 });
    assert_eq!(m.layout.size, 16);
    assert_eq!(m.layout.align, 8);
    assert_eq!(m.def.fields.len(), 3);
    for (orig, wrapped) in [(8usize, 8usize), (4, 4), (1, 1)].iter().zip(m.def.fields.iter()) {
        assert_eq!(wrapped.layout.size, orig.0);
        assert_eq!(wrapped.layout.align, orig.1);
        assert!(wrapped.wrapped);
    }
}

#[test]
fn mirror_layout_equals_original_layout() {
    let fields = vec![field(8, 8), field(4, 4), field(1, 1)];
    let decl = StructDef { fixed_layout: true, fields: fields.clone() };
    let m = match uninit_project(&TypeDef::Struct(decl)).unwrap() {
        MirrorDef::Struct(m) => m,
        MirrorDef::Enum(_) => panic!("expected a struct mirror"),
    };
    let (_, original) = layout_of_fields(&fields).unwrap();
    let (_, mirrored) = layout_of_fields(&m.def.fields).unwrap();
    assert_eq!(mirrored.size, original.size);
    assert_eq!(mirrored.align, original.align);
    assert_eq!(m.layout.size, original.size);
    assert_eq!(m.layout.align, original.align);
}

#[test]
fn enum_mirror_splits_tag_and_payload() {
    let decl = EnumDef {
        fixed_layout: true,
        tag: LayoutDesc { size: 4, align: 4 },
        variants: vec![
            VariantDef { fields: vec![] },
            VariantDef { fields: vec![field(4096, 1)] },
        ],
    };
    let m = match uninit_project(&TypeDef::Enum(decl)).unwrap() {
        MirrorDef::Enum(m) => m,
        MirrorDef::Struct(_) => panic!("expected an enum mirror"),
    };
    assert_eq!(m.tag, LayoutDesc { size: 4, align: 4 });
    assert_eq!(m.variants.len(), 2);
    assert_eq!(m.variants[0].spans.len(), 0);
    assert_eq!(m.variants[1].spans.len(), 1);
    assert_eq!(m.variants[1].spans[0], Span { off: 4, size: 4096 });
    assert_eq!(m.variants[1].layout.size, 4096);
    assert_eq!(m.layout.size, 4100);
    assert_eq!(m.layout.align, 4);
}

#[test]
fn per_variant_mirror_keeps_the_payload_layout() {
    let decl = EnumDef {
        fixed_layout: true,
        tag: LayoutDesc { size: 1, align: 1 },
        variants: vec![VariantDef { fields: vec![field(2, 2), field(8, 8)] }],
    };
    let m = match uninit_project(&TypeDef::Enum(decl)).unwrap() {
        MirrorDef::Enum(m) => m,
        MirrorDef::Struct(_) => panic!("expected an enum mirror"),
    };
    let (_, payload) = layout_of_fields(&m.variants[0].def.fields).unwrap();
    assert_eq!(payload.size, m.variants[0].layout.size);
    assert_eq!(payload.align, m.variants[0].layout.align);
    assert_eq!(m.variants[0].spans[0], Span { off: 1, size: 2 });
    assert_eq!(m.variants[0].spans[1], Span { off: 9, size: 8 });
}

#[test]
fn generator_rejects_loose_layout() {
    let decl = StructDef { fixed_layout: false, fields: vec![field(4, 4)] };
    assert_eq!(
        uninit_project(&TypeDef::Struct(decl)).unwrap_err(),
        ProjectError::NotFixedLayout
    );
    let e = EnumDef {
        fixed_layout: false,
        tag: LayoutDesc { size: 4, align: 4 },
        variants: vec![VariantDef { fields: vec![] }],
    };
    assert_eq!(
        uninit_project(&TypeDef::Enum(e)).unwrap_err(),
        ProjectError::NotFixedLayout
    );
}

#[test]
fn generator_rejects_empty_declarations() {
    let decl = StructDef { fixed_layout: true, fields: vec![] };
    assert_eq!(
        uninit_project(&TypeDef::Struct(decl)).unwrap_err(),
        ProjectError::EmptyDecl
    );
    let e = EnumDef {
        fixed_layout: true,
        tag: LayoutDesc { size: 4, align: 4 },
        variants: vec![],
    };
    assert_eq!(
        uninit_project(&TypeDef::Enum(e)).unwrap_err(),
        ProjectError::EmptyDecl
    );
}

#[test]
fn generator_rejects_union_shapes() {
    let decl = StructDef { fixed_layout: true, fields: vec![field(4, 4)] };
    assert_eq!(
        uninit_project(&TypeDef::Union(decl)).unwrap_err(),
        ProjectError::UnsupportedShape
    );
}

#[test]
fn generator_rejects_degenerate_layouts() {
    let decl = StructDef { fixed_layout: true, fields: vec![field(4, 3)] };
    assert_eq!(
        uninit_project(&TypeDef::Struct(decl)).unwrap_err(),
        ProjectError::Degenerate(LayoutError::BadAlign)
    );
    let decl = StructDef {
        fixed_layout: true,
        fields: vec![field(usize::MAX, 1), field(usize::MAX, 1)],
    };
    assert_eq!(
        uninit_project(&TypeDef::Struct(decl)).unwrap_err(),
        ProjectError::Degenerate(LayoutError::Oversize)
    );
}

#[test]
fn split_enum_partitions_the_span() {
    let (tag, payload) = split_enum(Span { off: 0, size: 100 }, 4);
    assert_eq!(tag, Span { off: 0, size: 4 });
    assert_eq!(payload, Span { off: 4, size: 96 });
}

#[test]
fn nested_projection_readdresses_inner_fields() {
    let inner_decl = StructDef {
        fixed_layout: true,
        fields: vec![field(2, 2), field(4, 4)],
    };
    let inner = match uninit_project(&TypeDef::Struct(inner_decl)).unwrap() {
        MirrorDef::Struct(m) => m,
        MirrorDef::Enum(_) => panic!("expected a struct mirror"),
    };
    let outer_field = Span { off: 16, size: 8 };
    let nested = project_nested(outer_field, &inner);
    assert_eq!(nested, vec![Span { off: 16, size: 2 }, Span { off: 20, size: 4 }]);
}

#[test]
fn clone_and_modify_leaves_the_origin() {
    let origin = 5i32;
    let out = clone_and_modify(&origin, |x| x + 1);
    assert_eq!(out, 6);
    assert_eq!(origin, 5);
}
