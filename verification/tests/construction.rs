use std::cell::Cell;
use std::collections::HashMap;
use std::rc::Rc;

use placement_new::mirror::{uninit_project, uninit_project_variant, reset_enum, EnumDef,
    FieldDef, MirrorDef, StructDef, TypeDef, VariantDef};
use placement_new::{create_array_with, emplace_slice_with, emplace_with, init_slice_with,
    memset_zeroed, overwrite, HostAlloc, LayoutDesc, Region, SinglePlace, Slots, Span};

struct Counting {
    drops: Rc<Cell<usize>>,
}

impl Counting {
    fn new(drops: &Rc<Cell<usize>>) -> Counting {
        Counting { drops: drops.clone() }
    }
}

impl Drop for Counting {
    fn drop(&mut self) {
        self.drops.set(self.drops.get() + 1);
    }
}

#[test]
fn partial_slice_cleanup_count() {
    let drops = Rc::new(Cell::new(0usize));
    let mut a = HostAlloc::new();
    let elem = LayoutDesc::from_size_align(1, 1).unwrap();
    let mut slots: Slots<Counting> = Slots::new_vacant(128);
    let counter = drops.clone();
    let out: Result<Region, &str> = emplace_slice_with(&mut a, elem, &mut slots, |i| {
        if i < 64 {
            Ok(Counting::new(&counter))
        } else {
            Err("slot failed")
        }
    });
    assert_eq!(out.unwrap_err(), "slot failed");
    assert_eq!(drops.get(), 64);
    assert_eq!(a.deallocate_calls, 1);
    assert_eq!(a.allocate_calls, 1);
}

#[test]
fn whole_run_transfers_ownership() {
    let mut a = HostAlloc::new();
    let elem = LayoutDesc::from_size_align(4, 4).unwrap();
    let mut slots: Slots<u32> = Slots::new_vacant(8);
    let out: Result<Region, ()> = emplace_slice_with(&mut a, elem, &mut slots, |i| Ok(i as u32));
    let region = out.unwrap();
    assert_eq!(region.len(), 32);
    assert_eq!(a.allocate_calls, 1);
    assert_eq!(a.deallocate_calls, 0);
    assert_eq!(slots.take_all(), vec![0, 1, 2, 3, 4, 5, 6, 7]);
}

#[test]
fn failing_initializer_frees_once_through_the_engine() {
    let drops = Rc::new(Cell::new(0usize));
    let mut a = HostAlloc::new();
    let layout = LayoutDesc::from_size_align(128, 1).unwrap();
    let counter = drops.clone();
    let out: Result<Region, &str> = emplace_with(&mut a, layout, |region| {
        let mut slots: Slots<Counting> = Slots::new_vacant(128);
        let inner = counter.clone();
        match init_slice_with(&mut slots, |i| {
            if i < 64 {
                Ok(Counting::new(&inner))
            } else {
                Err("slot failed")
            }
        }) {
            Ok(()) => Ok(region),
            Err(e) => Err(e),
        }
    });
    assert_eq!(out.unwrap_err(), "slot failed");
    assert_eq!(drops.get(), 64);
    assert_eq!(a.deallocate_calls, 1);
    assert_eq!(a.allocate_calls, 1);
}

#[test]
fn full_slice_initialization_destroys_nothing() {
    let drops = Rc::new(Cell::new(0usize));
    let mut slots: Slots<Counting> = Slots::new_vacant(16);
    let inner = drops.clone();
    let out: Result<(), ()> = init_slice_with(&mut slots, |_i| Ok(Counting::new(&inner)));
    assert!(out.is_ok());
    assert_eq!(drops.get(), 0);
    let values = slots.take_all();
    assert_eq!(values.len(), 16);
    drop(values);
    assert_eq!(drops.get(), 16);
}

#[test]
fn repeated_value_construction_spares_the_source() {
    let drops = Rc::new(Cell::new(0usize));
    let source = Counting::new(&drops);
    let mut slots: Slots<Counting> = Slots::new_vacant(128);
    let out: Result<(), &str> = init_slice_with(&mut slots, |i| {
        if i < 64 {
            Ok(Counting::new(&source.drops))
        } else {
            Err("clone failed")
        }
    });
    assert_eq!(out.unwrap_err(), "clone failed");
    assert_eq!(drops.get(), 64);
    drop(source);
    assert_eq!(drops.get(), 65);
}

#[test]
fn create_array_with_builds_every_element() {
    let v = create_array_with(5, |i| i * 2);
    assert_eq!(v, vec![0, 2, 4, 6, 8]);
    let empty: Vec<usize> = create_array_with(0, |i| i);
    assert!(empty.is_empty());
}

#[test]
fn boxed_place_returns_what_the_initializer_made() {
    let out: Result<Box<u32>, ()> = SinglePlace::emplace_with(|| Ok(7));
    assert_eq!(*out.unwrap(), 7);
    let out: Result<Box<u32>, &str> = SinglePlace::emplace_with(|| Err("no value"));
    assert_eq!(out.unwrap_err(), "no value");
}

struct State {
    a: u64,
    b: String,
    c: HashMap<String, String>,
    d: [Vec<u32>; 16],
    e: [u8; 4096],
}

impl State {
    fn zeroed() -> State {
        State {
            a: 0,
            b: String::new(),
            c: HashMap::new(),
            d: std::array::from_fn(|_| Vec::new()),
            e: [0; 4096],
        }
    }
}

#[test]
fn check_boxed() {
    let out: Result<Box<State>, ()> =
        SinglePlace::emplace_zeroed_with(State::zeroed(), |state| Ok(state));
    let s = out.unwrap();

    assert!(s.a == 0);
    assert!(s.b.is_empty());
    assert!(s.c.is_empty());
    assert!(s.d.iter().all(|v| v.is_empty()));
    assert!(s.e.iter().fold(0, |acc, x| acc | x) == 0);

    drop(s);
}

fn demo_struct_mirror() -> (Vec<Span>, usize) {
    let decl = StructDef {
        fixed_layout: true,
        fields: vec![
            FieldDef { layout: LayoutDesc { size: 2, align: 2 }, wrapped: false },
            FieldDef { layout: LayoutDesc { size: 4, align: 4 }, wrapped: false },
        ],
    };
    match uninit_project(&TypeDef::Struct(decl)).unwrap() {
        MirrorDef::Struct(m) => (m.spans, m.layout.size),
        MirrorDef::Enum(_) => panic!("expected a struct mirror"),
    }
}

fn field_bytes(region: &Region, span: Span) -> Vec<u8> {
    let mut out = Vec::new();
    let mut i = span.off;
    while i < span.off + span.size {
        out.push(region.read_byte(i));
        i += 1;
    }
    out
}

#[test]
fn byte_for_byte_equivalence() {
    let (spans, size) = demo_struct_mirror();
    let first = vec![1u8, 2];
    let second = vec![3u8, 4, 5, 6];

    let mut placed = Region::new_uninit(1, size);
    overwrite(&mut placed, spans[1], &second);
    overwrite(&mut placed, spans[0], &first);

    let mut direct = Region::new_zeroed(2, size);
    overwrite(&mut direct, spans[0], &vec![9u8, 9]);
    overwrite(&mut direct, spans[0], &first);
    overwrite(&mut direct, spans[1], &second);

    for span in spans {
        assert_eq!(field_bytes(&placed, span), field_bytes(&direct, span));
    }
}

#[test]
fn memset_zeroed_clears_one_field() {
    let (spans, size) = demo_struct_mirror();
    let mut region = Region::new_uninit(1, size);
    overwrite(&mut region, spans[0], &vec![7u8, 8]);
    memset_zeroed(&mut region, spans[1]);
    assert_eq!(field_bytes(&region, spans[0]), vec![7, 8]);
    assert_eq!(field_bytes(&region, spans[1]), vec![0, 0, 0, 0]);
}

fn demo_enum_mirror() -> placement_new::mirror::EnumMirror {
    let decl = EnumDef {
        fixed_layout: true,
        tag: LayoutDesc { size: 4, align: 4 },
        variants: vec![
            VariantDef { fields: vec![] },
            VariantDef {
                fields: vec![FieldDef { layout: LayoutDesc { size: 4096, align: 1 }, wrapped: false }],
            },
        ],
    };
    match uninit_project(&TypeDef::Enum(decl)).unwrap() {
        MirrorDef::Enum(m) => m,
        MirrorDef::Struct(_) => panic!("expected an enum mirror"),
    }
}

#[test]
fn variant_projection_writes_the_tag_eagerly() {
    let m = demo_enum_mirror();
    let mut region = Region::new_zeroed(1, m.layout.size);
    let payload = uninit_project_variant(&mut region, &m, 1);
    assert_eq!(payload.spans[0], Span { off: 4, size: 4096 });
    assert_eq!(field_bytes(&region, Span { off: 0, size: 4 }), vec![1, 0, 0, 0]);
    assert_eq!(region.read_byte(4), 0);
}

#[test]
fn enum_retag_destroys_the_old_payload_first() {
    let m = demo_enum_mirror();
    let mut region = Region::new_zeroed(1, m.layout.size);
    uninit_project_variant(&mut region, &m, 1);
    assert_eq!(field_bytes(&region, Span { off: 0, size: 4 }), vec![1, 0, 0, 0]);

    let payload = reset_enum(&mut region, &m, 0);
    assert_eq!(payload.spans.len(), 0);
    assert_eq!(field_bytes(&region, Span { off: 0, size: 4 }), vec![0, 0, 0, 0]);
    let mut i = 4;
    while i < region.len() {
        assert!(!region.is_init(i));
        i += 1;
    }
}

#[test]
fn slots_fill_and_take_round_trip() {
    let mut slots: Slots<u32> = Slots::new_vacant(3);
    slots.fill(0, 10);
    slots.fill(2, 30);
    slots.fill(1, 20);
    assert_eq!(slots.take_all(), vec![10, 20, 30]);
}
