use std::cell::Cell;
use std::rc::Rc;

use placement_new::layout::align_up;
use placement_new::{emplace_with, emplace_zeroed_with, Guard, guard_on_unwind, HostAlloc,
    LayoutDesc, LayoutError, Region};

#[test]
fn guard_cancelled_never_runs() {
    let runs = Rc::new(Cell::new(0usize));
    let r = runs.clone();
    let out: Result<i32, ()> = guard_on_unwind(|| Ok(5), move || r.set(r.get() + 1));
    assert_eq!(out, Ok(5));
    assert_eq!(runs.get(), 0);
}

#[test]
fn guard_runs_once_on_failure() {
    let runs = Rc::new(Cell::new(0usize));
    let r = runs.clone();
    let out: Result<i32, &str> = guard_on_unwind(|| Err("boom"), move || r.set(r.get() + 1));
    assert_eq!(out, Err("boom"));
    assert_eq!(runs.get(), 1);
}

#[test]
fn guard_fire_hands_back_the_action() {
    let g = Guard::new(42u32);
    assert_eq!(g.fire(), 42);
    let g2 = Guard::new(7u32);
    g2.cancel();
}

#[test]
fn align_up_formula() {
    assert_eq!(align_up(10, 8), Ok(16));
    assert_eq!(align_up(16, 8), Ok(16));
    assert_eq!(align_up(0, 8), Ok(0));
    assert_eq!(align_up(usize::MAX, 2), Err(LayoutError::Oversize));
}

#[test]
fn layout_rejects_degenerate_requests() {
    assert_eq!(
        LayoutDesc::from_size_align(8, 3),
        Err(LayoutError::BadAlign)
    );
    assert_eq!(
        LayoutDesc::from_size_align(8, 0),
        Err(LayoutError::BadAlign)
    );
    assert_eq!(
        LayoutDesc::from_size_align(usize::MAX, 2),
        Err(LayoutError::Oversize)
    );
    let l = LayoutDesc::from_size_align(24, 8).unwrap();
    assert_eq!(l.size, 24);
    assert_eq!(l.align, 8);
}

#[test]
fn layout_repeat_uses_the_stride() {
    let l = LayoutDesc::from_size_align(12, 8).unwrap();
    let arr = l.repeat(2).unwrap();
    assert_eq!(arr.size, 32);
    assert_eq!(arr.align, 8);
}

#[test]
fn zero_size_never_reaches_the_host() {
    let mut a = HostAlloc::new();
    let layout = LayoutDesc::from_size_align(0, 8).unwrap();
    let out: Result<Region, ()> = emplace_with(&mut a, layout, Ok);
    let region = out.unwrap();
    assert_eq!(region.address(), 8);
    assert_eq!(region.len(), 0);
    assert_eq!(a.allocate_calls, 0);
    assert_eq!(a.allocate_zeroed_calls, 0);
    assert_eq!(a.deallocate_calls, 0);

    let out: Result<Region, ()> = emplace_zeroed_with(&mut a, layout, Ok);
    assert!(out.is_ok());
    assert_eq!(a.allocate_calls, 0);
    assert_eq!(a.allocate_zeroed_calls, 0);
}

#[test]
fn success_transfers_ownership_without_release() {
    let mut a = HostAlloc::new();
    let layout = LayoutDesc::from_size_align(16, 4).unwrap();
    let out: Result<Region, ()> = emplace_with(&mut a, layout, Ok);
    let region = out.unwrap();
    assert_eq!(region.len(), 16);
    assert_ne!(region.address(), 0);
    assert_eq!(a.allocate_calls, 1);
    assert_eq!(a.deallocate_calls, 0);
}

#[test]
fn failure_releases_exactly_once() {
    let mut a = HostAlloc::new();
    let layout = LayoutDesc::from_size_align(16, 4).unwrap();
    let out: Result<Region, i32> = emplace_with(&mut a, layout, |_region| Err(7));
    assert_eq!(out.unwrap_err(), 7);
    assert_eq!(a.allocate_calls, 1);
    assert_eq!(a.deallocate_calls, 1);

    let out: Result<Region, i32> = emplace_zeroed_with(&mut a, layout, |_region| Err(9));
    assert_eq!(out.unwrap_err(), 9);
    assert_eq!(a.allocate_zeroed_calls, 1);
    assert_eq!(a.deallocate_calls, 2);
}

#[test]
fn zero_fill_covers_every_byte() {
    let mut a = HostAlloc::new();
    let layout = LayoutDesc::from_size_align(4096, 8).unwrap();
    let out: Result<Region, ()> = emplace_zeroed_with(&mut a, layout, Ok);
    let region = out.unwrap();
    assert_eq!(region.len(), 4096);
    let mut folded = 0u8;
    let mut i = 0;
    while i < region.len() {
        assert!(region.is_init(i));
        folded |= region.read_byte(i);
        i += 1;
    }
    assert_eq!(folded, 0);
    assert_eq!(region.or_fold(), 0);
}

#[test]
fn uninit_region_starts_indeterminate() {
    let region = Region::new_uninit(1, 8);
    let mut i = 0;
    while i < region.len() {
        assert!(!region.is_init(i));
        i += 1;
    }
}
