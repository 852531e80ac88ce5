//! Primitives for constructing values directly inside pre-allocated,
//! possibly-uninitialized, possibly-zero-filled memory ("placement
//! construction"), stated over an explicit model of regions, layouts and
//! deferred rollback actions, with the protocol's invariants proved:
//! partially-built state is destroyed exactly once on failure, backing
//! memory is released exactly once unless ownership was transferred out,
//! and no byte is read before it was written.

pub mod array;
pub mod emplace;
pub mod guard;
pub mod layout;
pub mod mirror;
pub mod place;
pub mod region;
pub mod slice;
pub mod uninit;

pub use crate::array::create_array_with;
pub use crate::emplace::{emplace_slice_with, emplace_with, emplace_zeroed_with, HostAlloc};
pub use crate::guard::{Guard, guard_on_unwind};
pub use crate::layout::{LayoutDesc, LayoutError};
pub use crate::mirror::{clone_and_modify, split_enum, uninit_project, EnumDef, EnumMirror,
    FieldDef, MirrorDef, ProjectError, StructDef, StructMirror, TypeDef, VariantDef};
pub use crate::place::SinglePlace;
pub use crate::region::Region;
pub use crate::slice::{init_slice_with, Slots};
pub use crate::uninit::{memset_zeroed, overwrite, Span, UninitProject};
