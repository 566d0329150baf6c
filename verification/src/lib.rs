//! Capability-set algebra and dependency-expression resolution for a
//! hardware-acceleration registry.
//!
//! The crate turns a declarative registry of named capabilities, each with an
//! optional textual dependency expression, into a disjunctive-normal-form
//! requirement model, and offers a capability-set value type with boolean set
//! algebra and cross-scope validation, together with a deterministic source
//! generator for the per-scope set types.

mod expr;
mod extent;
mod gen;
mod physical;
mod registry;
mod set;
mod sharing;
mod swapchain;
mod table;
mod text;
mod validation;
mod version;

pub use expr::{
    lemma_distribute_len,
    distribute, merge_conj, parse_dependencies, spec_parse, AllOf, AnyOf, GConj, ParseError,
    ParseErrorKind,
};
pub use extent::{Extent2d, Extent3d, Offset2d, Rect2d};
pub use gen::{generate_all, generate_extensions, lemma_generation_deterministic, spec_generate};
pub use registry::{reg_wf, resolve, spec_resolve, GRCap, GRConj, GReg, RCap, RConj, Registry};
pub use set::{
    lemma_difference_self_empty, lemma_intersection_absorbs_union, lemma_union_commutative,
    lemma_union_contains_sides, lemma_union_intersection_idempotent,
    lemma_union_restores_difference, spec_contains, spec_difference, spec_intersection,
    spec_is_empty, spec_union, CapabilitySet,
};
pub use physical::{
    DeviceFeatures, MemoryHeap, MemoryRequirements, PhysicalDeviceKind, PhysicalDeviceProperties,
};
pub use sharing::Sharing;
pub use swapchain::{ColorSpace, PresentMode};
pub use table::{
    lemma_spec_sort_sorted, sorted_by_name, spec_insert, spec_sort, BuildError, CapabilityTable,
    Component, Extension, Extracted, Format, GExt,
};
pub use text::{all_caps_to_pascal_case, lex_le, spec_decimal, spec_rust_name, u32_to_decimal};
pub use validation::{
    all_caps_ok, cap_ok, conj_sat, failure_matches, offender_reported, requires_matches,
    version_ok, Requires, Validated, ValidationError,
};
pub use version::{version_le, Version};
