//! Function and type matching for WARP signatures: masking of instruction bytes, containers of
//! signature data, caches of function GUIDs and matches, and the matcher.
pub mod analysis;
pub mod function;
pub mod cache;
pub mod container;
pub mod masking;
pub mod matcher;
pub mod signature;
pub mod view_types;

pub use function::build_function;
pub use masking::{is_address_relocatable, is_blacklisted_instruction, is_variant_instruction};
