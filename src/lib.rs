//! Reader for the self-describing `BLENDER` container format: header
//! validation, typed scalar reads, the block index keyed by original memory
//! address, the structure catalog decoder and a dotted-path navigator.

pub mod error;
pub mod text;
pub mod file;
pub mod file_block;
pub mod decl;
pub mod sdna;
pub mod dna;
pub mod layout;
pub mod query;
pub mod pretty;
