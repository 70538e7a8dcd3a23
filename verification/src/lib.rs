//! A schema compiler for document-database collections.
//!
//! A record type declares, field by field, how it wants to be indexed and
//! which field identifies a document. This crate turns that declaration into
//! a normalized collection identity and an ordered list of concrete
//! secondary-index build instructions, ready to hand to a database driver.

use vstd::prelude::*;

pub mod collate;
pub mod compile;
pub mod emit;
pub mod field;
pub mod identity;
pub mod schema;

verus! {

} // verus!
