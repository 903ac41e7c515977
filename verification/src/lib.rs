//! Variant derivation engine: from one annotated base record schema, compute a
//! family of related record schemas ("variants"), the membership of each field
//! in each variant, capability markers for field presence and absence, and
//! conversion descriptors linking every ordered pair of variants.

pub mod casing;
pub mod convert;
pub mod directives;
pub mod engine;
pub mod laws;
pub mod markers;
pub mod model;
pub mod placement;
pub mod registry;
pub mod synthesis;
