//! Source resolution and diagnostic aggregation for a package-registry
//! linting service.
//!
//! The crate turns logical file identifiers into cached, resolvable byte and
//! text content for a compiler frontend, and turns the frontend's byte-offset
//! diagnostics into correctly attributed line/column annotations, across
//! package boundaries, directory-prefix merges and virtual sources.

pub mod annotation;
pub mod api;
pub mod diagnostics;
pub mod error;
pub mod exclude;
pub mod ident;
pub mod resolve;
pub mod store;
pub mod strings;
pub mod text;
pub mod today;
pub mod world;
