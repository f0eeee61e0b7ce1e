//! Catalogs of the SQL surface that plugin shims expose.
//!
//! A shim registers functions, types, operators, casts, indexes and patterns.
//! This library turns registrations into rows of a SQLite catalog
//! ([`registry`], [`extract`]), adds what the shim's source tree shows of them
//! ([`stamp`], [`edges`], [`walker`], [`hashes`]), and compares two catalogs
//! family by family ([`load`], [`diff`], [`report`], [`options`]).
//!
//! Nothing here reads or writes: files, databases and the shims themselves are
//! handled by the caller, who hands in what they hold.

pub mod catalog;
pub mod diff;
pub mod digest;
pub mod edges;
pub mod extract;
pub mod hashes;
pub mod json;
pub mod load;
pub mod migrations;
pub mod options;
pub mod order;
pub mod owner;
pub mod paths;
pub mod registry;
pub mod report;
pub mod sources;
pub mod stamp;
pub mod syntax;
pub mod text;
pub mod version;
pub mod walker;

pub use extract::{
    drain_postgis_metadata, extract_shim, print_summary, ExtractedSummary, PostgisMetadataCounts,
};
pub use owner::{OwnerResolver, SourceMetadata, StaticOwnerResolver};
pub use stamp::extract_source_metadata;
pub use version::{ensure_schema, open_fresh, open_or_migrate, SCHEMA_VERSION};
