//! On-disk storage engine for a page-oriented graph database file format.
//!
//! The format is built from fixed 4096-byte pages: a header page at byte
//! offset 0, a footer page at the offset the header records, and linked
//! lists of offset-table pages in between. Every record type serializes to
//! an exact, documented byte length, little-endian throughout.

pub mod endian;
pub mod file_layout;
pub mod schema_builder;
pub mod storage_engine;
