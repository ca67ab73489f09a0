//! Extraction of part-of-speech tag sets from an encyclopedic wiki dump,
//! and a compact read-only word -> tag-set lookup built from them.
//!
//! The offline build pipeline: [`stream::PageAssembler`] reassembles raw
//! pages from a line stream, [`parse::parse_page`] scans one page for
//! tag-bearing template invocations and resolves them through the static
//! alias table in [`catalog`], [`aggregate::aggregate_pages`] normalizes
//! titles and merges duplicate entries into a sorted collection, and
//! [`lookup::TagsBuilder`] serializes that collection into the immutable
//! artifact.  At runtime [`lookup::TagsLookup`] loads an artifact and
//! answers point queries.
//!
//! Tag sets are packed bit masks over the closed enumeration in [`tags`];
//! [`bytestr`] supplies the byte-string order and searches that the other
//! modules build on.

pub mod aggregate;
pub mod bytestr;
pub mod catalog;
pub mod lookup;
pub mod parse;
pub mod stream;
pub mod tags;

pub use aggregate::FSTOptions;
pub use aggregate::aggregate_pages;
pub use aggregate::build_artifact;
pub use lookup::TagsBuilder;
pub use lookup::TagsLookup;
pub use parse::PageInfo;
pub use parse::TokenTally;
pub use parse::parse_page;
pub use stream::PageAssembler;
pub use tags::Tag;
pub use tags::TagSet;
