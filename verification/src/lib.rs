//! A verified card-catalog pipeline: it extracts normalized card records
//! from a parsed JSON document and answers two queries over them — a full
//! price/rank projection, and a filtered, rank-sorted top-K listing.

pub mod card;
pub mod digits;
pub mod extract;
pub mod laws;
pub mod price;
pub mod query;
pub mod render;
pub mod text;
pub mod tree;
