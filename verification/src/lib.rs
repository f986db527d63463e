//! Embedded, single-file, page-organized storage engine core: a varint codec,
//! a typed value codec with an overflow representation for oversized values,
//! fixed-size page parsing, B-tree lookup over those pages, and the refcount
//! protocol that governs the per-page lock bookkeeping.

pub mod btree;
pub mod error;
pub mod overflow;
pub mod page;
pub mod pager;
pub mod types;
pub mod varint;
