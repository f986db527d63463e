//! B-tree lookup over fixed-size pages.
//!
//! On-page layout: the 9-byte header, then the cell pointer array
//! (`cell_count` little-endian u16 offsets at bytes 9, 11, ...), each offset
//! naming a cell inside the page. An interior cell is a varint separator key
//! followed by an 8-byte little-endian child page id; the separator is the
//! greatest key routed into that child, and cells stand in ascending key
//! order. A leaf cell is a varint key followed by the record payload, which
//! lookup does not parse.
//!
//! Routing descends into the first cell whose separator is at least the
//! search key; a key above every separator is absent. Descent is bounded by
//! the page count, so a cyclic page graph fails with a structural-corruption
//! error instead of looping.

use vstd::prelude::*;

use vstd::bytes::{spec_u64_from_le_bytes, u64_from_le_bytes};
use vstd::slice::slice_subrange;

use crate::error::DbError;
use crate::page::{le16_at, PageHeader, PageType, HEADER_SIZE};
use crate::varint::{varint, varint_decode};

verus! {

/// The cell pointer of cell `i`: bytes `9 + 2 i`, `10 + 2 i` of the page.
pub open spec fn cell_ptr(page: Seq<u8>, i: int) -> u16 {
    le16_at(page, HEADER_SIZE + 2 * i)
}

/// What one page contributes to a lookup: descend into a child, stop at a
/// cell of this page, or conclude the key is absent.
#[derive(Clone, Copy, Debug, PartialEq, Eq, Structural)]
pub enum FindStep {
    Descend(u64),
    FoundAt(u16),
    NotFound,
}

/// Scanning leaf cells `i .. n` for an exact key match: the offset of the
/// matching cell, if any.
pub open spec fn leaf_scan_spec(page: Seq<u8>, key: u64, i: nat, n: nat) -> Result<
    Option<u16>,
    DbError,
>
    decreases n - i,
{
    if i >= n {
        Ok(None)
    } else {
        let off = cell_ptr(page, i as int);
        if off >= page.len() {
            Err(DbError::TruncatedInput)
        } else {
            match varint_decode(page.subrange(off as int, page.len() as int)) {
                None => Err(DbError::MalformedVarint),
                Some(p) => if p.0 == key {
                    Ok(Some(off))
                } else {
                    leaf_scan_spec(page, key, i + 1, n)
                },
            }
        }
    }
}

/// Scanning interior cells `i .. n` for the first separator at least `key`:
/// the child page id to descend into, if any.
pub open spec fn interior_route_spec(page: Seq<u8>, key: u64, i: nat, n: nat) -> Result<
    Option<u64>,
    DbError,
>
    decreases n - i,
{
    if i >= n {
        Ok(None)
    } else {
        let off = cell_ptr(page, i as int);
        if off >= page.len() {
            Err(DbError::TruncatedInput)
        } else {
            match varint_decode(page.subrange(off as int, page.len() as int)) {
                None => Err(DbError::MalformedVarint),
                Some(p) => if key <= p.0 {
                    if off + p.1 + 8 > page.len() {
                        Err(DbError::TruncatedInput)
                    } else {
                        Ok(
                            Some(
                                spec_u64_from_le_bytes(
                                    page.subrange(off + p.1, off + p.1 + 8),
                                ),
                            ),
                        )
                    }
                } else {
                    interior_route_spec(page, key, i + 1, n)
                },
            }
        }
    }
}

/// What resolving `key` against one page yields.
pub open spec fn find_step_spec(page: Seq<u8>, key: u64) -> Result<FindStep, DbError> {
    match PageHeader::parse_spec(page) {
        Err(e) => Err(e),
        Ok(h) => if page.len() < HEADER_SIZE + 2 * (h.cell_count as int) {
            Err(DbError::TruncatedInput)
        } else if h.page_type.is_interior() {
            match interior_route_spec(page, key, 0, h.cell_count as nat) {
                Err(e) => Err(e),
                Ok(None) => Ok(FindStep::NotFound),
                Ok(Some(child)) => Ok(FindStep::Descend(child)),
            }
        } else {
            match leaf_scan_spec(page, key, 0, h.cell_count as nat) {
                Err(e) => Err(e),
                Ok(None) => Ok(FindStep::NotFound),
                Ok(Some(off)) => Ok(FindStep::FoundAt(off)),
            }
        },
    }
}

/// The byte content of each page of an in-memory store.
pub open spec fn views_of(pages: Seq<Vec<u8>>) -> Seq<Seq<u8>> {
    pages.map_values(|p: Vec<u8>| p@)
}

/// Resolving `key` from page `id` with `fuel` descents allowed: the leaf
/// position holding the key, `None` when it is absent, or the error met on
/// the way. Exhausted fuel means the page graph has a cycle.
pub open spec fn find_spec(pages: Seq<Seq<u8>>, id: u64, key: u64, fuel: nat) -> Result<
    Option<(u64, u16)>,
    DbError,
>
    decreases fuel,
{
    if fuel == 0 {
        Err(DbError::StructuralCorruption)
    } else if id >= pages.len() {
        Err(DbError::PageOutOfBounds)
    } else {
        match find_step_spec(pages[id as int], key) {
            Err(e) => Err(e),
            Ok(FindStep::NotFound) => Ok(None),
            Ok(FindStep::FoundAt(off)) => Ok(Some((id, off))),
            Ok(FindStep::Descend(child)) => find_spec(pages, child, key, (fuel - 1) as nat),
        }
    }
}

/// A leaf-scan hit points at a cell whose varint key is the search key.
proof fn lemma_leaf_scan_hit(page: Seq<u8>, key: u64, i: nat, n: nat, off: u16)
    requires
        leaf_scan_spec(page, key, i, n) == Ok::<Option<u16>, DbError>(Some(off)),
    ensures
        off < page.len(),
        (varint_decode(page.subrange(off as int, page.len() as int)) matches Some(d) && d.0
            == key),
    decreases n - i,
{
    if i < n {
        let o = cell_ptr(page, i as int);
        if o < page.len() {
            match varint_decode(page.subrange(o as int, page.len() as int)) {
                Some(p) => {
                    if p.0 != key {
                        lemma_leaf_scan_hit(page, key, i + 1, n, off);
                    }
                },
                None => {},
            }
        }
    }
}

/// What a successful lookup points at: the page holding the returned
/// offset is in range, and at that offset stands a cell whose varint key
/// is exactly the search key.
pub proof fn lemma_find_hits_matching_cell(
    pages: Seq<Seq<u8>>,
    id: u64,
    key: u64,
    fuel: nat,
    p: u64,
    off: u16,
)
    requires
        find_spec(pages, id, key, fuel) == Ok::<Option<(u64, u16)>, DbError>(Some((p, off))),
    ensures
        p < pages.len(),
        off < pages[p as int].len(),
        (varint_decode(pages[p as int].subrange(off as int, pages[p as int].len() as int))
            matches Some(d) && d.0 == key),
    decreases fuel,
{
    match find_step_spec(pages[id as int], key) {
        Ok(FindStep::FoundAt(o)) => {
            let h = PageHeader::parse_spec(pages[id as int])->Ok_0;
            lemma_leaf_scan_hit(pages[id as int], key, 0, h.cell_count as nat, off);
        },
        Ok(FindStep::Descend(child)) => {
            lemma_find_hits_matching_cell(pages, child, key, (fuel - 1) as nat, p, off);
        },
        _ => {},
    }
}

/// An immutable handle on one tree: the page its root lives in.
#[derive(Clone, Copy, Debug, PartialEq, Eq, Structural)]
pub struct BTree {
    /// The page id of the root.
    pub start_page: u64,
}

impl BTree {
    /// A handle rooted at `start_page`.
    pub fn new(start_page: u64) -> (r: BTree)
        ensures
            r.start_page == start_page,
    {
        BTree { start_page }
    }

    /// Resolve `key` against the pages of an in-memory store, descending
    /// from the root; a cyclic page graph fails with
    /// `StructuralCorruption` once every page has been descended through.
    pub fn find(&self, pages: &Vec<Vec<u8>>, key: u64) -> (r: Result<
        Option<(u64, u16)>,
        DbError,
    >)
        requires
            pages@.len() < usize::MAX,
        ensures
            r == find_spec(views_of(pages@), self.start_page, key, (pages@.len() + 1) as nat),
    {
        let ghost views = views_of(pages@);
        let mut id: u64 = self.start_page;
        let mut fuel: usize = pages.len() + 1;
        loop
            invariant
                pages@.len() < usize::MAX,
                views == views_of(pages@),
                find_spec(views, self.start_page, key, (pages@.len() + 1) as nat) == find_spec(
                    views,
                    id,
                    key,
                    fuel as nat,
                ),
            decreases fuel,
        {
            if fuel == 0 {
                return Err(DbError::StructuralCorruption);
            }
            if id >= pages.len() as u64 {
                return Err(DbError::PageOutOfBounds);
            }
            proof {
                assert(views[id as int] == pages@[id as int]@);
            }
            match Self::find_step(pages[id as usize].as_slice(), key) {
                Err(e) => {
                    return Err(e);
                },
                Ok(FindStep::NotFound) => {
                    return Ok(None);
                },
                Ok(FindStep::FoundAt(off)) => {
                    return Ok(Some((id, off)));
                },
                Ok(FindStep::Descend(child)) => {
                    id = child;
                    fuel = fuel - 1;
                },
            }
        }
    }

    /// Resolve `key` against a single page's bytes: parse the header, then
    /// route through an interior page or scan a leaf page.
    pub fn find_step(page: &[u8], key: u64) -> (r: Result<FindStep, DbError>)
        ensures
            r == find_step_spec(page@, key),
    {
        let header = match PageHeader::parse(page) {
            Ok(h) => h,
            Err(e) => {
                return Err(e);
            },
        };
        let n = header.cell_count as usize;
        if page.len() < HEADER_SIZE + 2 * n {
            return Err(DbError::TruncatedInput);
        }
        let interior = match header.page_type {
            PageType::InteriorIndex => true,
            PageType::InteriorTable => true,
            PageType::LeafIndex => false,
            PageType::LeafTable => false,
        };
        if interior {
            match Self::interior_route(page, key, n) {
                Err(e) => Err(e),
                Ok(None) => Ok(FindStep::NotFound),
                Ok(Some(child)) => Ok(FindStep::Descend(child)),
            }
        } else {
            match Self::leaf_scan(page, key, n) {
                Err(e) => Err(e),
                Ok(None) => Ok(FindStep::NotFound),
                Ok(Some(off)) => Ok(FindStep::FoundAt(off)),
            }
        }
    }

    /// Scan a leaf page's cells in order for an exact key match.
    fn leaf_scan(page: &[u8], key: u64, n: usize) -> (r: Result<Option<u16>, DbError>)
        requires
            HEADER_SIZE + 2 * n <= page@.len(),
            n <= u16::MAX,
        ensures
            r == leaf_scan_spec(page@, key, 0, n as nat),
    {
        let mut i: usize = 0;
        while i < n
            invariant
                i <= n,
                n <= u16::MAX,
                HEADER_SIZE + 2 * n <= page@.len(),
                leaf_scan_spec(page@, key, 0, n as nat) == leaf_scan_spec(
                    page@,
                    key,
                    i as nat,
                    n as nat,
                ),
            decreases n - i,
        {
            let lo = page[HEADER_SIZE + 2 * i];
            let hi = page[HEADER_SIZE + 2 * i + 1];
            let off: u16 = lo as u16 + (hi as u16) * 0x100;
            if off as usize >= page.len() {
                return Err(DbError::TruncatedInput);
            }
            let rest = slice_subrange(page, off as usize, page.len());
            match varint::decode_varint(rest) {
                None => {
                    return Err(DbError::MalformedVarint);
                },
                Some((v, _consumed)) => {
                    if v == key {
                        return Ok(Some(off));
                    }
                },
            }
            i = i + 1;
        }
        Ok(None)
    }

    /// Scan an interior page's cells in order for the first separator at
    /// least `key` and read that cell's child page id.
    fn interior_route(page: &[u8], key: u64, n: usize) -> (r: Result<Option<u64>, DbError>)
        requires
            HEADER_SIZE + 2 * n <= page@.len(),
            n <= u16::MAX,
        ensures
            r == interior_route_spec(page@, key, 0, n as nat),
    {
        let mut i: usize = 0;
        while i < n
            invariant
                i <= n,
                n <= u16::MAX,
                HEADER_SIZE + 2 * n <= page@.len(),
                interior_route_spec(page@, key, 0, n as nat) == interior_route_spec(
                    page@,
                    key,
                    i as nat,
                    n as nat,
                ),
            decreases n - i,
        {
            let lo = page[HEADER_SIZE + 2 * i];
            let hi = page[HEADER_SIZE + 2 * i + 1];
            let off: u16 = lo as u16 + (hi as u16) * 0x100;
            if off as usize >= page.len() {
                return Err(DbError::TruncatedInput);
            }
            let rest = slice_subrange(page, off as usize, page.len());
            match varint::decode_varint(rest) {
                None => {
                    return Err(DbError::MalformedVarint);
                },
                Some((sep, consumed)) => {
                    if key <= sep {
                        if off as usize + consumed + 8 > page.len() {
                            return Err(DbError::TruncatedInput);
                        }
                        let child = u64_from_le_bytes(
                            slice_subrange(page, off as usize + consumed, off as usize + consumed + 8),
                        );
                        return Ok(Some(child));
                    }
                },
            }
            i = i + 1;
        }
        Ok(None)
    }
}

} // verus!
