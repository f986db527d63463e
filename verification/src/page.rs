//! Page header parsing. A page begins with a 9-byte header: page type tag
//! (1 byte), freeblock start, cell count, cell content start, and total free
//! bytes (u16 little-endian each). The cell pointer array follows the header.

use vstd::prelude::*;

use crate::error::DbError;

verus! {

/// Size in bytes of the fixed page header.
pub const HEADER_SIZE: usize = 9;

/// The little-endian 16-bit integer stored at positions `i`, `i + 1` of `s`.
pub open spec fn le16_at(s: Seq<u8>, i: int) -> u16 {
    (s[i] + s[i + 1] * 0x100) as u16
}

/// Which of the four kinds a page is. Interior pages route; leaf pages hold
/// addressable records.
#[derive(Clone, Copy, Debug, PartialEq, Eq, Structural)]
pub enum PageType {
    InteriorIndex,
    InteriorTable,
    LeafIndex,
    LeafTable,
}

impl PageType {
    /// The tag byte that stands for each page kind on disk.
    pub open spec fn code(self) -> u8 {
        match self {
            PageType::InteriorIndex => 0,
            PageType::InteriorTable => 1,
            PageType::LeafIndex => 2,
            PageType::LeafTable => 3,
        }
    }

    /// What `parse` returns for each tag byte.
    pub open spec fn parse_spec(n: u8) -> Result<PageType, DbError> {
        if n == 0 {
            Ok(PageType::InteriorIndex)
        } else if n == 1 {
            Ok(PageType::InteriorTable)
        } else if n == 2 {
            Ok(PageType::LeafIndex)
        } else if n == 3 {
            Ok(PageType::LeafTable)
        } else {
            Err(DbError::InvalidPageType)
        }
    }

    /// Whether the page routes keys to children rather than holding records.
    pub open spec fn is_interior(self) -> bool {
        self == PageType::InteriorIndex || self == PageType::InteriorTable
    }

    /// Read a page kind from its tag byte; every tag above 3 is rejected.
    pub fn parse(n: u8) -> (r: Result<Self, DbError>)
        ensures
            r == Self::parse_spec(n),
            r matches Ok(t) ==> t.code() == n,
    {
        match n {
            0 => Ok(PageType::InteriorIndex),
            1 => Ok(PageType::InteriorTable),
            2 => Ok(PageType::LeafIndex),
            3 => Ok(PageType::LeafTable),
            _ => Err(DbError::InvalidPageType),
        }
    }
}

/// A cursor over a borrowed byte slice, consumed front to back.
#[derive(Clone, Copy)]
pub struct ReadableSlice<'a> {
    data: &'a [u8],
    pos: usize,
}

impl<'a> ReadableSlice<'a> {
    /// The cursor never stands past the end of its slice.
    #[verifier::type_invariant]
    spec fn inv(self) -> bool {
        self.pos <= self.data@.len()
    }

    /// The bytes the cursor walks over.
    pub closed spec fn bytes(self) -> Seq<u8> {
        self.data@
    }

    /// How many bytes have been consumed.
    pub closed spec fn position(self) -> int {
        self.pos as int
    }

    /// A fresh cursor at the front of `s`.
    pub fn new(s: &'a [u8]) -> (r: Self)
        ensures
            r.bytes() == s@,
            r.position() == 0,
    {
        ReadableSlice { data: s, pos: 0 }
    }

    /// Consume one byte, or fail without moving when none is left.
    pub fn read_u8(&mut self) -> (r: Result<u8, DbError>)
        ensures
            old(self).position() < old(self).bytes().len() ==> r == Ok::<u8, DbError>(
                old(self).bytes()[old(self).position()],
            ) && final(self).position() == old(self).position() + 1,
            old(self).position() >= old(self).bytes().len() ==> r == Err::<u8, DbError>(
                DbError::TruncatedInput,
            ) && final(self).position() == old(self).position(),
            final(self).bytes() == old(self).bytes(),
    {
        if self.pos < self.data.len() {
            let b = self.data[self.pos];
            self.pos = self.pos + 1;
            Ok(b)
        } else {
            Err(DbError::TruncatedInput)
        }
    }

    /// Consume two bytes as a little-endian u16, or fail without moving.
    pub fn read_u16_le(&mut self) -> (r: Result<u16, DbError>)
        ensures
            old(self).position() + 2 <= old(self).bytes().len() ==> r == Ok::<u16, DbError>(
                le16_at(old(self).bytes(), old(self).position()),
            ) && final(self).position() == old(self).position() + 2,
            old(self).position() + 2 > old(self).bytes().len() ==> r == Err::<u16, DbError>(
                DbError::TruncatedInput,
            ) && final(self).position() == old(self).position(),
            final(self).bytes() == old(self).bytes(),
    {
        if self.pos < self.data.len() && self.data.len() - self.pos >= 2 {
            let lo = self.data[self.pos];
            let hi = self.data[self.pos + 1];
            self.pos = self.pos + 2;
            Ok(lo as u16 + (hi as u16) * 0x100)
        } else {
            Err(DbError::TruncatedInput)
        }
    }

    /// Copy bytes from the cursor into the front of `out` until either the
    /// cursor or `out` is exhausted; the count copied is returned and the
    /// cursor advances past what was copied.
    pub fn read(&mut self, out: &mut Vec<u8>) -> (r: usize)
        ensures
            r == vstd::math::min(
                old(self).bytes().len() - old(self).position(),
                old(out).len() as int,
            ),
            final(self).bytes() == old(self).bytes(),
            final(self).position() == old(self).position() + r,
            final(out).len() == old(out).len(),
            forall|j: int|
                0 <= j < r ==> final(out)[j] == old(self).bytes()[old(self).position() + j],
            forall|j: int| r <= j < old(out).len() ==> final(out)[j] == old(out)[j],
    {
        proof {
            use_type_invariant(&*self);
        }
        let available = self.data.len() - self.pos;
        let amt = if available < out.len() {
            available
        } else {
            out.len()
        };
        let mut j: usize = 0;
        while j < amt
            invariant
                j <= amt,
                amt <= out.len(),
                self.pos + amt <= self.data.len(),
                self.bytes() == old(self).bytes(),
                self.position() == old(self).position(),
                out.len() == old(out).len(),
                forall|k: int| 0 <= k < j ==> out[k] == self.bytes()[self.position() + k],
                forall|k: int| j <= k < old(out).len() ==> out[k] == old(out)[k],
            decreases amt - j,
        {
            let b = self.data[self.pos + j];
            out.set(j, b);
            j = j + 1;
        }
        self.pos = self.pos + amt;
        amt
    }
}

/// The parsed fields of a page's 9-byte header.
#[derive(Clone, Copy, Debug, PartialEq, Eq, Structural)]
pub struct PageHeader {
    /// Which of the four kinds the page is.
    pub page_type: PageType,
    /// Offset of the first freeblock inside the page.
    pub freeblock_start: u16,
    /// Number of cells held by the page.
    pub cell_count: u16,
    /// Offset at which packed cell payloads begin.
    pub cell_content_start: u16,
    /// Total free bytes in the page.
    pub total_free_bytes: u16,
}

impl PageHeader {
    /// What `parse` returns on each buffer: the tag byte is read and checked
    /// first, then the four little-endian fields; a buffer shorter than the
    /// header fails as truncated.
    pub open spec fn parse_spec(s: Seq<u8>) -> Result<PageHeader, DbError> {
        if s.len() < 1 {
            Err(DbError::TruncatedInput)
        } else {
            match PageType::parse_spec(s[0]) {
                Err(e) => Err(e),
                Ok(t) => if s.len() < HEADER_SIZE {
                    Err(DbError::TruncatedInput)
                } else {
                    Ok(
                        PageHeader {
                            page_type: t,
                            freeblock_start: le16_at(s, 1),
                            cell_count: le16_at(s, 3),
                            cell_content_start: le16_at(s, 5),
                            total_free_bytes: le16_at(s, 7),
                        },
                    )
                },
            }
        }
    }

    /// Parse the header found at the front of `bytes`.
    pub fn parse(bytes: &[u8]) -> (r: Result<Self, DbError>)
        ensures
            r == Self::parse_spec(bytes@),
    {
        let mut slice = ReadableSlice::new(bytes);
        let tag = match slice.read_u8() {
            Ok(b) => b,
            Err(e) => {
                return Err(e);
            },
        };
        let page_type = match PageType::parse(tag) {
            Ok(t) => t,
            Err(e) => {
                return Err(e);
            },
        };
        let freeblock_start = match slice.read_u16_le() {
            Ok(v) => v,
            Err(e) => {
                return Err(e);
            },
        };
        let cell_count = match slice.read_u16_le() {
            Ok(v) => v,
            Err(e) => {
                return Err(e);
            },
        };
        let cell_content_start = match slice.read_u16_le() {
            Ok(v) => v,
            Err(e) => {
                return Err(e);
            },
        };
        let total_free_bytes = match slice.read_u16_le() {
            Ok(v) => v,
            Err(e) => {
                return Err(e);
            },
        };
        Ok(
            PageHeader {
                page_type,
                freeblock_start,
                cell_count,
                cell_content_start,
                total_free_bytes,
            },
        )
    }
}

} // verus!
