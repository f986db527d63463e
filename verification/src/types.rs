//! Typed value codec. Scalars are stored as their raw little-endian bit
//! pattern (4 or 8 bytes). Blob and String values store an 8-byte
//! little-endian length prefix followed by the raw bytes. A value too large
//! to stay inline is stored as an overflow reference instead: the length
//! prefix carries the total logical length with its high bit set, and the
//! following 8 bytes name the page where the payload chain begins.
//!
//! Floating-point columns are carried as their IEEE 754 bit patterns, so the
//! codec itself never computes on floats.

use vstd::prelude::*;

use vstd::bytes::{
    spec_u32_from_le_bytes, spec_u32_to_le_bytes, spec_u64_from_le_bytes, spec_u64_to_le_bytes,
    u32_from_le_bytes, u32_to_le_bytes, u64_from_le_bytes, u64_to_le_bytes,
};
use vstd::slice::{slice_subrange, slice_to_vec};

use crate::error::DbError;

verus! {

/// High bit of a length prefix: set when the value lives on overflow pages.
pub const OVERFLOW_BIT: u64 = 0x8000000000000000;

/// Largest logical length a length prefix can carry.
pub const LENGTH_MASK: u64 = 0x7fffffffffffffff;

/// The UTF-8 encoding of a string's characters, as `str::as_bytes` returns
/// it: a function of the characters alone.
pub uninterp spec fn utf8_bytes(s: Seq<char>) -> Seq<u8>;

/// What `String::from_utf8` makes of a byte sequence: the characters when
/// the bytes are valid UTF-8, nothing otherwise. A function of the bytes
/// alone.
pub uninterp spec fn utf8_decode(b: Seq<u8>) -> Option<Seq<char>>;

/// Relies on str::as_bytes (via to_vec): the UTF-8 encoding of the string,
/// which String::from_utf8 turns back into the same string.
#[verifier::external_body]
fn str_bytes(s: &str) -> (r: Vec<u8>)
    ensures
        r@ == utf8_bytes(s@),
        utf8_decode(r@) == Some(s@),
{
    s.as_bytes().to_vec()
}

/// Relies on String::from_utf8: succeeds exactly on valid UTF-8, and the
/// string it returns is carried by exactly the input bytes.
#[verifier::external_body]
fn string_from_bytes(b: Vec<u8>) -> (r: Option<String>)
    ensures
        r is Some <==> utf8_decode(b@) is Some,
        r matches Some(s) ==> utf8_decode(b@) == Some(s@) && utf8_bytes(s@) == b@,
{
    match String::from_utf8(b) {
        Ok(s) => Some(s),
        Err(_) => None,
    }
}

/// The eight kinds of column value a cell can hold.
#[derive(Clone, Copy, Debug, PartialEq, Eq, Structural)]
pub enum Type {
    Blob,
    String,
    U64,
    U32,
    I64,
    I32,
    F32,
    F64,
}

/// A decoded value. Bytes and String hold their payload inline; the
/// overflow variants carry the page where the payload chain begins and the
/// total logical length. F32Bits and F64Bits carry IEEE 754 bit patterns.
#[derive(Debug)]
pub enum Value {
    Bytes(Vec<u8>),
    String(String),
    OverflowedBytes(u64, u64),
    OverflowedString(u64, u64),
    U64(u64),
    U32(u32),
    I64(i64),
    I32(i32),
    F32Bits(u32),
    F64Bits(u64),
}

/// The mathematical shape of a `Value`: payloads as sequences.
pub enum ValueView {
    Bytes(Seq<u8>),
    String(Seq<char>),
    OverflowedBytes(u64, u64),
    OverflowedString(u64, u64),
    U64(u64),
    U32(u32),
    I64(i64),
    I32(i32),
    F32Bits(u32),
    F64Bits(u64),
}

impl View for Value {
    type V = ValueView;

    open spec fn view(&self) -> ValueView {
        match self {
            Value::Bytes(b) => ValueView::Bytes(b@),
            Value::String(s) => ValueView::String(s@),
            Value::OverflowedBytes(page, len) => ValueView::OverflowedBytes(*page, *len),
            Value::OverflowedString(page, len) => ValueView::OverflowedString(*page, *len),
            Value::U64(n) => ValueView::U64(*n),
            Value::U32(n) => ValueView::U32(*n),
            Value::I64(n) => ValueView::I64(*n),
            Value::I32(n) => ValueView::I32(*n),
            Value::F32Bits(n) => ValueView::F32Bits(*n),
            Value::F64Bits(n) => ValueView::F64Bits(*n),
        }
    }
}

impl ValueView {
    /// Payload lengths small enough for a length prefix to carry.
    pub open spec fn wf(self) -> bool {
        match self {
            ValueView::Bytes(b) => b.len() < OVERFLOW_BIT,
            ValueView::String(c) => utf8_bytes(c).len() < OVERFLOW_BIT,
            ValueView::OverflowedBytes(_, len) => len < OVERFLOW_BIT,
            ValueView::OverflowedString(_, len) => len < OVERFLOW_BIT,
            _ => true,
        }
    }

    /// The type tag under which a value is read back.
    pub open spec fn tag_of(self) -> Type {
        match self {
            ValueView::Bytes(_) => Type::Blob,
            ValueView::OverflowedBytes(_, _) => Type::Blob,
            ValueView::String(_) => Type::String,
            ValueView::OverflowedString(_, _) => Type::String,
            ValueView::U64(_) => Type::U64,
            ValueView::U32(_) => Type::U32,
            ValueView::I64(_) => Type::I64,
            ValueView::I32(_) => Type::I32,
            ValueView::F32Bits(_) => Type::F32,
            ValueView::F64Bits(_) => Type::F64,
        }
    }
}

/// The exact byte encoding of a value.
pub open spec fn value_bytes(v: ValueView) -> Seq<u8> {
    match v {
        ValueView::U64(n) => spec_u64_to_le_bytes(n),
        ValueView::U32(n) => spec_u32_to_le_bytes(n),
        ValueView::I64(n) => spec_u64_to_le_bytes(n as u64),
        ValueView::I32(n) => spec_u32_to_le_bytes(n as u32),
        ValueView::F64Bits(n) => spec_u64_to_le_bytes(n),
        ValueView::F32Bits(n) => spec_u32_to_le_bytes(n),
        ValueView::Bytes(b) => spec_u64_to_le_bytes(b.len() as u64) + b,
        ValueView::String(c) => spec_u64_to_le_bytes(utf8_bytes(c).len() as u64) + utf8_bytes(c),
        ValueView::OverflowedBytes(page, len) => spec_u64_to_le_bytes(len | OVERFLOW_BIT)
            + spec_u64_to_le_bytes(page),
        ValueView::OverflowedString(page, len) => spec_u64_to_le_bytes(len | OVERFLOW_BIT)
            + spec_u64_to_le_bytes(page),
    }
}

/// What reading a Blob or String from the front of `s` yields: the length
/// prefix decides between an inline payload and an overflow reference.
pub open spec fn read_var_spec(s: Seq<u8>, is_string: bool) -> Result<(ValueView, nat), DbError> {
    if s.len() < 8 {
        Err(DbError::TruncatedInput)
    } else {
        let l = spec_u64_from_le_bytes(s.subrange(0, 8));
        if l >= OVERFLOW_BIT {
            if s.len() < 16 {
                Err(DbError::TruncatedInput)
            } else {
                let page = spec_u64_from_le_bytes(s.subrange(8, 16));
                let len = l & LENGTH_MASK;
                if is_string {
                    Ok((ValueView::OverflowedString(page, len), 16nat))
                } else {
                    Ok((ValueView::OverflowedBytes(page, len), 16nat))
                }
            }
        } else {
            if s.len() < 8 + l {
                Err(DbError::TruncatedInput)
            } else {
                let payload = s.subrange(8, 8 + l as int);
                if is_string {
                    match utf8_decode(payload) {
                        Some(chars) => Ok((ValueView::String(chars), (8 + l) as nat)),
                        None => Err(DbError::InvalidUtf8),
                    }
                } else {
                    Ok((ValueView::Bytes(payload), (8 + l) as nat))
                }
            }
        }
    }
}

/// What reading a value of type `t` from the front of `s` yields.
pub open spec fn read_spec(s: Seq<u8>, t: Type) -> Result<(ValueView, nat), DbError> {
    match t {
        Type::U64 => if s.len() < 8 {
            Err(DbError::TruncatedInput)
        } else {
            Ok((ValueView::U64(spec_u64_from_le_bytes(s.subrange(0, 8))), 8nat))
        },
        Type::U32 => if s.len() < 4 {
            Err(DbError::TruncatedInput)
        } else {
            Ok((ValueView::U32(spec_u32_from_le_bytes(s.subrange(0, 4))), 4nat))
        },
        Type::I64 => if s.len() < 8 {
            Err(DbError::TruncatedInput)
        } else {
            Ok((ValueView::I64(spec_u64_from_le_bytes(s.subrange(0, 8)) as i64), 8nat))
        },
        Type::I32 => if s.len() < 4 {
            Err(DbError::TruncatedInput)
        } else {
            Ok((ValueView::I32(spec_u32_from_le_bytes(s.subrange(0, 4)) as i32), 4nat))
        },
        Type::F64 => if s.len() < 8 {
            Err(DbError::TruncatedInput)
        } else {
            Ok((ValueView::F64Bits(spec_u64_from_le_bytes(s.subrange(0, 8))), 8nat))
        },
        Type::F32 => if s.len() < 4 {
            Err(DbError::TruncatedInput)
        } else {
            Ok((ValueView::F32Bits(spec_u32_from_le_bytes(s.subrange(0, 4))), 4nat))
        },
        Type::Blob => read_var_spec(s, false),
        Type::String => read_var_spec(s, true),
    }
}

impl Value {
    /// Append the encoding of this value to `buf`. For a String value the
    /// write also reports the codec's round-trip law for exactly the
    /// characters written, so a caller can finish a read-back argument.
    pub fn write_to_buf(&self, buf: &mut Vec<u8>)
        requires
            self@.wf(),
        ensures
            final(buf)@ == old(buf)@ + value_bytes(self@),
            self@ matches ValueView::String(c) ==> utf8_decode(utf8_bytes(c)) == Some(c),
    {
        match self {
            Value::U64(n) => {
                let mut b = u64_to_le_bytes(*n);
                buf.append(&mut b);
            },
            Value::U32(n) => {
                let mut b = u32_to_le_bytes(*n);
                buf.append(&mut b);
            },
            Value::I64(n) => {
                let mut b = u64_to_le_bytes(*n as u64);
                buf.append(&mut b);
            },
            Value::I32(n) => {
                let mut b = u32_to_le_bytes(*n as u32);
                buf.append(&mut b);
            },
            Value::F64Bits(n) => {
                let mut b = u64_to_le_bytes(*n);
                buf.append(&mut b);
            },
            Value::F32Bits(n) => {
                let mut b = u32_to_le_bytes(*n);
                buf.append(&mut b);
            },
            Value::Bytes(bytes) => {
                let mut p = u64_to_le_bytes(bytes.len() as u64);
                buf.append(&mut p);
                let mut c = slice_to_vec(bytes.as_slice());
                buf.append(&mut c);
                proof {
                    assert(buf@ =~= old(buf)@ + value_bytes(self@));
                }
            },
            Value::String(s) => {
                let mut c = str_bytes(s.as_str());
                let mut p = u64_to_le_bytes(c.len() as u64);
                buf.append(&mut p);
                buf.append(&mut c);
                proof {
                    assert(buf@ =~= old(buf)@ + value_bytes(self@));
                }
            },
            Value::OverflowedBytes(page, len) => {
                let mut p = u64_to_le_bytes(*len | OVERFLOW_BIT);
                buf.append(&mut p);
                let mut q = u64_to_le_bytes(*page);
                buf.append(&mut q);
                proof {
                    assert(buf@ =~= old(buf)@ + value_bytes(self@));
                }
            },
            Value::OverflowedString(page, len) => {
                let mut p = u64_to_le_bytes(*len | OVERFLOW_BIT);
                buf.append(&mut p);
                let mut q = u64_to_le_bytes(*page);
                buf.append(&mut q);
                proof {
                    assert(buf@ =~= old(buf)@ + value_bytes(self@));
                }
            },
        }
    }

    /// Whether this value's payload length fits a length prefix; true of
    /// every scalar and of every overflow reference. For a String value it
    /// also reports the codec's round-trip law for the characters held.
    pub fn fits_length_prefix(&self) -> (r: bool)
        ensures
            r == self@.wf(),
            self@ matches ValueView::String(c) ==> utf8_decode(utf8_bytes(c)) == Some(c),
    {
        match self {
            Value::Bytes(b) => (b.len() as u64) < OVERFLOW_BIT,
            Value::String(s) => {
                let c = str_bytes(s.as_str());
                (c.len() as u64) < OVERFLOW_BIT
            },
            Value::OverflowedBytes(_, len) => *len < OVERFLOW_BIT,
            Value::OverflowedString(_, len) => *len < OVERFLOW_BIT,
            Value::U64(_) => true,
            Value::U32(_) => true,
            Value::I64(_) => true,
            Value::I32(_) => true,
            Value::F32Bits(_) => true,
            Value::F64Bits(_) => true,
        }
    }

    /// Append the encoding of this value to `buf` when its payload length
    /// fits a length prefix, reporting whether it did; on refusal `buf` is
    /// left as it was.
    pub fn write_to_buf_checked(&self, buf: &mut Vec<u8>) -> (r: bool)
        ensures
            r == self@.wf(),
            r ==> final(buf)@ == old(buf)@ + value_bytes(self@),
            !r ==> final(buf)@ == old(buf)@,
            self@ matches ValueView::String(c) ==> utf8_decode(utf8_bytes(c)) == Some(c),
    {
        if self.fits_length_prefix() {
            self.write_to_buf(buf);
            true
        } else {
            false
        }
    }

    /// The length in bytes of this value's encoding.
    pub fn encoded_len(&self) -> (r: u64)
        requires
            self@.wf(),
        ensures
            r == value_bytes(self@).len(),
    {
        proof {
            vstd::bytes::lemma_auto_spec_u64_to_from_le_bytes();
            vstd::bytes::lemma_auto_spec_u32_to_from_le_bytes();
        }
        match self {
            Value::U64(_) => 8,
            Value::U32(_) => 4,
            Value::I64(_) => 8,
            Value::I32(_) => 4,
            Value::F64Bits(_) => 8,
            Value::F32Bits(_) => 4,
            Value::Bytes(bytes) => 8 + bytes.len() as u64,
            Value::String(s) => {
                let c = str_bytes(s.as_str());
                8 + c.len() as u64
            },
            Value::OverflowedBytes(_, _) => 16,
            Value::OverflowedString(_, _) => 16,
        }
    }

    /// Read one value of type `typ` from the front of `buf`; on success the
    /// value and the count of bytes consumed.
    pub fn read_from_buf(buf: &[u8], typ: Type) -> (r: Result<(Value, usize), DbError>)
        ensures
            r matches Ok(p) ==> read_spec(buf@, typ) == Ok::<(ValueView, nat), DbError>(
                (p.0@, p.1 as nat),
            ) && p.0@.wf() && p.1 <= buf@.len(),
            r matches Err(e) ==> read_spec(buf@, typ) == Err::<(ValueView, nat), DbError>(e),
    {
        proof {
            vstd::bytes::lemma_auto_spec_u64_to_from_le_bytes();
            vstd::bytes::lemma_auto_spec_u32_to_from_le_bytes();
        }
        match typ {
            Type::U64 => {
                if buf.len() < 8 {
                    return Err(DbError::TruncatedInput);
                }
                let n = u64_from_le_bytes(slice_subrange(buf, 0, 8));
                Ok((Value::U64(n), 8))
            },
            Type::U32 => {
                if buf.len() < 4 {
                    return Err(DbError::TruncatedInput);
                }
                let n = u32_from_le_bytes(slice_subrange(buf, 0, 4));
                Ok((Value::U32(n), 4))
            },
            Type::I64 => {
                if buf.len() < 8 {
                    return Err(DbError::TruncatedInput);
                }
                let n = u64_from_le_bytes(slice_subrange(buf, 0, 8));
                Ok((Value::I64(n as i64), 8))
            },
            Type::I32 => {
                if buf.len() < 4 {
                    return Err(DbError::TruncatedInput);
                }
                let n = u32_from_le_bytes(slice_subrange(buf, 0, 4));
                Ok((Value::I32(n as i32), 4))
            },
            Type::F64 => {
                if buf.len() < 8 {
                    return Err(DbError::TruncatedInput);
                }
                let n = u64_from_le_bytes(slice_subrange(buf, 0, 8));
                Ok((Value::F64Bits(n), 8))
            },
            Type::F32 => {
                if buf.len() < 4 {
                    return Err(DbError::TruncatedInput);
                }
                let n = u32_from_le_bytes(slice_subrange(buf, 0, 4));
                Ok((Value::F32Bits(n), 4))
            },
            Type::Blob => Self::read_var(buf, false),
            Type::String => Self::read_var(buf, true),
        }
    }

    /// Read a Blob or String value, whichever `is_string` says.
    fn read_var(buf: &[u8], is_string: bool) -> (r: Result<(Value, usize), DbError>)
        ensures
            r matches Ok(p) ==> read_var_spec(buf@, is_string) == Ok::<(ValueView, nat), DbError>(
                (p.0@, p.1 as nat),
            ) && p.0@.wf() && p.1 <= buf@.len(),
            r matches Err(e) ==> read_var_spec(buf@, is_string) == Err::<(ValueView, nat), DbError>(
                e,
            ),
    {
        proof {
            vstd::bytes::lemma_auto_spec_u64_to_from_le_bytes();
        }
        if buf.len() < 8 {
            return Err(DbError::TruncatedInput);
        }
        let l = u64_from_le_bytes(slice_subrange(buf, 0, 8));
        if l >= OVERFLOW_BIT {
            if buf.len() < 16 {
                return Err(DbError::TruncatedInput);
            }
            let page = u64_from_le_bytes(slice_subrange(buf, 8, 16));
            let len = l & LENGTH_MASK;
            proof {
                assert(l & LENGTH_MASK < OVERFLOW_BIT) by (bit_vector);
            }
            if is_string {
                Ok((Value::OverflowedString(page, len), 16))
            } else {
                Ok((Value::OverflowedBytes(page, len), 16))
            }
        } else {
            if (buf.len() as u64) < 8 + l {
                return Err(DbError::TruncatedInput);
            }
            let end = (8 + l) as usize;
            let content = slice_to_vec(slice_subrange(buf, 8, end));
            if is_string {
                match string_from_bytes(content) {
                    Some(s) => Ok((Value::String(s), end)),
                    None => Err(DbError::InvalidUtf8),
                }
            } else {
                Ok((Value::Bytes(content), end))
            }
        }
    }
}

/// A window into a buffer that begins with `p` agrees with the same window
/// into `p`.
proof fn lemma_prefix_segment(s: Seq<u8>, p: Seq<u8>, i: int, j: int)
    requires
        0 <= i <= j <= p.len() <= s.len(),
        s.subrange(0, p.len() as int) == p,
    ensures
        s.subrange(i, j) == p.subrange(i, j),
{
    assert forall|k: int| 0 <= k < j - i implies s.subrange(i, j)[k] == p.subrange(i, j)[k] by {
        assert(s[i + k] == s.subrange(0, p.len() as int)[i + k]);
    }
    assert(s.subrange(i, j) =~= p.subrange(i, j));
}

/// Round trip: reading a buffer that begins with the encoding of a
/// well-formed value, under the value's own type tag, yields exactly that
/// value and consumes exactly its encoding, whatever follows it. For a
/// String the premise states what the UTF-8 codec guarantees of every
/// string it encodes, which lives outside this crate; the write path
/// (`write_to_buf` and its checked variant) reports that fact for the
/// characters it writes, so callers can discharge the premise.
pub proof fn lemma_value_round_trip(v: ValueView, s: Seq<u8>)
    requires
        v.wf(),
        value_bytes(v).len() <= s.len(),
        s.subrange(0, value_bytes(v).len() as int) == value_bytes(v),
        v matches ValueView::String(c) ==> utf8_decode(utf8_bytes(c)) == Some(c),
    ensures
        read_spec(s, v.tag_of()) == Ok::<(ValueView, nat), DbError>(
            (v, value_bytes(v).len() as nat),
        ),
{
    vstd::bytes::lemma_auto_spec_u64_to_from_le_bytes();
    vstd::bytes::lemma_auto_spec_u32_to_from_le_bytes();
    let vb = value_bytes(v);
    match v {
        ValueView::U64(n) => {
            assert(s.subrange(0, 8) =~= vb);
        },
        ValueView::U32(n) => {
            assert(s.subrange(0, 4) =~= vb);
        },
        ValueView::I64(n) => {
            assert(s.subrange(0, 8) =~= vb);
            assert((n as u64) as i64 == n) by (bit_vector);
        },
        ValueView::I32(n) => {
            assert(s.subrange(0, 4) =~= vb);
            assert((n as u32) as i32 == n) by (bit_vector);
        },
        ValueView::F64Bits(n) => {
            assert(s.subrange(0, 8) =~= vb);
        },
        ValueView::F32Bits(n) => {
            assert(s.subrange(0, 4) =~= vb);
        },
        ValueView::Bytes(b) => {
            lemma_prefix_segment(s, vb, 0, 8);
            assert(vb.subrange(0, 8) =~= spec_u64_to_le_bytes(b.len() as u64));
            lemma_prefix_segment(s, vb, 8, 8 + b.len() as int);
            assert(vb.subrange(8, 8 + b.len() as int) =~= b);
        },
        ValueView::String(c) => {
            let cb = utf8_bytes(c);
            lemma_prefix_segment(s, vb, 0, 8);
            assert(vb.subrange(0, 8) =~= spec_u64_to_le_bytes(cb.len() as u64));
            lemma_prefix_segment(s, vb, 8, 8 + cb.len() as int);
            assert(vb.subrange(8, 8 + cb.len() as int) =~= cb);
        },
        ValueView::OverflowedBytes(page, len) => {
            assert(len | OVERFLOW_BIT >= OVERFLOW_BIT) by (bit_vector);
            assert((len | 0x8000000000000000u64) & 0x7fffffffffffffffu64 == len) by (bit_vector)
                requires
                    len < 0x8000000000000000u64,
            ;
            lemma_prefix_segment(s, vb, 0, 8);
            assert(vb.subrange(0, 8) =~= spec_u64_to_le_bytes(len | OVERFLOW_BIT));
            lemma_prefix_segment(s, vb, 8, 16);
            assert(vb.subrange(8, 16) =~= spec_u64_to_le_bytes(page));
        },
        ValueView::OverflowedString(page, len) => {
            assert(len | OVERFLOW_BIT >= OVERFLOW_BIT) by (bit_vector);
            assert((len | 0x8000000000000000u64) & 0x7fffffffffffffffu64 == len) by (bit_vector)
                requires
                    len < 0x8000000000000000u64,
            ;
            lemma_prefix_segment(s, vb, 0, 8);
            assert(vb.subrange(0, 8) =~= spec_u64_to_le_bytes(len | OVERFLOW_BIT));
            lemma_prefix_segment(s, vb, 8, 16);
            assert(vb.subrange(8, 16) =~= spec_u64_to_le_bytes(page));
        },
    }
}

} // verus!
