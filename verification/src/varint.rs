//! Variable-length unsigned integer codec: little-endian base-128 groups,
//! least-significant first; every byte except the last carries a continuation
//! bit (the high bit). Value 0 encodes as a single zero byte. An encoding is
//! at most 10 bytes long; a decoder that consumes 10 bytes without finding a
//! terminator rejects the input as malformed.

use vstd::prelude::*;

verus! {

/// Number of bytes in the encoding of `v`.
pub open spec fn varint_len(v: u64) -> nat
    decreases v,
{
    if v < 0x80 {
        1
    } else {
        1 + varint_len(v / 0x80)
    }
}

/// The encoding of `v`: low 7 bits first, continuation bit on every byte but
/// the last.
pub open spec fn varint_bytes(v: u64) -> Seq<u8>
    decreases v,
{
    if v < 0x80 {
        seq![v as u8]
    } else {
        seq![(v % 0x80 + 0x80) as u8] + varint_bytes(v / 0x80)
    }
}

/// Decoding a varint from the front of `s` with `budget` bytes still allowed:
/// the value and the number of bytes consumed, or nothing when the buffer is
/// exhausted or the budget runs out before a terminator byte. Bits shifted
/// past position 63 are discarded, as the 64-bit accumulator loses them.
pub open spec fn varint_decode_rec(s: Seq<u8>, budget: nat) -> Option<(u64, nat)>
    decreases budget,
{
    if budget == 0 || s.len() == 0 {
        None
    } else if s[0] < 0x80 {
        Some((s[0] as u64, 1nat))
    } else {
        match varint_decode_rec(s.subrange(1, s.len() as int), (budget - 1) as nat) {
            Some(p) => Some(((((s[0] - 0x80) as u64) | (p.0 << 7)) as u64, p.1 + 1)),
            None => None,
        }
    }
}

/// Decoding a varint from the front of `s`: at most 10 bytes are examined.
pub open spec fn varint_decode(s: Seq<u8>) -> Option<(u64, nat)> {
    varint_decode_rec(s, 10)
}

/// A `u64` together with its compact encoding and the matching decoder.
#[derive(Clone, Copy, Debug, Hash, PartialEq, Eq, PartialOrd, Ord, Structural)]
pub struct varint(pub u64);

impl varint {
    /// Encode `self.0`; the encoding occupies the first `r.1` bytes of `r.0`.
    pub fn encode_varint(self) -> (r: ([u8; 10], usize))
        ensures
            r.1 == varint_len(self.0),
            1 <= r.1 <= 10,
            r.0@.subrange(0, r.1 as int) == varint_bytes(self.0),
    {
        let mut value: u64 = self.0;
        let mut index: usize = 0;
        let mut buf: [u8; 10] = [0u8; 10];
        proof {
            lemma_varint_len_le_10(self.0);
            lemma_varint_bytes_len(self.0);
            assert(varint_bytes(self.0) == buf@.subrange(0, 0int) + varint_bytes(value));
        }
        while value >= 0x80
            invariant
                index + varint_len(value) == varint_len(self.0),
                varint_len(self.0) <= 10,
                varint_bytes(self.0) == buf@.subrange(0, index as int) + varint_bytes(value),
            decreases value,
        {
            let byte: u8 = (value % 0x80 + 0x80) as u8;
            buf[index] = byte;
            proof {
                lemma_varint_bytes_len(value);
                assert(buf@.subrange(0, index as int + 1) == buf@.subrange(0, index as int).push(
                    byte,
                ));
                assert(buf@.subrange(0, index as int).push(byte) + varint_bytes(value / 0x80)
                    =~= buf@.subrange(0, index as int) + varint_bytes(value));
            }
            index = index + 1;
            value = value / 0x80;
        }
        buf[index] = value as u8;
        proof {
            assert(varint_bytes(value) == seq![value as u8]);
            assert(buf@.subrange(0, index as int + 1) == buf@.subrange(0, index as int).push(
                value as u8,
            ));
            assert(buf@.subrange(0, index as int + 1) =~= varint_bytes(self.0));
        }
        index = index + 1;
        (buf, index)
    }

    /// Decode a varint from the front of `buf`: the value and the bytes
    /// consumed, or `None` when `buf` runs out, or holds 10 continuation
    /// bytes with no terminator, before a terminator byte appears.
    pub fn decode_varint(buf: &[u8]) -> (r: Option<(u64, usize)>)
        ensures
            r is Some <==> varint_decode(buf@) is Some,
            r matches Some(p) ==> varint_decode(buf@) == Some((p.0, p.1 as nat)) && p.1 <= 10,
    {
        proof {
            assert(buf@.subrange(0int, buf@.len() as int) =~= buf@);
        }
        Self::decode_from(buf, 0, 10)
    }

    /// Decode starting at `start` with `budget` bytes still allowed; the
    /// count returned is relative to `start`.
    fn decode_from(buf: &[u8], start: usize, budget: u64) -> (r: Option<(u64, usize)>)
        requires
            start <= buf@.len(),
            budget <= 10,
        ensures
            r is Some <==> varint_decode_rec(buf@.subrange(start as int, buf@.len() as int),
                budget as nat,
            ) is Some,
            r matches Some(p) ==> varint_decode_rec(
                buf@.subrange(start as int, buf@.len() as int),
                budget as nat,
            ) == Some((p.0, p.1 as nat)) && p.1 <= budget,
        decreases budget,
    {
        let ghost s = buf@.subrange(start as int, buf@.len() as int);
        if budget == 0 || start >= buf.len() {
            None
        } else {
            let b = buf[start];
            if b < 0x80 {
                Some((b as u64, 1))
            } else {
                proof {
                    assert(s.subrange(1, s.len() as int) =~= buf@.subrange(
                        start as int + 1,
                        buf@.len() as int,
                    ));
                }
                match Self::decode_from(buf, start + 1, budget - 1) {
                    None => None,
                    Some((v, n)) => Some((((b - 0x80) as u64) | (v << 7u64), n + 1)),
                }
            }
        }
    }
}

/// The encoding's length is what `varint_len` says.
pub proof fn lemma_varint_bytes_len(v: u64)
    ensures
        varint_bytes(v).len() == varint_len(v),
    decreases v,
{
    if v >= 0x80 {
        lemma_varint_bytes_len(v / 0x80);
    }
}

/// No `u64` needs more than 10 base-128 groups.
pub proof fn lemma_varint_len_le_10(v: u64)
    ensures
        varint_len(v) <= 10,
{
    let v1 = v / 0x80;
    let v2 = v1 / 0x80;
    let v3 = v2 / 0x80;
    let v4 = v3 / 0x80;
    let v5 = v4 / 0x80;
    let v6 = v5 / 0x80;
    let v7 = v6 / 0x80;
    let v8 = v7 / 0x80;
    let v9 = v8 / 0x80;
    assert(v9 < 0x80);
    reveal_with_fuel(varint_len, 11);
}

/// Every byte of an encoding but the last has the continuation bit set, and
/// the last does not.
pub proof fn lemma_varint_bytes_shape(v: u64)
    ensures
        forall|j: int|
            0 <= j < varint_bytes(v).len() - 1 ==> varint_bytes(v)[j] >= 0x80,
        varint_bytes(v)[varint_bytes(v).len() - 1] < 0x80,
    decreases v,
{
    if v >= 0x80 {
        lemma_varint_bytes_shape(v / 0x80);
    }
}

proof fn lemma_round_trip_rec(v: u64, s: Seq<u8>, budget: nat)
    requires
        varint_bytes(v).len() <= s.len(),
        s.subrange(0, varint_bytes(v).len() as int) == varint_bytes(v),
        budget >= varint_len(v),
    ensures
        varint_decode_rec(s, budget) == Some((v, varint_len(v))),
    decreases v,
{
    lemma_varint_bytes_len(v);
    if v < 0x80 {
        assert(s[0] == varint_bytes(v)[0]);
        assert(s[0] == v as u8);
    } else {
        lemma_varint_bytes_len(v / 0x80);
        let rest = s.subrange(1, s.len() as int);
        assert(rest.subrange(0, varint_bytes(v / 0x80).len() as int) =~= varint_bytes(v / 0x80))
            by {
            assert forall|j: int| 0 <= j < varint_bytes(v / 0x80).len() implies rest[j]
                == varint_bytes(v / 0x80)[j] by {
                assert(rest[j] == s[j + 1]);
                assert(s[j + 1] == varint_bytes(v)[j + 1]);
            }
        }
        lemma_round_trip_rec(v / 0x80, rest, (budget - 1) as nat);
        assert(s[0] == varint_bytes(v)[0]);
        assert(s[0] == (v % 0x80 + 0x80) as u8);
        assert((s[0] - 0x80) as u64 == (v % 0x80) as u64);
        assert(((v % 0x80) as u64) | (((v / 0x80) as u64) << 7u64) == v) by (bit_vector);
    }
}

/// Round trip: decoding a buffer that begins with the encoding of `v` yields
/// exactly `v` and consumes exactly the encoding, whatever follows it.
pub proof fn lemma_varint_round_trip(v: u64, s: Seq<u8>)
    requires
        varint_bytes(v).len() <= s.len(),
        s.subrange(0, varint_bytes(v).len() as int) == varint_bytes(v),
    ensures
        varint_decode(s) == Some((v, varint_len(v))),
        varint_len(v) == varint_bytes(v).len(),
        1 <= varint_len(v) <= 10,
{
    lemma_varint_bytes_len(v);
    lemma_varint_len_le_10(v);
    lemma_round_trip_rec(v, s, 10);
}

} // verus!
