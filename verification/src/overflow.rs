//! Overflow pages: the spill representation for values too large to stay
//! inline. A value's payload is cut into a singly-linked chain of dedicated
//! pages. Concrete layout, held to by both the builder and the resolver:
//! bytes 0..8 of an overflow page are the next page id, little-endian, with
//! `u64::MAX` as the terminal sentinel; the rest of the page is payload.
//! The reader follows the chain until the total logical length is
//! satisfied, and fails on a cycle instead of looping.

use vstd::prelude::*;

use vstd::bytes::{spec_u64_from_le_bytes, spec_u64_to_le_bytes, u64_from_le_bytes, u64_to_le_bytes};
use vstd::slice::{slice_subrange, slice_to_vec};

use crate::btree::views_of;
use crate::error::DbError;

verus! {

/// The terminal sentinel in an overflow page's next-pointer field.
pub const CHAIN_END: u64 = 0xffffffffffffffff;

/// Resolving `remaining` payload bytes from the chain starting at `id`:
/// each page yields what it holds, at most its capacity, and the walk
/// follows next pointers until the length is satisfied. Exhausted fuel
/// means the chain has a cycle.
pub open spec fn resolve_spec(pages: Seq<Seq<u8>>, id: u64, remaining: nat, fuel: nat) -> Result<
    Seq<u8>,
    DbError,
>
    decreases fuel,
{
    if remaining == 0 {
        Ok(Seq::<u8>::empty())
    } else if fuel == 0 {
        Err(DbError::StructuralCorruption)
    } else if id >= pages.len() {
        Err(DbError::PageOutOfBounds)
    } else {
        let p = pages[id as int];
        if p.len() < 9 {
            Err(DbError::TruncatedInput)
        } else {
            let cap = (p.len() - 8) as nat;
            let take = if remaining < cap {
                remaining
            } else {
                cap
            };
            let chunk = p.subrange(8, 8 + take as int);
            let next = spec_u64_from_le_bytes(p.subrange(0, 8));
            if take == remaining {
                Ok(chunk)
            } else if next == CHAIN_END {
                Err(DbError::TruncatedInput)
            } else {
                match resolve_spec(pages, next, (remaining - take) as nat, (fuel - 1) as nat) {
                    Ok(rest) => Ok(chunk + rest),
                    Err(e) => Err(e),
                }
            }
        }
    }
}

/// Follow the overflow chain starting at `start` until `total_len` payload
/// bytes are gathered; a cyclic chain fails with `StructuralCorruption`
/// once every page has been walked through.
pub fn resolve_overflow(pages: &Vec<Vec<u8>>, start: u64, total_len: usize) -> (r: Result<
    Vec<u8>,
    DbError,
>)
    requires
        pages@.len() < usize::MAX,
    ensures
        r matches Ok(v) ==> resolve_spec(
            views_of(pages@),
            start,
            total_len as nat,
            (pages@.len() + 1) as nat,
        ) == Ok::<Seq<u8>, DbError>(v@),
        r matches Err(e) ==> resolve_spec(
            views_of(pages@),
            start,
            total_len as nat,
            (pages@.len() + 1) as nat,
        ) == Err::<Seq<u8>, DbError>(e),
{
    let fuel = pages.len() + 1;
    resolve_from(pages, start, total_len, fuel)
}

/// One chain step and its recursion, mirroring `resolve_spec`.
fn resolve_from(pages: &Vec<Vec<u8>>, id: u64, remaining: usize, fuel: usize) -> (r: Result<
    Vec<u8>,
    DbError,
>)
    ensures
        r matches Ok(v) ==> resolve_spec(views_of(pages@), id, remaining as nat, fuel as nat)
            == Ok::<Seq<u8>, DbError>(v@),
        r matches Err(e) ==> resolve_spec(views_of(pages@), id, remaining as nat, fuel as nat)
            == Err::<Seq<u8>, DbError>(e),
    decreases fuel,
{
    let ghost views = views_of(pages@);
    if remaining == 0 {
        let v: Vec<u8> = Vec::new();
        proof {
            assert(v@ =~= Seq::<u8>::empty());
        }
        Ok(v)
    } else if fuel == 0 {
        Err(DbError::StructuralCorruption)
    } else if id >= pages.len() as u64 {
        Err(DbError::PageOutOfBounds)
    } else {
        proof {
            assert(views[id as int] == pages@[id as int]@);
        }
        let p = &pages[id as usize];
        if p.len() < 9 {
            Err(DbError::TruncatedInput)
        } else {
            let cap = p.len() - 8;
            let take = if remaining < cap {
                remaining
            } else {
                cap
            };
            let mut chunk = slice_to_vec(slice_subrange(p.as_slice(), 8, 8 + take));
            let next = u64_from_le_bytes(slice_subrange(p.as_slice(), 0, 8));
            if take == remaining {
                Ok(chunk)
            } else if next == CHAIN_END {
                Err(DbError::TruncatedInput)
            } else {
                match resolve_from(pages, next, remaining - take, fuel - 1) {
                    Ok(mut rest) => {
                        chunk.append(&mut rest);
                        Ok(chunk)
                    },
                    Err(e) => Err(e),
                }
            }
        }
    }
}

/// The chain pages carry exactly `payload`, in order, when placed at
/// consecutive page ids from `start`: every page is `page_size` bytes, each
/// next pointer names its successor, the last holds the terminal sentinel,
/// and the payload bytes stand behind the pointers.
pub open spec fn chain_carries(
    chain: Seq<Seq<u8>>,
    payload: Seq<u8>,
    start: u64,
    page_size: nat,
) -> bool
    decreases chain.len(),
{
    if chain.len() == 0 {
        payload.len() == 0
    } else {
        let p = chain[0];
        let cap = page_size - 8;
        &&& p.len() == page_size
        &&& payload.len() > 0
        &&& if payload.len() <= cap {
            &&& chain.len() == 1
            &&& p.subrange(0, 8) == spec_u64_to_le_bytes(CHAIN_END)
            &&& p.subrange(8, 8 + payload.len() as int) == payload
        } else {
            &&& p.subrange(0, 8) == spec_u64_to_le_bytes((start + 1) as u64)
            &&& p.subrange(8, page_size as int) == payload.subrange(0, cap as int)
            &&& chain_carries(
                chain.subrange(1, chain.len() as int),
                payload.subrange(cap as int, payload.len() as int),
                (start + 1) as u64,
                page_size,
            )
        }
    }
}

/// Round trip: a chain that carries `payload`, placed in a store at the
/// consecutive page ids its next pointers name, resolves back to exactly
/// `payload` whenever the walk is allowed at least one step per chain page.
pub proof fn lemma_chain_round_trip(
    store: Seq<Seq<u8>>,
    chain: Seq<Seq<u8>>,
    payload: Seq<u8>,
    start: u64,
    page_size: nat,
    fuel: nat,
)
    requires
        page_size >= 9,
        chain_carries(chain, payload, start, page_size),
        start + chain.len() <= store.len(),
        start + chain.len() <= CHAIN_END,
        forall|i: int| 0 <= i < chain.len() ==> store[start + i] == chain[i],
        fuel >= chain.len(),
    ensures
        resolve_spec(store, start, payload.len(), fuel) == Ok::<Seq<u8>, DbError>(payload),
    decreases chain.len(),
{
    vstd::bytes::lemma_auto_spec_u64_to_from_le_bytes();
    if chain.len() == 0 {
        assert(Seq::<u8>::empty() =~= payload);
    } else {
        let p = chain[0];
        assert(store[start as int] == p);
        let cap = (page_size - 8) as nat;
        if payload.len() <= cap {
            assert(p.subrange(8, 8 + payload.len() as int) == payload);
        } else {
            let next = spec_u64_from_le_bytes(p.subrange(0, 8));
            assert(p.subrange(0, 8) == spec_u64_to_le_bytes((start + 1) as u64));
            assert(next == (start + 1) as u64);
            let chain2 = chain.subrange(1, chain.len() as int);
            let payload2 = payload.subrange(cap as int, payload.len() as int);
            assert(chain2.len() != 0) by {
                if chain2.len() == 0 {
                    assert(chain_carries(chain2, payload2, (start + 1) as u64, page_size));
                    assert(payload2.len() == 0);
                }
            }
            assert(next != CHAIN_END);
            assert forall|i: int| 0 <= i < chain2.len() implies store[next + i] == chain2[i] by {
                assert(chain2[i] == chain[i + 1]);
                assert(store[start + (i + 1)] == chain[i + 1]);
            }
            lemma_chain_round_trip(
                store,
                chain2,
                payload2,
                (start + 1) as u64,
                page_size,
                (fuel - 1) as nat,
            );
            assert(payload.subrange(0, cap as int) + payload2 =~= payload);
        }
    }
}

/// Whether `rem` payload bytes fit in a chain of pages of capacity `cap`
/// starting at page id `id`: every page but the last needs a successor id
/// below the terminal sentinel.
pub open spec fn chain_fits(rem: nat, cap: nat, id: u64) -> bool
    decreases rem,
{
    if rem == 0 {
        true
    } else if cap == 0 {
        false
    } else if rem <= cap {
        true
    } else {
        id < CHAIN_END - 1 && chain_fits((rem - cap) as nat, cap, (id + 1) as u64)
    }
}

/// Cut `payload` into an overflow chain of `page_size`-byte pages meant to
/// live at consecutive ids `start`, `start + 1`, ...; the unused tail of
/// the last page is zero-filled. Succeeds exactly when a page can hold its
/// next pointer and at least one payload byte and the chain's ids stay
/// below the terminal sentinel.
pub fn build_overflow_chain(payload: &[u8], page_size: usize, start: u64) -> (r: Result<
    Vec<Vec<u8>>,
    DbError,
>)
    ensures
        page_size < 9 ==> r == Err::<Vec<Vec<u8>>, DbError>(DbError::SizeMismatch),
        page_size >= 9 ==> (r is Ok <==> chain_fits(
            payload@.len(),
            (page_size - 8) as nat,
            start,
        )),
        page_size >= 9 && r is Err ==> r == Err::<Vec<Vec<u8>>, DbError>(
            DbError::OffsetOverflow,
        ),
        r matches Ok(chain) ==> chain_carries(
            views_of(chain@),
            payload@,
            start,
            page_size as nat,
        ),
{
    if page_size < 9 {
        return Err(DbError::SizeMismatch);
    }
    proof {
        assert(payload@.subrange(0, payload@.len() as int) =~= payload@);
    }
    build_from(payload, 0, page_size, start)
}

/// Build the chain for `payload[from..]` at ids `id`, `id + 1`, ...
fn build_from(payload: &[u8], from: usize, page_size: usize, id: u64) -> (r: Result<
    Vec<Vec<u8>>,
    DbError,
>)
    requires
        page_size >= 9,
        from <= payload@.len(),
    ensures
        r is Ok <==> chain_fits((payload@.len() - from) as nat, (page_size - 8) as nat, id),
        r is Err ==> r == Err::<Vec<Vec<u8>>, DbError>(DbError::OffsetOverflow),
        r matches Ok(chain) ==> chain_carries(
            views_of(chain@),
            payload@.subrange(from as int, payload@.len() as int),
            id,
            page_size as nat,
        ),
    decreases payload@.len() - from,
{
    let ghost goal = payload@.subrange(from as int, payload@.len() as int);
    if payload.len() == from {
        let r: Vec<Vec<u8>> = Vec::new();
        proof {
            assert(views_of(r@) =~= Seq::<Seq<u8>>::empty());
        }
        return Ok(r);
    }
    let cap = page_size - 8;
    let rem = payload.len() - from;
    let last = rem <= cap;
    if !last && id >= CHAIN_END - 1 {
        return Err(DbError::OffsetOverflow);
    }
    let next: u64 = if last {
        CHAIN_END
    } else {
        id + 1
    };
    let take = if last {
        rem
    } else {
        cap
    };
    let mut page = u64_to_le_bytes(next);
    let mut chunk = slice_to_vec(slice_subrange(payload, from, from + take));
    page.append(&mut chunk);
    while page.len() < page_size
        invariant
            page@.len() >= 8 + take,
            page@.len() <= page_size,
            page@.subrange(0, 8) == spec_u64_to_le_bytes(next),
            page@.subrange(8, 8 + take) == payload@.subrange(from as int, from + take),
        decreases page_size - page@.len(),
    {
        let ghost before = page@;
        page.push(0);
        proof {
            assert(page@.subrange(0, 8) =~= before.subrange(0, 8));
            assert(page@.subrange(8, 8 + take) =~= before.subrange(8, 8 + take));
        }
    }
    if last {
        let mut out: Vec<Vec<u8>> = Vec::new();
        out.push(page);
        proof {
            let views = views_of(out@);
            assert(views.len() == 1);
            assert(views[0] == out@[0]@);
            assert(views[0].subrange(8, 8 + goal.len() as int) =~= goal);
        }
        return Ok(out);
    }
    match build_from(payload, from + take, page_size, id + 1) {
        Err(e) => Err(e),
        Ok(rest) => {
            let mut out: Vec<Vec<u8>> = Vec::new();
            out.push(page);
            let mut rest_pages = rest;
            out.append(&mut rest_pages);
            proof {
                let views = views_of(out@);
                assert(views[0] == out@[0]@);
                assert(views.subrange(1, views.len() as int) =~= views_of(
                    out@.subrange(1, out@.len() as int),
                ));
                assert(out@.subrange(1, out@.len() as int) =~= rest@);
                assert(goal.subrange(cap as int, goal.len() as int) =~= payload@.subrange(
                    from + take,
                    payload@.len() as int,
                ));
                assert(views[0].subrange(8, page_size as int) =~= goal.subrange(0, cap as int));
            }
            Ok(out)
        },
    }
}

} // verus!
