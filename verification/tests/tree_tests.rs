//! B-tree lookup scenarios, lock bookkeeping cycles, page offsets and
//! overflow chains on concrete stores.

use pagestore::btree::{BTree, FindStep};
use pagestore::error::DbError;
use pagestore::overflow::{build_overflow_chain, resolve_overflow};
use pagestore::pager::{
    on_acquire_observed, on_release_observed, page_io_offset, AcquireDecision, LockTable,
    ReleaseDecision,
};
use pagestore::varint::varint;

const PAGE_SIZE: usize = 256;

fn put_u16(page: &mut [u8], at: usize, v: u16) {
    page[at] = (v & 0xff) as u8;
    page[at + 1] = (v >> 8) as u8;
}

/// A leaf-table page holding one cell per key, each cell a varint key
/// followed by a two-byte payload.
fn leaf_page(keys: &[u64]) -> Vec<u8> {
    let mut page = vec![0u8; PAGE_SIZE];
    page[0] = 3;
    put_u16(&mut page, 3, keys.len() as u16);
    let mut end = PAGE_SIZE;
    for (i, key) in keys.iter().enumerate() {
        let (kb, klen) = varint(*key).encode_varint();
        let cell_len = klen + 2;
        end -= cell_len;
        page[end..end + klen].copy_from_slice(&kb[..klen]);
        page[end + klen] = 0xab;
        page[end + klen + 1] = 0xcd;
        put_u16(&mut page, 9 + 2 * i, end as u16);
    }
    put_u16(&mut page, 5, end as u16);
    page
}

/// An interior-table page holding one routing cell per entry: a varint
/// separator (the greatest key routed to the child) then the child id.
fn interior_page(routes: &[(u64, u64)]) -> Vec<u8> {
    let mut page = vec![0u8; PAGE_SIZE];
    page[0] = 1;
    put_u16(&mut page, 3, routes.len() as u16);
    let mut end = PAGE_SIZE;
    for (i, (sep, child)) in routes.iter().enumerate() {
        let (kb, klen) = varint(*sep).encode_varint();
        let cell_len = klen + 8;
        end -= cell_len;
        page[end..end + klen].copy_from_slice(&kb[..klen]);
        page[end + klen..end + klen + 8].copy_from_slice(&child.to_le_bytes());
        put_u16(&mut page, 9 + 2 * i, end as u16);
    }
    put_u16(&mut page, 5, end as u16);
    page
}

fn cell_offset_of(page: &[u8], i: usize) -> u16 {
    page[9 + 2 * i] as u16 | ((page[10 + 2 * i] as u16) << 8)
}

#[test]
fn lookup_single_leaf_page() {
    let leaf = leaf_page(&[10, 20, 30]);
    let expected = cell_offset_of(&leaf, 1);
    let pages = vec![leaf];
    let tree = BTree::new(0);
    assert_eq!(tree.find(&pages, 20).unwrap(), Some((0, expected)));
    assert_eq!(tree.find(&pages, 15).unwrap(), None);
}

#[test]
fn lookup_through_interior_page() {
    let root = interior_page(&[(49, 1), (u64::MAX, 2)]);
    let leaf_a = leaf_page(&[10, 20, 30]);
    let leaf_b = leaf_page(&[50, 70, 90]);
    let expected = cell_offset_of(&leaf_b, 1);
    let pages = vec![root, leaf_a, leaf_b];
    let tree = BTree::new(0);
    assert_eq!(tree.find(&pages, 70).unwrap(), Some((2, expected)));
    assert_eq!(tree.find(&pages, 60).unwrap(), None);
    let expected_a = cell_offset_of(&pages[1], 0);
    assert_eq!(tree.find(&pages, 10).unwrap(), Some((1, expected_a)));
}

#[test]
fn lookup_cycle_fails_with_corruption() {
    let root = interior_page(&[(u64::MAX, 1)]);
    let back_edge = interior_page(&[(u64::MAX, 0)]);
    let pages = vec![root, back_edge];
    let tree = BTree::new(0);
    assert_eq!(tree.find(&pages, 5).unwrap_err(), DbError::StructuralCorruption);
}

#[test]
fn lookup_self_cycle_fails_with_corruption() {
    let own_ancestor = interior_page(&[(u64::MAX, 0)]);
    let pages = vec![own_ancestor];
    let tree = BTree::new(0);
    assert_eq!(tree.find(&pages, 1).unwrap_err(), DbError::StructuralCorruption);
}

#[test]
fn lookup_missing_page_fails() {
    let root = interior_page(&[(u64::MAX, 9)]);
    let pages = vec![root];
    let tree = BTree::new(0);
    assert_eq!(tree.find(&pages, 1).unwrap_err(), DbError::PageOutOfBounds);
}

#[test]
fn lookup_bad_page_type_fails() {
    let mut page = leaf_page(&[1]);
    page[0] = 9;
    let pages = vec![page];
    let tree = BTree::new(0);
    assert_eq!(tree.find(&pages, 1).unwrap_err(), DbError::InvalidPageType);
}

#[test]
fn lookup_malformed_cell_varint_fails() {
    let mut page = vec![0u8; PAGE_SIZE];
    page[0] = 3;
    put_u16(&mut page, 3, 1);
    put_u16(&mut page, 9, (PAGE_SIZE - 10) as u16);
    for b in &mut page[PAGE_SIZE - 10..] {
        *b = 0x80;
    }
    let tree = BTree::new(0);
    assert_eq!(
        tree.find(&vec![page], 1).unwrap_err(),
        DbError::MalformedVarint
    );
}

#[test]
fn lookup_cell_pointer_past_end_fails() {
    let mut page = vec![0u8; PAGE_SIZE];
    page[0] = 3;
    put_u16(&mut page, 3, 1);
    put_u16(&mut page, 9, PAGE_SIZE as u16);
    let tree = BTree::new(0);
    assert_eq!(
        tree.find(&vec![page], 1).unwrap_err(),
        DbError::TruncatedInput
    );
}

#[test]
fn find_step_reports_descent() {
    let root = interior_page(&[(49, 1), (u64::MAX, 2)]);
    assert_eq!(BTree::find_step(&root, 12).unwrap(), FindStep::Descend(1));
    assert_eq!(BTree::find_step(&root, 50).unwrap(), FindStep::Descend(2));
    let leaf = leaf_page(&[4, 8]);
    let off = cell_offset_of(&leaf, 1);
    assert_eq!(BTree::find_step(&leaf, 8).unwrap(), FindStep::FoundAt(off));
    assert_eq!(BTree::find_step(&leaf, 9).unwrap(), FindStep::NotFound);
}

#[test]
fn lock_table_balanced_cycles_leave_nothing() {
    let mut table = LockTable::new();
    for _ in 0..100 {
        table.acquire(17);
        assert_eq!(table.refcount_of(17), Some(1));
        table.release(17);
        assert_eq!(table.refcount_of(17), None);
    }
    assert_eq!(table.entry_count(), 0);
}

#[test]
fn lock_table_counts_nested_guards() {
    let mut table = LockTable::new();
    table.acquire(5);
    table.acquire(5);
    table.acquire(5);
    assert_eq!(table.refcount_of(5), Some(3));
    assert_eq!(table.entry_count(), 1);
    table.release(5);
    assert_eq!(table.refcount_of(5), Some(2));
    table.release(5);
    table.release(5);
    assert_eq!(table.refcount_of(5), None);
    assert_eq!(table.entry_count(), 0);
}

#[test]
fn lock_table_pages_are_independent() {
    let mut table = LockTable::new();
    table.acquire(1);
    table.acquire(2);
    table.acquire(2);
    assert_eq!(table.refcount_of(1), Some(1));
    assert_eq!(table.refcount_of(2), Some(2));
    table.release(2);
    assert_eq!(table.refcount_of(1), Some(1));
    assert_eq!(table.refcount_of(2), Some(1));
    table.release(1);
    assert_eq!(table.refcount_of(2), Some(1));
    assert_eq!(table.refcount_of(1), None);
    table.release(2);
    assert_eq!(table.entry_count(), 0);
}

#[test]
fn acquire_decisions_follow_protocol() {
    assert_eq!(on_acquire_observed(-1), AcquireDecision::InsertFresh);
    assert_eq!(on_acquire_observed(i64::MIN), AcquireDecision::InsertFresh);
    assert_eq!(on_acquire_observed(0), AcquireDecision::KeepEntry(1));
    assert_eq!(on_acquire_observed(6), AcquireDecision::KeepEntry(7));
    assert_eq!(
        on_acquire_observed(i64::MAX),
        AcquireDecision::KeepEntry(i64::MAX)
    );
}

#[test]
fn release_decisions_follow_protocol() {
    assert_eq!(on_release_observed(1), ReleaseDecision::TryReclaim);
    assert_eq!(on_release_observed(2), ReleaseDecision::Decremented(1));
    assert_eq!(on_release_observed(i64::MAX), ReleaseDecision::Saturated);
}

#[test]
fn page_io_offset_checks_inputs() {
    assert_eq!(page_io_offset(3, 4096, 4096), Ok(3 * 4096));
    assert_eq!(page_io_offset(0, 4096, 4096), Ok(0));
    assert_eq!(page_io_offset(3, 4096, 4095), Err(DbError::SizeMismatch));
    assert_eq!(
        page_io_offset(u64::MAX / 2, 4096, 4096),
        Err(DbError::OffsetOverflow)
    );
}

#[test]
fn overflow_chain_roundtrip() {
    let payload: Vec<u8> = (0..100u8).collect();
    let chain = build_overflow_chain(&payload, 16, 3).unwrap();
    assert_eq!(chain.len(), 13);
    for page in &chain {
        assert_eq!(page.len(), 16);
    }
    let mut pages: Vec<Vec<u8>> = vec![vec![0u8; 16]; 3];
    pages.extend(chain);
    let resolved = resolve_overflow(&pages, 3, payload.len()).unwrap();
    assert_eq!(resolved, payload);
}

#[test]
fn overflow_chain_single_page() {
    let payload = vec![9u8, 8, 7];
    let chain = build_overflow_chain(&payload, 64, 0).unwrap();
    assert_eq!(chain.len(), 1);
    assert_eq!(&chain[0][..8], &u64::MAX.to_le_bytes());
    let resolved = resolve_overflow(&chain, 0, 3).unwrap();
    assert_eq!(resolved, payload);
}

#[test]
fn overflow_empty_payload_needs_no_pages() {
    let chain = build_overflow_chain(&[], 32, 0).unwrap();
    assert_eq!(chain.len(), 0);
    let resolved = resolve_overflow(&Vec::<Vec<u8>>::new(), 0, 0).unwrap();
    assert_eq!(resolved, Vec::<u8>::new());
}

#[test]
fn overflow_tiny_page_size_rejected() {
    assert_eq!(
        build_overflow_chain(&[1, 2], 8, 0).unwrap_err(),
        DbError::SizeMismatch
    );
}

#[test]
fn overflow_build_near_id_ceiling() {
    // Two pages are needed; the first would have to point at the terminal
    // sentinel, so the build is refused.
    assert_eq!(
        build_overflow_chain(&[7u8; 10], 16, u64::MAX - 1).unwrap_err(),
        DbError::OffsetOverflow
    );
    // One id lower both pages fit, the second one being the last.
    let chain = build_overflow_chain(&[7u8; 10], 16, u64::MAX - 2).unwrap();
    assert_eq!(chain.len(), 2);
    assert_eq!(&chain[0][..8], &(u64::MAX - 1).to_le_bytes());
    assert_eq!(&chain[1][..8], &u64::MAX.to_le_bytes());
}

#[test]
fn overflow_cycle_fails_with_corruption() {
    let mut page = vec![0u8; 16];
    page[..8].copy_from_slice(&0u64.to_le_bytes());
    let pages = vec![page];
    assert_eq!(
        resolve_overflow(&pages, 0, 100).unwrap_err(),
        DbError::StructuralCorruption
    );
}

#[test]
fn overflow_short_chain_fails_truncated() {
    let mut page = vec![0u8; 16];
    page[..8].copy_from_slice(&u64::MAX.to_le_bytes());
    let pages = vec![page];
    assert_eq!(
        resolve_overflow(&pages, 0, 100).unwrap_err(),
        DbError::TruncatedInput
    );
}
