//! Per-page lock bookkeeping: the refcount protocol that keeps the lock map
//! proportional to the pages currently in use.
//!
//! Every page in use has one entry holding a reference count. Acquiring
//! raises the count (saturating at the ceiling, after which the entry is
//! never reclaimed); releasing lowers it, and the releaser that takes the
//! count to zero removes the entry. A concurrent runtime drives the same
//! protocol through a lock-free map: its closures observe a count and act
//! on the decision functions below, inserting a fresh entry when they
//! observe a count marked mid-teardown. `LockTable` is the sequential form
//! of that bookkeeping, against which the protocol's laws are proved.

use vstd::prelude::*;

use crate::error::DbError;

verus! {

/// Identifies a fixed-size slot of the backing file; the byte offset of a
/// page is `id * page_size`.
pub type PageId = u64;

/// One page's bookkeeping: its id and how many guards reference it.
#[derive(Clone, Copy, Debug, PartialEq, Eq, Structural)]
pub struct LockEntry {
    /// The page this entry guards.
    pub page: PageId,
    /// How many guards hold the entry; at the ceiling it saturates.
    pub count: i64,
}

/// What an acquirer does after observing a count on an existing entry.
#[derive(Clone, Copy, Debug, PartialEq, Eq, Structural)]
pub enum AcquireDecision {
    /// The entry is mid-teardown: insert a brand-new entry with count 1.
    InsertFresh,
    /// Keep the entry, storing the count carried here.
    KeepEntry(i64),
}

/// What a releaser does after observing a count on its entry.
#[derive(Clone, Copy, Debug, PartialEq, Eq, Structural)]
pub enum ReleaseDecision {
    /// The count saturated earlier: the entry is never touched again.
    Saturated,
    /// Store the lowered count carried here.
    Decremented(i64),
    /// The count reached zero: race to mark the entry mid-teardown and, on
    /// winning, remove it.
    TryReclaim,
}

/// The acquire side of the protocol, on the count an acquirer observed: a
/// negative count marks an entry mid-teardown and is never reused; the
/// ceiling saturates rather than overflowing; anything else is raised.
pub fn on_acquire_observed(count: i64) -> (r: AcquireDecision)
    ensures
        count < 0 ==> r == AcquireDecision::InsertFresh,
        count == i64::MAX ==> r == AcquireDecision::KeepEntry(i64::MAX),
        0 <= count < i64::MAX ==> r == AcquireDecision::KeepEntry((count + 1) as i64),
{
    if count < 0 {
        AcquireDecision::InsertFresh
    } else if count == i64::MAX {
        AcquireDecision::KeepEntry(i64::MAX)
    } else {
        AcquireDecision::KeepEntry(count + 1)
    }
}

/// The release side of the protocol, on the count a releaser observed: a
/// saturated entry is left alone (a bounded leak instead of a corrupting
/// wrap), the last reference triggers reclamation, anything else is
/// lowered.
pub fn on_release_observed(count: i64) -> (r: ReleaseDecision)
    requires
        count >= 1,
    ensures
        count == i64::MAX ==> r == ReleaseDecision::Saturated,
        count == 1 ==> r == ReleaseDecision::TryReclaim,
        1 < count < i64::MAX ==> r == ReleaseDecision::Decremented((count - 1) as i64),
{
    if count == i64::MAX {
        ReleaseDecision::Saturated
    } else if count == 1 {
        ReleaseDecision::TryReclaim
    } else {
        ReleaseDecision::Decremented(count - 1)
    }
}

/// What acquiring does to one page's count: absent becomes 1, the ceiling
/// stays, anything else is raised.
pub open spec fn spec_acquire(c: Option<i64>) -> Option<i64> {
    match c {
        None => Some(1i64),
        Some(k) => if k == i64::MAX {
            Some(k)
        } else {
            Some((k + 1) as i64)
        },
    }
}

/// What releasing does to one page's count: the last reference removes the
/// entry, the ceiling stays forever, anything else is lowered.
pub open spec fn spec_release(c: Option<i64>) -> Option<i64> {
    match c {
        None => None,
        Some(k) => if k == i64::MAX {
            Some(k)
        } else if k == 1 {
            None
        } else {
            Some((k - 1) as i64)
        },
    }
}

/// One page's count after `n` balanced acquire/release cycles.
pub open spec fn spec_cycles(c: Option<i64>, n: nat) -> Option<i64>
    decreases n,
{
    if n == 0 {
        c
    } else {
        spec_cycles(spec_release(spec_acquire(c)), (n - 1) as nat)
    }
}

/// After any number of balanced acquire/release cycles on a page no guard
/// held at the start, the bookkeeping holds no entry for that page.
pub proof fn lemma_balanced_cycles_leave_no_entry(n: nat)
    ensures
        spec_cycles(None::<i64>, n) == None::<i64>,
    decreases n,
{
    if n > 0 {
        lemma_balanced_cycles_leave_no_entry((n - 1) as nat);
    }
}

/// No distinct pages share an entry.
pub open spec fn entries_unique(s: Seq<LockEntry>) -> bool {
    forall|j: int, k: int| 0 <= j < k < s.len() ==> s[j].page != s[k].page
}

/// Every entry is referenced: a count that would reach zero is removed
/// instead of stored.
pub open spec fn counts_live(s: Seq<LockEntry>) -> bool {
    forall|j: int| 0 <= j < s.len() ==> s[j].count >= 1
}

/// The count recorded for `id`: that of the first entry naming it.
pub open spec fn count_of(s: Seq<LockEntry>, id: PageId) -> Option<i64>
    decreases s.len(),
{
    if s.len() == 0 {
        None
    } else if s[0].page == id {
        Some(s[0].count)
    } else {
        count_of(s.subrange(1, s.len() as int), id)
    }
}

/// `count_of` through the entries themselves: absent means no entry names
/// the page; under uniqueness any entry naming it decides the count; and a
/// recorded count is carried by some entry.
proof fn lemma_count_of_entries(s: Seq<LockEntry>, id: PageId)
    ensures
        (forall|j: int| 0 <= j < s.len() ==> s[j].page != id) ==> count_of(s, id)
            == None::<i64>,
        entries_unique(s) ==> forall|j: int|
            0 <= j < s.len() && s[j].page == id ==> count_of(s, id) == Some(s[j].count),
        count_of(s, id) matches Some(c) ==> exists|j: int|
            0 <= j < s.len() && s[j].page == id && s[j].count == c,
    decreases s.len(),
{
    if s.len() > 0 {
        let rest = s.subrange(1, s.len() as int);
        lemma_count_of_entries(rest, id);
        assert(forall|j: int| 0 <= j < rest.len() ==> rest[j] == s[j + 1]);
        if entries_unique(s) {
            assert(entries_unique(rest));
            assert forall|j: int|
                0 <= j < s.len() && s[j].page == id implies count_of(s, id) == Some(
                s[j].count,
            ) by {
                if s[0].page == id {
                    if j > 0 {
                        assert(s[0].page != s[j].page);
                    }
                } else {
                    assert(rest[j - 1] == s[j]);
                    assert(count_of(rest, id) == Some(rest[j - 1].count));
                }
            }
        }
        if s[0].page != id {
            match count_of(rest, id) {
                Some(c) => {
                    let j = choose|j: int|
                        0 <= j < rest.len() && rest[j].page == id && rest[j].count == c;
                    assert(s[j + 1].page == id && s[j + 1].count == c);
                },
                None => {},
            }
        }
    }
}

/// The sequential form of the lock bookkeeping map: one entry per page in
/// use, reclaimed the moment its last reference is released.
pub struct LockTable {
    entries: Vec<LockEntry>,
}

impl LockTable {
    /// Entries name distinct pages and are all referenced.
    pub closed spec fn wf(self) -> bool {
        entries_unique(self.entries@) && counts_live(self.entries@)
    }

    /// The count recorded for `id`, or nothing when no entry names it.
    pub closed spec fn refcount(self, id: PageId) -> Option<i64> {
        count_of(self.entries@, id)
    }

    /// How many entries the bookkeeping holds.
    pub closed spec fn num_entries(self) -> nat {
        self.entries@.len()
    }

    /// An empty table: no page has an entry.
    pub fn new() -> (r: LockTable)
        ensures
            r.wf(),
            r.num_entries() == 0,
            forall|q: PageId| r.refcount(q) == None::<i64>,
    {
        LockTable { entries: Vec::new() }
    }

    /// The number of entries currently held.
    pub fn entry_count(&self) -> (r: usize)
        ensures
            r == self.num_entries(),
    {
        self.entries.len()
    }

    /// The count recorded for `id`.
    pub fn refcount_of(&self, id: PageId) -> (r: Option<i64>)
        ensures
            r == self.refcount(id),
    {
        let n = self.entries.len();
        let mut j: usize = 0;
        while j < n
            invariant
                j <= n,
                n == self.entries@.len(),
                forall|k: int| 0 <= k < j ==> self.entries@[k].page != id,
            decreases n - j,
        {
            if self.entries[j].page == id {
                proof {
                    lemma_count_of_first_hit(self.entries@, id, j as int);
                }
                return Some(self.entries[j].count);
            }
            j = j + 1;
        }
        proof {
            lemma_count_of_entries(self.entries@, id);
        }
        None
    }

    /// Record one more reference to `id`: a fresh entry with count 1 when
    /// none exists, otherwise the count raised short of the ceiling. No
    /// other page's entry is touched.
    pub fn acquire(&mut self, id: PageId)
        requires
            old(self).wf(),
        ensures
            final(self).wf(),
            final(self).refcount(id) == spec_acquire(old(self).refcount(id)),
            forall|q: PageId| q != id ==> final(self).refcount(q) == old(self).refcount(q),
            final(self).num_entries() == old(self).num_entries() + (
            if old(self).refcount(id) is None {
                1int
            } else {
                0int
            }),
    {
        let n = self.entries.len();
        let mut j: usize = 0;
        while j < n
            invariant
                j <= n,
                n == self.entries@.len(),
                self == old(self),
                old(self).wf(),
                forall|k: int| 0 <= k < j ==> self.entries@[k].page != id,
            decreases n - j,
        {
            if self.entries[j].page == id {
                let c = self.entries[j].count;
                proof {
                    lemma_count_of_first_hit(self.entries@, id, j as int);
                }
                let newc: i64 = if c == i64::MAX {
                    c
                } else {
                    c + 1
                };
                let ghost before = self.entries@;
                self.entries.set(j, LockEntry { page: id, count: newc });
                proof {
                    lemma_update_effects(before, j as int, id, newc);
                }
                return ;
            }
            j = j + 1;
        }
        let ghost before = self.entries@;
        proof {
            lemma_count_of_entries(before, id);
        }
        self.entries.push(LockEntry { page: id, count: 1 });
        proof {
            lemma_push_effects(before, id, 1i64);
        }
    }

    /// Drop one reference to `id`: the last reference removes the entry, a
    /// saturated count is left alone forever. No other page's entry is
    /// touched.
    pub fn release(&mut self, id: PageId)
        requires
            old(self).wf(),
            old(self).refcount(id) is Some,
        ensures
            final(self).wf(),
            final(self).refcount(id) == spec_release(old(self).refcount(id)),
            forall|q: PageId| q != id ==> final(self).refcount(q) == old(self).refcount(q),
            final(self).num_entries() == old(self).num_entries() - (
            if final(self).refcount(id) is None {
                1int
            } else {
                0int
            }),
    {
        let n = self.entries.len();
        let mut j: usize = 0;
        while j < n
            invariant
                j <= n,
                n == self.entries@.len(),
                self == old(self),
                old(self).wf(),
                old(self).refcount(id) is Some,
                forall|k: int| 0 <= k < j ==> self.entries@[k].page != id,
            decreases n - j,
        {
            if self.entries[j].page == id {
                let c = self.entries[j].count;
                proof {
                    lemma_count_of_first_hit(self.entries@, id, j as int);
                }
                if c == i64::MAX {
                    return ;
                } else if c == 1 {
                    let ghost before = self.entries@;
                    self.entries.remove(j);
                    proof {
                        lemma_remove_effects(before, j as int, id);
                    }
                    return ;
                } else {
                    let ghost before = self.entries@;
                    self.entries.set(j, LockEntry { page: id, count: c - 1 });
                    proof {
                        lemma_update_effects(before, j as int, id, (c - 1) as i64);
                    }
                    return ;
                }
            }
            j = j + 1;
        }
        proof {
            lemma_count_of_entries(self.entries@, id);
            assert(false);
        }
    }
}

/// An entry preceded by no other entry naming its page decides the count.
proof fn lemma_count_of_first_hit(s: Seq<LockEntry>, id: PageId, j: int)
    requires
        0 <= j < s.len(),
        s[j].page == id,
        forall|k: int| 0 <= k < j ==> s[k].page != id,
    ensures
        count_of(s, id) == Some(s[j].count),
    decreases j,
{
    if j > 0 {
        let rest = s.subrange(1, s.len() as int);
        assert(forall|k: int| 0 <= k < rest.len() ==> rest[k] == s[k + 1]);
        lemma_count_of_first_hit(rest, id, j - 1);
    }
}

/// Updating the entry at `j` to another count for the same page keeps the
/// table well formed, records the new count, and touches no other page.
proof fn lemma_update_effects(s: Seq<LockEntry>, j: int, id: PageId, newc: i64)
    requires
        entries_unique(s),
        0 <= j < s.len(),
        s[j].page == id,
    ensures
        entries_unique(s.update(j, LockEntry { page: id, count: newc })),
        count_of(s.update(j, LockEntry { page: id, count: newc }), id) == Some(newc),
        forall|q: PageId|
            q != id ==> count_of(s.update(j, LockEntry { page: id, count: newc }), q)
                == count_of(s, q),
        counts_live(s) && newc >= 1 ==> counts_live(
            s.update(j, LockEntry { page: id, count: newc }),
        ),
{
    let t = s.update(j, LockEntry { page: id, count: newc });
    assert(entries_unique(t));
    lemma_count_of_entries(t, id);
    assert(t[j].page == id && t[j].count == newc);
    assert(count_of(t, id) == Some(t[j].count));
    assert forall|q: PageId| q != id implies count_of(t, q) == count_of(s, q) by {
        lemma_count_of_entries(s, q);
        lemma_count_of_entries(t, q);
        match count_of(s, q) {
            Some(c) => {
                let k = choose|k: int| 0 <= k < s.len() && s[k].page == q && s[k].count == c;
                assert(t[k].page == q && t[k].count == c);
            },
            None => {
                assert(forall|k: int| 0 <= k < t.len() ==> t[k].page != q);
            },
        }
    }
}

/// Appending an entry for a page no entry names keeps the table well
/// formed, records its count, and touches no other page.
proof fn lemma_push_effects(s: Seq<LockEntry>, id: PageId, c: i64)
    requires
        entries_unique(s),
        forall|k: int| 0 <= k < s.len() ==> s[k].page != id,
    ensures
        entries_unique(s.push(LockEntry { page: id, count: c })),
        count_of(s.push(LockEntry { page: id, count: c }), id) == Some(c),
        forall|q: PageId|
            q != id ==> count_of(s.push(LockEntry { page: id, count: c }), q) == count_of(s, q),
        counts_live(s) && c >= 1 ==> counts_live(s.push(LockEntry { page: id, count: c })),
{
    let t = s.push(LockEntry { page: id, count: c });
    assert(entries_unique(t));
    lemma_count_of_entries(t, id);
    assert(t[s.len() as int].page == id && t[s.len() as int].count == c);
    assert(count_of(t, id) == Some(t[s.len() as int].count));
    assert forall|q: PageId| q != id implies count_of(t, q) == count_of(s, q) by {
        lemma_count_of_entries(s, q);
        lemma_count_of_entries(t, q);
        match count_of(s, q) {
            Some(cc) => {
                let k = choose|k: int| 0 <= k < s.len() && s[k].page == q && s[k].count == cc;
                assert(t[k].page == q && t[k].count == cc);
            },
            None => {
                assert(forall|k: int| 0 <= k < t.len() ==> t[k].page != q);
            },
        }
    }
}

/// Removing the one entry naming a page keeps the table well formed,
/// leaves that page without an entry, and touches no other page.
proof fn lemma_remove_effects(s: Seq<LockEntry>, j: int, id: PageId)
    requires
        entries_unique(s),
        0 <= j < s.len(),
        s[j].page == id,
    ensures
        entries_unique(s.remove(j)),
        count_of(s.remove(j), id) == None::<i64>,
        forall|q: PageId| q != id ==> count_of(s.remove(j), q) == count_of(s, q),
        counts_live(s) ==> counts_live(s.remove(j)),
{
    let t = s.remove(j);
    assert(forall|k: int| 0 <= k < j ==> t[k] == s[k]);
    assert(forall|k: int| j <= k < t.len() ==> t[k] == s[k + 1]);
    assert(entries_unique(t));
    lemma_count_of_entries(t, id);
    assert(forall|k: int| 0 <= k < t.len() ==> t[k].page != id);
    assert forall|q: PageId| q != id implies count_of(t, q) == count_of(s, q) by {
        lemma_count_of_entries(s, q);
        lemma_count_of_entries(t, q);
        match count_of(s, q) {
            Some(cc) => {
                let k = choose|k: int| 0 <= k < s.len() && s[k].page == q && s[k].count == cc;
                if k < j {
                    assert(t[k].page == q && t[k].count == cc);
                } else {
                    assert(t[k - 1].page == q && t[k - 1].count == cc);
                }
            },
            None => {
                assert(forall|k: int| 0 <= k < t.len() ==> t[k].page != q);
            },
        }
    }
}

/// The compute part of a page read or write: checks the buffer against the
/// page size and yields the byte offset `id * page_size` of the page.
pub fn page_io_offset(id: PageId, page_size: u32, buf_len: usize) -> (r: Result<u64, DbError>)
    ensures
        buf_len != page_size ==> r == Err::<u64, DbError>(DbError::SizeMismatch),
        buf_len == page_size && id * page_size <= u64::MAX ==> r == Ok::<u64, DbError>(
            (id * page_size) as u64,
        ),
        buf_len == page_size && id * page_size > u64::MAX ==> r == Err::<u64, DbError>(
            DbError::OffsetOverflow,
        ),
{
    if buf_len != page_size as usize {
        return Err(DbError::SizeMismatch);
    }
    match id.checked_mul(page_size as u64) {
        Some(off) => Ok(off),
        None => Err(DbError::OffsetOverflow),
    }
}

} // verus!
