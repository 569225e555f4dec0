//! The block log: an ordered list of blocks keyed by log sequence number.
//!
//! Blocks are kept sorted by `(epoch, offset)`, with the macro-block offset
//! greater than any micro-block offset, so that full iteration yields blocks
//! in exactly the order they were applied.  The host persists the log; its
//! byte key for an entry is given by [`block_key`], whose byte-lexicographic
//! order agrees with the numeric order of log sequence numbers.

use vstd::pervasive::VecAdditionalExecFns;
use vstd::prelude::*;

use crate::block::Block;
use crate::block::BlockView;
use crate::mvm::entries_map;
use crate::mvm::lemma_entries_at;
use crate::mvm::lemma_entries_contains;
use crate::mvm::lemma_entries_insert_at;
use crate::mvm::lemma_entries_remove;
use crate::mvm::lemma_entries_update;
use crate::mvm::lsn_le;
use crate::mvm::lsn_le_exec;
use crate::mvm::lsn_lt;
use crate::mvm::Lsn;

verus! {

/// The 12-byte storage key of a log sequence number: the epoch in big-endian,
/// then the offset in big-endian.
pub open spec fn spec_block_key(lsn: Lsn) -> Seq<u8> {
    seq![
        (lsn.0 >> 56) as u8,
        (lsn.0 >> 48) as u8,
        (lsn.0 >> 40) as u8,
        (lsn.0 >> 32) as u8,
        (lsn.0 >> 24) as u8,
        (lsn.0 >> 16) as u8,
        (lsn.0 >> 8) as u8,
        lsn.0 as u8,
        (lsn.1 >> 24) as u8,
        (lsn.1 >> 16) as u8,
        (lsn.1 >> 8) as u8,
        lsn.1 as u8,
    ]
}

/// Executable twin of [`spec_block_key`].
pub fn block_key(lsn: Lsn) -> (r: Vec<u8>)
    ensures
        r@ == spec_block_key(lsn),
{
    let mut r: Vec<u8> = Vec::new();
    r.push((lsn.0 >> 56) as u8);
    r.push((lsn.0 >> 48) as u8);
    r.push((lsn.0 >> 40) as u8);
    r.push((lsn.0 >> 32) as u8);
    r.push((lsn.0 >> 24) as u8);
    r.push((lsn.0 >> 16) as u8);
    r.push((lsn.0 >> 8) as u8);
    r.push(lsn.0 as u8);
    r.push((lsn.1 >> 24) as u8);
    r.push((lsn.1 >> 16) as u8);
    r.push((lsn.1 >> 8) as u8);
    r.push(lsn.1 as u8);
    proof {
        assert(r@ =~= spec_block_key(lsn));
    }
    r
}

/// The number of records whose log sequence number lies strictly before
/// `lsn`, assuming the sequence is sorted.
pub open spec fn spec_start_index(s: Seq<(Lsn, Block)>, lsn: Lsn) -> int
    decreases s.len(),
{
    if s.len() == 0 {
        0
    } else if lsn_lt(s.first().0, lsn) {
        1 + spec_start_index(s.drop_first(), lsn)
    } else {
        0
    }
}

/// An in-memory ordered block log.
pub struct ListDb {
    pub entries: Vec<(Lsn, Block)>,
}

impl View for ListDb {
    type V = Map<Lsn, BlockView>;

    open spec fn view(&self) -> Map<Lsn, BlockView> {
        entries_map(self.entries@)
    }
}

impl ListDb {
    /// The stored records in log order.
    pub open spec fn log(&self) -> Seq<(Lsn, Block)> {
        self.entries@
    }

    /// Entries are strictly sorted by log sequence number.
    pub open spec fn wf(&self) -> bool {
        forall|i: int, j: int|
            0 <= i < j < self.entries@.len() ==> lsn_lt(
                (#[trigger] self.entries@[i]).0,
                (#[trigger] self.entries@[j]).0,
            )
    }

    /// The largest stored log sequence number is below `lsn`.
    pub open spec fn all_before(&self, lsn: Lsn) -> bool {
        forall|i: int|
            0 <= i < self.entries@.len() ==> lsn_lt((#[trigger] self.entries@[i]).0, lsn)
    }

    /// A fresh empty log.
    pub fn new() -> (r: ListDb)
        ensures
            r.wf(),
            r@ == Map::<Lsn, BlockView>::empty(),
            r.log().len() == 0,
    {
        let r = ListDb { entries: Vec::new() };
        proof {
            assert(r@ =~= Map::<Lsn, BlockView>::empty());
        }
        r
    }

    /// A fresh empty log for tests.
    pub fn testing() -> (r: ListDb)
        ensures
            r.wf(),
            r@ == Map::<Lsn, BlockView>::empty(),
            r.log().len() == 0,
    {
        ListDb::new()
    }

    /// Number of stored blocks.
    pub fn len(&self) -> (r: usize)
        ensures
            r == self.log().len(),
    {
        self.entries.len()
    }

    /// The position of the first record at or after `lsn`, as a function of
    /// the stored sequence.
    pub open spec fn start_of(&self, lsn: Lsn) -> int {
        spec_start_index(self.entries@, lsn)
    }

    /// The position of the first entry at or after `lsn`.
    fn lower_bound(&self, lsn: Lsn) -> (r: usize)
        requires
            self.wf(),
        ensures
            r <= self.log().len(),
            r == self.start_of(lsn),
            forall|j: int| 0 <= j < r ==> lsn_lt((#[trigger] self.log()[j]).0, lsn),
            forall|j: int| r <= j < self.log().len() ==> lsn_le(lsn, (#[trigger] self.log()[j]).0),
    {
        proof {
            assert(self.entries@.skip(0) =~= self.entries@);
        }
        let mut i: usize = 0;
        while i < self.entries.len()
            invariant
                self.wf(),
                i <= self.entries@.len(),
                forall|j: int| 0 <= j < i ==> lsn_lt((#[trigger] self.entries@[j]).0, lsn),
                spec_start_index(self.entries@, lsn) == i + spec_start_index(
                    self.entries@.skip(i as int),
                    lsn,
                ),
            decreases self.entries@.len() - i,
        {
            let ghost suffix = self.entries@.skip(i as int);
            if lsn_le_exec(lsn, self.entries[i].0) {
                proof {
                    assert(suffix.first() == self.entries@[i as int]);
                    assert forall|j: int|
                        i <= j < self.entries@.len() implies lsn_le(
                        lsn,
                        (#[trigger] self.entries@[j]).0,
                    ) by {
                        if j > i {
                            assert(lsn_lt(self.entries@[i as int].0, self.entries@[j].0));
                        }
                    }
                }
                return i;
            }
            proof {
                assert(suffix.first() == self.entries@[i as int]);
                assert(suffix.drop_first() =~= self.entries@.skip(i + 1 as int));
            }
            i = i + 1;
        }
        proof {
            assert(self.entries@.skip(i as int) =~= Seq::<(Lsn, Block)>::empty());
        }
        i
    }

    /// Store `block` at `lsn`, replacing any block already there.
    pub fn insert(&mut self, lsn: Lsn, block: Block)
        requires
            old(self).wf(),
        ensures
            final(self).wf(),
            final(self)@ == old(self)@.insert(lsn, block@),
            old(self).all_before(lsn) ==> final(self).log() == old(self).log().push(
                (lsn, block),
            ),
    {
        let i = self.lower_bound(lsn);
        let ghost pre = self.entries@;
        if i < self.entries.len() && self.entries[i].0 == lsn {
            self.entries.set(i, (lsn, block));
            proof {
                lemma_entries_update(pre, i as int, lsn, self.entries@[i as int].1);
                assert forall|a: int, b: int|
                    0 <= a < b < self.entries@.len() implies lsn_lt(
                    (#[trigger] self.entries@[a]).0,
                    (#[trigger] self.entries@[b]).0,
                ) by {
                    assert(self.entries@[a].0 == pre[a].0);
                    assert(self.entries@[b].0 == pre[b].0);
                }
            }
        } else {
            self.entries.insert(i, (lsn, block));
            proof {
                assert(self.entries@ == pre.insert(i as int, self.entries@[i as int]));
                assert forall|j: int| 0 <= j < pre.len() implies (#[trigger] pre[j]).0 != lsn by {
                    if j < i {
                        assert(lsn_lt(pre[j].0, lsn));
                    } else {
                        assert(lsn_le(lsn, pre[j].0));
                        assert(pre[j].0 != lsn);
                    }
                }
                lemma_entries_insert_at(pre, i as int, self.entries@[i as int]);
                assert forall|a: int, b: int|
                    0 <= a < b < self.entries@.len() implies lsn_lt(
                    (#[trigger] self.entries@[a]).0,
                    (#[trigger] self.entries@[b]).0,
                ) by {
                    let n = pre.len();
                    if b < i {
                        assert(self.entries@[a] == pre[a] && self.entries@[b] == pre[b]);
                    } else if a < i && b == i {
                        assert(self.entries@[a] == pre[a]);
                        assert(lsn_lt(pre[a].0, lsn));
                    } else if a < i {
                        assert(self.entries@[a] == pre[a] && self.entries@[b] == pre[b - 1]);
                        assert(lsn_lt(pre[a].0, pre[b - 1].0) || a == b - 1);
                        if a == b - 1 {
                            assert(lsn_lt(pre[a].0, lsn));
                            assert(lsn_le(lsn, pre[b - 1].0));
                        }
                    } else if a == i {
                        assert(self.entries@[b] == pre[b - 1]);
                        assert(lsn_le(lsn, pre[b - 1].0));
                        assert(pre[b - 1].0 != lsn);
                    } else {
                        assert(self.entries@[a] == pre[a - 1] && self.entries@[b] == pre[b - 1]);
                    }
                }
                if pre.len() == 0 || (forall|j: int|
                    0 <= j < pre.len() ==> lsn_lt((#[trigger] pre[j]).0, lsn)) {
                    assert(i == pre.len());
                    assert(self.entries@ =~= pre.push(self.entries@[i as int]));
                }
            }
        }
    }

    /// The block stored at `lsn`, if any.
    pub fn get(&self, lsn: Lsn) -> (r: Option<&Block>)
        requires
            self.wf(),
        ensures
            match r {
                Some(b) => self@.contains_key(lsn) && b@ == self@[lsn],
                None => !self@.contains_key(lsn),
            },
    {
        proof {
            lemma_entries_contains(self.entries@, lsn);
        }
        let i = self.lower_bound(lsn);
        if i < self.entries.len() && self.entries[i].0 == lsn {
            proof {
                lemma_entries_at(self.entries@, i as int);
            }
            Some(&self.entries[i].1)
        } else {
            proof {
                assert forall|j: int|
                    0 <= j < self.entries@.len() implies (#[trigger] self.entries@[j]).0
                    != lsn by {
                    if j >= i {
                        assert(lsn_le(lsn, self.entries@[j].0));
                        if j > i && i < self.entries@.len() {
                            assert(lsn_lt(self.entries@[i as int].0, self.entries@[j].0));
                        }
                    }
                }
            }
            None
        }
    }

    /// Remove the block stored at `lsn`, if any.
    pub fn remove(&mut self, lsn: Lsn)
        requires
            old(self).wf(),
        ensures
            final(self).wf(),
            final(self)@ == old(self)@.remove(lsn),
            forall|i: int|
                0 <= i < final(self).log().len() ==> exists|j: int|
                    0 <= j < old(self).log().len() && (#[trigger] final(self).log()[i])
                        == old(self).log()[j],
    {
        proof {
            lemma_entries_contains(self.entries@, lsn);
        }
        let i = self.lower_bound(lsn);
        let ghost pre = self.entries@;
        if i < self.entries.len() && self.entries[i].0 == lsn {
            let _ = self.entries.remove(i);
            proof {
                lemma_entries_remove(pre, i as int);
                crate::mvm::lemma_unique_remove(pre, i as int);
                assert forall|a: int|
                    0 <= a < self.entries@.len() implies exists|j: int|
                    0 <= j < pre.len() && (#[trigger] self.entries@[a]) == pre[j] by {
                    if a < i {
                        assert(self.entries@[a] == pre[a]);
                    } else {
                        assert(self.entries@[a] == pre[a + 1]);
                    }
                }
                assert forall|a: int, b: int|
                    0 <= a < b < self.entries@.len() implies lsn_lt(
                    (#[trigger] self.entries@[a]).0,
                    (#[trigger] self.entries@[b]).0,
                ) by {
                    if a < i && b < i {
                        assert(self.entries@[a] == pre[a] && self.entries@[b] == pre[b]);
                    } else if a < i {
                        assert(self.entries@[a] == pre[a] && self.entries@[b] == pre[b + 1]);
                    } else {
                        assert(self.entries@[a] == pre[a + 1] && self.entries@[b] == pre[b + 1]);
                    }
                }
            }
        } else {
            proof {
                assert forall|j: int|
                    0 <= j < self.entries@.len() implies (#[trigger] self.entries@[j]).0
                    != lsn by {
                    if j >= i {
                        assert(lsn_le(lsn, self.entries@[j].0));
                        if j > i && i < self.entries@.len() {
                            assert(lsn_lt(self.entries@[i as int].0, self.entries@[j].0));
                        }
                    }
                }
                assert(self@ =~= old(self)@.remove(lsn));
            }
        }
    }

    /// All stored blocks, in log order.
    pub fn iter(&self) -> (r: Vec<Block>)
        requires
            self.wf(),
        ensures
            r@.len() == self.log().len(),
            forall|i: int| 0 <= i < r@.len() ==> (#[trigger] r@[i])@ == self.log()[i].1@,
    {
        let mut r: Vec<Block> = Vec::new();
        let mut i: usize = 0;
        while i < self.entries.len()
            invariant
                i <= self.entries@.len(),
                r@.len() == i,
                forall|j: int| 0 <= j < i ==> (#[trigger] r@[j])@ == self.entries@[j].1@,
            decreases self.entries@.len() - i,
        {
            let b = self.entries[i].1.clone();
            r.push(b);
            i = i + 1;
        }
        r
    }

    /// The stored blocks at or after `lsn`, in log order.
    pub fn iter_starting(&self, lsn: Lsn) -> (r: Vec<Block>)
        requires
            self.wf(),
        ensures
            0 <= self.start_of(lsn) <= self.log().len(),
            r@.len() == self.log().len() - self.start_of(lsn),
            forall|j: int| 0 <= j < self.start_of(lsn) ==> lsn_lt((#[trigger] self.log()[j]).0, lsn),
            forall|j: int|
                self.start_of(lsn) <= j < self.log().len() ==> lsn_le(
                    lsn,
                    (#[trigger] self.log()[j]).0,
                ),
            forall|j: int|
                0 <= j < r@.len() ==> (#[trigger] r@[j])@ == self.log()[self.start_of(lsn) + j].1@,
    {
        let s = self.lower_bound(lsn);
        let mut r: Vec<Block> = Vec::new();
        let mut i: usize = s;
        while i < self.entries.len()
            invariant
                s <= i <= self.entries@.len(),
                r@.len() == i - s,
                forall|j: int| 0 <= j < i - s ==> (#[trigger] r@[j])@ == self.entries@[s + j].1@,
            decreases self.entries@.len() - i,
        {
            let b = self.entries[i].1.clone();
            r.push(b);
            i = i + 1;
        }
        r
    }
}

} // verus!
