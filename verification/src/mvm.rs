//! Multi-versioned map: a map with an undo log and a monotone log sequence
//! number, supporting checkpoint and rollback.
//!
//! Every mutation is tagged with a log sequence number (LSN).  The prior
//! binding of the touched key is pushed onto an undo stack, so that
//! `rollback_to_lsn` can replay the stack in reverse and restore exactly the
//! state the map had at the target LSN.  `checkpoint` discards the stack and
//! thereby makes the current state permanent.

use vstd::pervasive::VecAdditionalExecFns;
use vstd::prelude::*;

verus! {

/// Log sequence number: an epoch and an offset inside the epoch, ordered
/// lexicographically.
#[derive(Clone, Copy, PartialEq, Eq, Structural, PartialOrd, Ord, Debug)]
pub struct Lsn(pub u64, pub u32);

/// `a <= b` in the lexicographic order on log sequence numbers.
pub open spec fn lsn_le(a: Lsn, b: Lsn) -> bool {
    a.0 < b.0 || (a.0 == b.0 && a.1 <= b.1)
}

/// `a < b` in the lexicographic order on log sequence numbers.
pub open spec fn lsn_lt(a: Lsn, b: Lsn) -> bool {
    a.0 < b.0 || (a.0 == b.0 && a.1 < b.1)
}

/// Executable comparison: `a <= b`.
pub fn lsn_le_exec(a: Lsn, b: Lsn) -> (r: bool)
    ensures
        r == lsn_le(a, b),
{
    a.0 < b.0 || (a.0 == b.0 && a.1 <= b.1)
}

/// Executable comparison: `a < b`.
pub fn lsn_lt_exec(a: Lsn, b: Lsn) -> (r: bool)
    ensures
        r == lsn_lt(a, b),
{
    a.0 < b.0 || (a.0 == b.0 && a.1 < b.1)
}

/// Keys of a multi-versioned map: types with a decidable equality.
pub trait MvmKey: Sized + Copy {
    /// Equality test whose result coincides with logical equality.
    fn key_eq(&self, other: &Self) -> (r: bool)
        ensures
            r <==> self == other,
    ;
}

/// Values of a multi-versioned map: types with a mathematical view that can
/// be duplicated up to that view.
pub trait MvmValue: View + Sized {
    /// A copy of the value with the same view.
    fn duplicate(&self) -> (r: Self)
        ensures
            r@ == self@,
    ;
}

/// One record of the undo stack: the binding `key` had before the mutation
/// tagged `lsn` (`None` when the key was unbound).
pub struct UndoEntry<K, V> {
    pub lsn: Lsn,
    pub key: K,
    pub prior: Option<V>,
}

/// The map described by a sequence of key/value pairs, later pairs winning;
/// values enter the map as their views.
pub open spec fn entries_map<K, V: View>(s: Seq<(K, V)>) -> Map<K, V::V>
    decreases s.len(),
{
    if s.len() == 0 {
        Map::empty()
    } else {
        entries_map(s.drop_last()).insert(s.last().0, s.last().1@)
    }
}

/// No key appears twice in the sequence.
pub open spec fn unique_keys<K, V>(s: Seq<(K, V)>) -> bool {
    forall|i: int, j: int| 0 <= i < j < s.len() ==> (#[trigger] s[i]).0 != (#[trigger] s[j]).0
}

/// The map after undoing one record.
pub open spec fn apply_undo<K, V: View>(m: Map<K, V::V>, e: UndoEntry<K, V>) -> Map<K, V::V> {
    match e.prior {
        Some(v) => m.insert(e.key, v@),
        None => m.remove(e.key),
    }
}

/// The map obtained from `m` by undoing, last first, every record of `undo`
/// whose LSN is greater than `t`.
pub open spec fn replay<K, V: View>(
    m: Map<K, V::V>,
    undo: Seq<UndoEntry<K, V>>,
    t: Lsn,
) -> Map<K, V::V>
    decreases undo.len(),
{
    if undo.len() == 0 {
        m
    } else if lsn_lt(t, undo.last().lsn) {
        replay(apply_undo(m, undo.last()), undo.drop_last(), t)
    } else {
        m
    }
}

/// An in-memory map with an undo log keyed by log sequence numbers.
pub struct MultiVersionedMap<K, V> {
    pub live: Vec<(K, V)>,
    pub undo: Vec<UndoEntry<K, V>>,
    pub current_lsn: Lsn,
}

impl<K: MvmKey, V: MvmValue> View for MultiVersionedMap<K, V> {
    type V = Map<K, <V as View>::V>;

    open spec fn view(&self) -> Map<K, <V as View>::V> {
        entries_map(self.live@)
    }
}

impl<K: MvmKey, V: MvmValue> MultiVersionedMap<K, V> {
    /// The current log sequence number.
    pub open spec fn lsn(&self) -> Lsn {
        self.current_lsn
    }

    /// The undo stack, oldest record first.
    pub open spec fn undo_log(&self) -> Seq<UndoEntry<K, V>> {
        self.undo@
    }

    /// The live entries, in insertion order.
    pub open spec fn entries(&self) -> Seq<(K, V)> {
        self.live@
    }

    /// Structural invariant: unique keys, undo records in LSN order, and no
    /// undo record beyond the current LSN.
    pub open spec fn wf(&self) -> bool {
        &&& unique_keys(self.live@)
        &&& (forall|i: int, j: int|
            0 <= i < j < self.undo@.len() ==> lsn_le(
                (#[trigger] self.undo@[i]).lsn,
                (#[trigger] self.undo@[j]).lsn,
            ))
        &&& (forall|i: int|
            0 <= i < self.undo@.len() ==> lsn_le((#[trigger] self.undo@[i]).lsn, self.current_lsn))
    }

    /// The state the map would roll back to at LSN `t`.
    pub open spec fn state_at(&self, t: Lsn) -> Map<K, <V as View>::V> {
        replay(self@, self.undo@, t)
    }

    /// A fresh empty map at the initial LSN.
    pub fn new() -> (r: Self)
        ensures
            r.wf(),
            r@ == Map::<K, <V as View>::V>::empty(),
            r.lsn() == Lsn(0, 0),
            r.undo_log().len() == 0,
    {
        let r = MultiVersionedMap { live: Vec::new(), undo: Vec::new(), current_lsn: Lsn(0, 0) };
        proof {
            assert(r@ =~= Map::<K, <V as View>::V>::empty());
        }
        r
    }

    /// Index of `k` among the live entries, if any.
    fn find(&self, k: &K) -> (r: Option<usize>)
        ensures
            match r {
                Some(i) => i < self.live@.len() && self.live@[i as int].0 == *k,
                None => forall|i: int| 0 <= i < self.live@.len() ==> (#[trigger] self.live@[i]).0 != *k,
            },
    {
        let mut i: usize = 0;
        while i < self.live.len()
            invariant
                i <= self.live@.len(),
                forall|j: int| 0 <= j < i ==> (#[trigger] self.live@[j]).0 != *k,
            decreases self.live@.len() - i,
        {
            if self.live[i].0.key_eq(k) {
                return Some(i);
            }
            i = i + 1;
        }
        None
    }

    /// Current binding of `k`.
    pub fn get(&self, k: &K) -> (r: Option<&V>)
        requires
            self.wf(),
        ensures
            match r {
                Some(v) => self@.contains_key(*k) && v@ == self@[*k],
                None => !self@.contains_key(*k),
            },
    {
        proof {
            lemma_entries_contains(self.live@, *k);
        }
        match self.find(k) {
            Some(i) => {
                proof {
                    lemma_entries_at(self.live@, i as int);
                }
                Some(&self.live[i].1)
            },
            None => None,
        }
    }

    /// Number of live entries.
    pub fn len(&self) -> (r: usize)
        requires
            self.wf(),
        ensures
            r == self.live@.len(),
            r == self@.dom().len(),
    {
        proof {
            lemma_entries_len(self.live@);
        }
        self.live.len()
    }

    /// The current LSN.
    pub fn current_lsn(&self) -> (r: Lsn)
        ensures
            r == self.lsn(),
    {
        self.current_lsn
    }

    /// All live keys, in insertion order.
    pub fn keys(&self) -> (r: Vec<K>)
        requires
            self.wf(),
        ensures
            r@.len() == self.live@.len(),
            forall|i: int| 0 <= i < r@.len() ==> r@[i] == (#[trigger] self.live@[i]).0,
            forall|k: K| self@.contains_key(k) <==> r@.contains(k),
    {
        let mut r: Vec<K> = Vec::new();
        let mut i: usize = 0;
        while i < self.live.len()
            invariant
                i <= self.live@.len(),
                r@.len() == i,
                forall|j: int| 0 <= j < i ==> r@[j] == (#[trigger] self.live@[j]).0,
            decreases self.live@.len() - i,
        {
            r.push(self.live[i].0);
            i = i + 1;
        }
        proof {
            assert forall|k: K| self@.contains_key(k) <==> r@.contains(k) by {
                lemma_entries_contains(self.live@, k);
                if self@.contains_key(k) {
                    let i = choose|i: int| 0 <= i < self.live@.len() && (#[trigger] self.live@[i]).0 == k;
                    assert(r@[i] == k);
                }
                if r@.contains(k) {
                    let i = choose|i: int| 0 <= i < r@.len() && r@[i] == k;
                    assert(self.live@[i].0 == k);
                }
            }
        }
        r
    }

    /// A reference to the live entries, in insertion order.
    pub fn live_entries(&self) -> (r: &Vec<(K, V)>)
        requires
            self.wf(),
        ensures
            r@ == self.entries(),
            unique_keys(r@),
            forall|i: int|
                0 <= i < r@.len() ==> self@.contains_key((#[trigger] r@[i]).0) && self@[r@[i].0]
                    == r@[i].1@,
    {
        proof {
            assert forall|i: int|
                0 <= i < self.live@.len() implies self@.contains_key((#[trigger] self.live@[i]).0)
                && self@[self.live@[i].0] == self.live@[i].1@ by {
                lemma_entries_contains_index(self.live@, i);
                lemma_entries_at(self.live@, i);
            }
        }
        &self.live
    }

    /// Bind `k` to `v` at LSN `lsn`, recording the prior binding for undo.
    /// Returns the prior binding.
    pub fn insert(&mut self, lsn: Lsn, k: K, v: V) -> (prior: Option<V>)
        requires
            old(self).wf(),
            lsn_le(old(self).lsn(), lsn),
        ensures
            final(self).wf(),
            final(self)@ == old(self)@.insert(k, v@),
            final(self).lsn() == lsn,
            match prior {
                Some(p) => old(self)@.contains_key(k) && p@ == old(self)@[k],
                None => !old(self)@.contains_key(k),
            },
            forall|t: Lsn| lsn_lt(t, lsn) ==> final(self).state_at(t) == old(self).state_at(t),
    {
        proof {
            lemma_entries_contains(self.live@, k);
        }
        let ghost old_map = self@;
        let ghost old_undo = self.undo@;
        let prior: Option<V>;
        match self.find(&k) {
            Some(i) => {
                proof {
                    lemma_entries_at(self.live@, i as int);
                }
                let prior_val = self.live[i].1.duplicate();
                let prior_val2 = prior_val.duplicate();
                self.live.set(i, (k, v));
                proof {
                    lemma_unique_update(old(self).live@, i as int, k, v);
                    lemma_entries_update(old(self).live@, i as int, k, v);
                }
                self.undo.push(UndoEntry { lsn, key: k, prior: Some(prior_val) });
                prior = Some(prior_val2);
            },
            None => {
                self.live.push((k, v));
                proof {
                    assert(self.live@.drop_last() =~= old(self).live@);
                    assert(unique_keys(self.live@));
                }
                self.undo.push(UndoEntry { lsn, key: k, prior: None });
                prior = None;
            },
        }
        self.current_lsn = lsn;
        proof {
            let e = self.undo@.last();
            assert(self.undo@.drop_last() =~= old_undo);
            assert forall|t: Lsn| lsn_lt(t, lsn) implies self.state_at(t) == old(self).state_at(t) by {
                assert(replay(self@, self.undo@, t) == replay(apply_undo(self@, e), old_undo, t));
                assert(apply_undo(self@, e) =~= old_map);
            }
        }
        prior
    }

    /// Remove the binding of `k` at LSN `lsn`, recording it for undo.
    /// Returns the prior binding.
    pub fn remove(&mut self, lsn: Lsn, k: &K) -> (prior: Option<V>)
        requires
            old(self).wf(),
            lsn_le(old(self).lsn(), lsn),
        ensures
            final(self).wf(),
            final(self)@ == old(self)@.remove(*k),
            final(self).lsn() == lsn,
            match prior {
                Some(p) => old(self)@.contains_key(*k) && p@ == old(self)@[*k],
                None => !old(self)@.contains_key(*k),
            },
            forall|t: Lsn| lsn_lt(t, lsn) ==> final(self).state_at(t) == old(self).state_at(t),
    {
        proof {
            lemma_entries_contains(self.live@, *k);
        }
        let ghost old_map = self@;
        let ghost old_undo = self.undo@;
        match self.find(k) {
            Some(i) => {
                proof {
                    lemma_entries_at(self.live@, i as int);
                }
                let pair = self.live.remove(i);
                proof {
                    lemma_unique_remove(old(self).live@, i as int);
                    lemma_entries_remove(old(self).live@, i as int);
                }
                let prior_val = pair.1;
                let prior_copy = prior_val.duplicate();
                self.undo.push(UndoEntry { lsn, key: *k, prior: Some(prior_val) });
                self.current_lsn = lsn;
                proof {
                    let e = self.undo@.last();
                    assert(self.undo@.drop_last() =~= old_undo);
                    assert forall|t: Lsn| lsn_lt(t, lsn) implies self.state_at(t) == old(self).state_at(t) by {
                        assert(replay(self@, self.undo@, t) == replay(apply_undo(self@, e), old_undo, t));
                        assert(apply_undo(self@, e) =~= old_map);
                    }
                }
                Some(prior_copy)
            },
            None => {
                self.current_lsn = lsn;
                proof {
                    assert(self@ =~= old(self)@.remove(*k));
                }
                None
            },
        }
    }

    /// Advance the current LSN without touching the contents; every rollback
    /// state is unchanged.
    pub fn advance_lsn(&mut self, lsn: Lsn)
        requires
            old(self).wf(),
            lsn_le(old(self).lsn(), lsn),
        ensures
            final(self).wf(),
            final(self)@ == old(self)@,
            final(self).entries() == old(self).entries(),
            final(self).undo_log() == old(self).undo_log(),
            final(self).lsn() == lsn,
            forall|t: Lsn| final(self).state_at(t) == old(self).state_at(t),
    {
        self.current_lsn = lsn;
    }

    /// Discard the undo log: the current state becomes permanent, and every
    /// later rollback returns it unchanged.
    pub fn checkpoint(&mut self)
        requires
            old(self).wf(),
        ensures
            final(self).wf(),
            final(self)@ == old(self)@,
            final(self).entries() == old(self).entries(),
            final(self).lsn() == old(self).lsn(),
            final(self).undo_log().len() == 0,
            forall|t: Lsn| final(self).state_at(t) == final(self)@,
    {
        self.undo.clear();
    }

    /// Undo, last first, every mutation with an LSN greater than `target`.
    /// The result is exactly the state the map had at `target`, provided no
    /// checkpoint has discarded the records in between.
    pub fn rollback_to_lsn(&mut self, target: Lsn)
        requires
            old(self).wf(),
        ensures
            final(self).wf(),
            final(self)@ == old(self).state_at(target),
            lsn_le(final(self).lsn(), target) || final(self).lsn() == old(self).lsn(),
            lsn_le(old(self).lsn(), target) ==> final(self).lsn() == old(self).lsn(),
            !lsn_le(old(self).lsn(), target) ==> final(self).lsn() == target,
            forall|t: Lsn| lsn_le(t, target) ==> final(self).state_at(t) == old(self).state_at(t),
    {
        loop
            invariant
                self.wf(),
                forall|t: Lsn| lsn_le(t, target) ==> self.state_at(t) == old(self).state_at(t),
                self.current_lsn == old(self).current_lsn,
            ensures
                self.wf(),
                self.current_lsn == old(self).current_lsn,
                self.undo@.len() > 0 ==> lsn_le(self.undo@.last().lsn, target),
                forall|t: Lsn| lsn_le(t, target) ==> self.state_at(t) == old(self).state_at(t),
            decreases self.undo@.len(),
        {
            let n = self.undo.len();
            if n == 0 {
                break;
            }
            let last_lsn = self.undo[n - 1].lsn;
            if lsn_le_exec(last_lsn, target) {
                break;
            }
            let ghost pre = *self;
            let e = self.undo.pop().unwrap();
            match e.prior {
                Some(v) => {
                    let _ = self.mend(e.key, v);
                },
                None => {
                    let _ = self.unbind(&e.key);
                },
            }
            proof {
                let ghost eg = pre.undo@.last();
                assert(self.undo@ =~= pre.undo@.drop_last());
                assert(self@ =~= apply_undo(pre@, eg));
                assert forall|t: Lsn| lsn_le(t, target) implies self.state_at(t) == pre.state_at(t) by {
                    assert(lsn_lt(t, eg.lsn));
                    assert(replay(pre@, pre.undo@, t) == replay(apply_undo(pre@, eg), pre.undo@.drop_last(), t));
                }
            }
        }
        proof {
            lemma_replay_noop(self@, self.undo@, target);
            assert(lsn_le(target, target));
            assert(self.state_at(target) == old(self).state_at(target));
            assert(self@ == old(self).state_at(target));
        }
        let ghost pre = *self;
        if lsn_lt_exec(target, self.current_lsn) {
            self.current_lsn = target;
        }
        proof {
            assert(self@ == pre@);
            assert forall|t: Lsn| lsn_le(t, target) implies self.state_at(t) == old(self).state_at(t) by {
                assert(self.state_at(t) == pre.state_at(t));
            }
        }
    }

    /// Restore a binding while rolling back, without touching the undo log.
    fn mend(&mut self, k: K, v: V) -> (r: bool)
        requires
            unique_keys(old(self).live@),
        ensures
            unique_keys(final(self).live@),
            final(self)@ == old(self)@.insert(k, v@),
            final(self).undo@ == old(self).undo@,
            final(self).current_lsn == old(self).current_lsn,
    {
        proof {
            lemma_entries_contains(self.live@, k);
        }
        match self.find(&k) {
            Some(i) => {
                self.live.set(i, (k, v));
                proof {
                    lemma_unique_update(old(self).live@, i as int, k, v);
                    lemma_entries_update(old(self).live@, i as int, k, v);
                }
                true
            },
            None => {
                self.live.push((k, v));
                proof {
                    assert(self.live@.drop_last() =~= old(self).live@);
                    assert(unique_keys(self.live@));
                }
                false
            },
        }
    }

    /// Drop a binding while rolling back, without touching the undo log.
    fn unbind(&mut self, k: &K) -> (r: bool)
        requires
            unique_keys(old(self).live@),
        ensures
            unique_keys(final(self).live@),
            final(self)@ == old(self)@.remove(*k),
            final(self).undo@ == old(self).undo@,
            final(self).current_lsn == old(self).current_lsn,
    {
        proof {
            lemma_entries_contains(self.live@, *k);
        }
        match self.find(k) {
            Some(i) => {
                let _ = self.live.remove(i);
                proof {
                    lemma_unique_remove(old(self).live@, i as int);
                    lemma_entries_remove(old(self).live@, i as int);
                }
                true
            },
            None => {
                proof {
                    assert(self@ =~= old(self)@.remove(*k));
                }
                false
            },
        }
    }
}

/// A key is in the map of a sequence iff some pair of the sequence holds it.
pub proof fn lemma_entries_contains<K, V: View>(s: Seq<(K, V)>, k: K)
    ensures
        entries_map(s).contains_key(k) <==> exists|i: int| 0 <= i < s.len() && (#[trigger] s[i]).0 == k,
    decreases s.len(),
{
    if s.len() > 0 {
        lemma_entries_contains(s.drop_last(), k);
        if entries_map(s).contains_key(k) && s.last().0 != k {
            let i = choose|i: int| 0 <= i < s.drop_last().len() && (#[trigger] s.drop_last()[i]).0 == k;
            assert(s[i].0 == k);
        }
        if exists|i: int| 0 <= i < s.len() && (#[trigger] s[i]).0 == k {
            let i = choose|i: int| 0 <= i < s.len() && (#[trigger] s[i]).0 == k;
            if i < s.len() - 1 {
                assert(s.drop_last()[i].0 == k);
            }
        }
    }
}

/// The pair at index `i` witnesses membership of its key.
pub proof fn lemma_entries_contains_index<K, V: View>(s: Seq<(K, V)>, i: int)
    requires
        0 <= i < s.len(),
    ensures
        entries_map(s).contains_key(s[i].0),
{
    lemma_entries_contains(s, s[i].0);
}

/// With unique keys, the map binds the key of pair `i` to its value.
pub proof fn lemma_entries_at<K, V: View>(s: Seq<(K, V)>, i: int)
    requires
        unique_keys(s),
        0 <= i < s.len(),
    ensures
        entries_map(s).contains_key(s[i].0),
        entries_map(s)[s[i].0] == s[i].1@,
    decreases s.len(),
{
    lemma_entries_contains_index(s, i);
    if i < s.len() - 1 {
        assert(s.drop_last()[i] == s[i]);
        lemma_entries_at(s.drop_last(), i);
        assert(s.last().0 != s[i].0);
    }
}

/// With unique keys, the number of live pairs is the size of the map domain.
pub proof fn lemma_entries_len<K, V: View>(s: Seq<(K, V)>)
    requires
        unique_keys(s),
    ensures
        entries_map(s).dom().finite(),
        entries_map(s).dom().len() == s.len(),
    decreases s.len(),
{
    if s.len() > 0 {
        lemma_entries_len(s.drop_last());
        lemma_entries_contains(s.drop_last(), s.last().0);
    }
}

/// Replacing pair `i` (same key) updates the map binding of that key.
pub proof fn lemma_entries_update<K, V: View>(s: Seq<(K, V)>, i: int, k: K, v: V)
    requires
        unique_keys(s),
        0 <= i < s.len(),
        s[i].0 == k,
    ensures
        entries_map(s.update(i, (k, v))) == entries_map(s).insert(k, v@),
    decreases s.len(),
{
    let su = s.update(i, (k, v));
    if i == s.len() - 1 {
        assert(su.drop_last() =~= s.drop_last());
        assert(entries_map(su) =~= entries_map(s).insert(k, v@));
    } else {
        assert(su.drop_last() =~= s.drop_last().update(i, (k, v)));
        assert(s.drop_last()[i] == s[i]);
        lemma_entries_update(s.drop_last(), i, k, v);
        assert(s.last().0 != k);
        assert(entries_map(su) =~= entries_map(s).insert(k, v@));
    }
}

/// Removing pair `i` removes the binding of its key.
pub proof fn lemma_entries_remove<K, V: View>(s: Seq<(K, V)>, i: int)
    requires
        unique_keys(s),
        0 <= i < s.len(),
    ensures
        entries_map(s.remove(i)) == entries_map(s).remove(s[i].0),
    decreases s.len(),
{
    let sr = s.remove(i);
    if i == s.len() - 1 {
        assert(sr =~= s.drop_last());
        lemma_entries_contains(s.drop_last(), s[i].0);
        assert(entries_map(sr) =~= entries_map(s).remove(s[i].0));
    } else {
        assert(sr.drop_last() =~= s.drop_last().remove(i));
        assert(s.drop_last()[i] == s[i]);
        lemma_entries_remove(s.drop_last(), i);
        assert(sr.last() == s.last());
        assert(s.last().0 != s[i].0);
        assert(entries_map(sr) =~= entries_map(s).remove(s[i].0));
    }
}

/// Key uniqueness survives replacing pair `i` with another pair of the same key.
pub proof fn lemma_unique_update<K, V>(s: Seq<(K, V)>, i: int, k: K, v: V)
    requires
        unique_keys(s),
        0 <= i < s.len(),
        s[i].0 == k,
    ensures
        unique_keys(s.update(i, (k, v))),
{
}

/// Key uniqueness survives removing a pair.
pub proof fn lemma_unique_remove<K, V>(s: Seq<(K, V)>, i: int)
    requires
        unique_keys(s),
        0 <= i < s.len(),
    ensures
        unique_keys(s.remove(i)),
{
    let sr = s.remove(i);
    assert forall|a: int, b: int| 0 <= a < b < sr.len() implies (#[trigger] sr[a]).0 != (#[trigger] sr[b]).0 by {
        if a < i && b < i {
            assert(sr[a] == s[a] && sr[b] == s[b]);
        } else if a < i {
            assert(sr[a] == s[a] && sr[b] == s[b + 1]);
        } else {
            assert(sr[a] == s[a + 1] && sr[b] == s[b + 1]);
        }
    }
}

/// Inserting a pair with a fresh key at any position adds its binding.
pub proof fn lemma_entries_insert_at<K, V: View>(s: Seq<(K, V)>, i: int, p: (K, V))
    requires
        0 <= i <= s.len(),
        forall|j: int| 0 <= j < s.len() ==> (#[trigger] s[j]).0 != p.0,
    ensures
        entries_map(s.insert(i, p)) == entries_map(s).insert(p.0, p.1@),
    decreases s.len(),
{
    let si = s.insert(i, p);
    if i == s.len() {
        assert(si.drop_last() =~= s);
        assert(si.last() == p);
        assert(entries_map(si) =~= entries_map(s).insert(p.0, p.1@));
    } else {
        assert(si.last() == s.last());
        assert(si.drop_last() =~= s.drop_last().insert(i, p));
        assert(forall|j: int|
            0 <= j < s.drop_last().len() ==> (#[trigger] s.drop_last()[j]).0 != p.0);
        lemma_entries_insert_at(s.drop_last(), i, p);
        assert(s.last().0 != p.0);
        assert(entries_map(si) =~= entries_map(s).insert(p.0, p.1@));
    }
}

/// Replaying stops immediately when every record is at or below `t`.
pub proof fn lemma_replay_noop<K, V: View>(m: Map<K, V::V>, undo: Seq<UndoEntry<K, V>>, t: Lsn)
    requires
        undo.len() > 0 ==> lsn_le(undo.last().lsn, t),
    ensures
        replay(m, undo, t) == m,
{
}

/// The view of an optional value.
pub open spec fn opt_view<V: View>(o: Option<V>) -> Option<V::V> {
    match o {
        Some(v) => Some(v@),
        None => None,
    }
}

/// Replaying two undo stacks that agree record by record, up to value views,
/// yields the same map.
pub proof fn lemma_replay_congruent<K, V: View>(
    m: Map<K, V::V>,
    u1: Seq<UndoEntry<K, V>>,
    u2: Seq<UndoEntry<K, V>>,
    t: Lsn,
)
    requires
        u1.len() == u2.len(),
        forall|i: int|
            0 <= i < u1.len() ==> (#[trigger] u1[i]).lsn == u2[i].lsn && u1[i].key == u2[i].key
                && opt_view(u1[i].prior) == opt_view(u2[i].prior),
    ensures
        replay(m, u1, t) == replay(m, u2, t),
    decreases u1.len(),
{
    if u1.len() > 0 {
        assert(u1.last().lsn == u2.last().lsn);
        if lsn_lt(t, u1.last().lsn) {
            assert(opt_view(u1.last().prior) == opt_view(u2.last().prior));
            assert(apply_undo(m, u1.last()) == apply_undo(m, u2.last()));
            assert(forall|i: int|
                0 <= i < u1.drop_last().len() ==> (#[trigger] u1.drop_last()[i]) == u1[i]
                    && u2.drop_last()[i] == u2[i]);
            lemma_replay_congruent(apply_undo(m, u1.last()), u1.drop_last(), u2.drop_last(), t);
        }
    }
}

impl<K: MvmKey, V: MvmValue> MultiVersionedMap<K, V> {
    /// An independent copy: same view, same log sequence number, and the same
    /// rollback states.
    pub fn clone_map(&self) -> (r: Self)
        requires
            self.wf(),
        ensures
            r.wf(),
            r@ == self@,
            r.lsn() == self.lsn(),
            forall|t: Lsn| #[trigger] r.state_at(t) == self.state_at(t),
    {
        let mut live: Vec<(K, V)> = Vec::new();
        let mut i: usize = 0;
        while i < self.live.len()
            invariant
                i <= self.live@.len(),
                live@.len() == i,
                forall|j: int|
                    0 <= j < i ==> (#[trigger] live@[j]).0 == self.live@[j].0 && live@[j].1@
                        == self.live@[j].1@,
            decreases self.live@.len() - i,
        {
            let v = self.live[i].1.duplicate();
            live.push((self.live[i].0, v));
            i = i + 1;
        }
        let mut undo: Vec<UndoEntry<K, V>> = Vec::new();
        let mut j: usize = 0;
        while j < self.undo.len()
            invariant
                j <= self.undo@.len(),
                undo@.len() == j,
                forall|k: int|
                    0 <= k < j ==> (#[trigger] undo@[k]).lsn == self.undo@[k].lsn && undo@[k].key
                        == self.undo@[k].key && opt_view(undo@[k].prior) == opt_view(
                        self.undo@[k].prior,
                    ),
            decreases self.undo@.len() - j,
        {
            let e = &self.undo[j];
            let prior: Option<V> = match &e.prior {
                Some(v) => Some(v.duplicate()),
                None => None,
            };
            undo.push(UndoEntry { lsn: e.lsn, key: e.key, prior });
            j = j + 1;
        }
        let r = MultiVersionedMap { live, undo, current_lsn: self.current_lsn };
        proof {
            lemma_entries_congruent(r.live@, self.live@);
            assert(r@ == self@);
            assert forall|t: Lsn| #[trigger] r.state_at(t) == self.state_at(t) by {
                lemma_replay_congruent(r@, r.undo@, self.undo@, t);
            }
            assert forall|a: int, b: int|
                0 <= a < b < r.live@.len() implies (#[trigger] r.live@[a]).0 != (
            #[trigger] r.live@[b]).0 by {
                assert(self.live@[a].0 != self.live@[b].0);
            }
        }
        r
    }
}

/// Two entry lists that agree key by key and value-view by value-view
/// describe the same map.
pub proof fn lemma_entries_congruent<K, V: View>(s1: Seq<(K, V)>, s2: Seq<(K, V)>)
    requires
        s1.len() == s2.len(),
        forall|j: int|
            0 <= j < s1.len() ==> (#[trigger] s1[j]).0 == s2[j].0 && s1[j].1@ == s2[j].1@,
    ensures
        entries_map(s1) == entries_map(s2),
    decreases s1.len(),
{
    if s1.len() > 0 {
        assert(forall|j: int|
            0 <= j < s1.drop_last().len() ==> (#[trigger] s1.drop_last()[j]) == s1[j]
                && s2.drop_last()[j] == s2[j]);
        lemma_entries_congruent(s1.drop_last(), s2.drop_last());
        assert(s1.last().0 == s2.last().0 && s1.last().1@ == s2.last().1@);
    }
}

} // verus!
