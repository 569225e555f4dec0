//! Service awards: per-validator activity bookkeeping and the deterministic
//! draw of at most one award winner per epoch.
//!
//! The engine's evolution is a pure function of its state and its inputs, so
//! the block producer and every receiving node compute the same winner from
//! the same activity map and randomness.

use vstd::pervasive::VecAdditionalExecFns;
use vstd::prelude::*;

use crate::block::copy_vec;
use crate::crypto::mix64;
use crate::crypto::mix64_exec;
use crate::crypto::AccountKey;
use crate::crypto::Digest;
use crate::crypto::MIX_SEED;
use crate::escrow::spec_clamp_i64;
use crate::mvm::unique_keys;
use crate::mvm::MvmValue;

verus! {

/// Word folded in before an award draw, separating it from other digest
/// domains.
pub const AWARD_DOMAIN: u64 = 0x4157415244;

/// Whether a validator served its slot or failed it, and where it failed.
#[derive(Clone, Copy, PartialEq, Eq, Structural, Debug)]
pub enum ValidatorAwardState {
    /// The validator produced its block.
    Active,
    /// The validator failed at the given epoch and offset.
    FailedAt(u64, u32),
}

impl View for ValidatorAwardState {
    type V = ValidatorAwardState;

    open spec fn view(&self) -> ValidatorAwardState {
        *self
    }
}

impl MvmValue for ValidatorAwardState {
    fn duplicate(&self) -> (r: Self) {
        *self
    }
}

/// Replace the state of `acc` in an association list, first match wins;
/// append when absent.
pub open spec fn spec_assoc_set(
    s: Seq<(AccountKey, ValidatorAwardState)>,
    acc: AccountKey,
    st: ValidatorAwardState,
) -> Seq<(AccountKey, ValidatorAwardState)>
    decreases s.len(),
{
    if s.len() == 0 {
        seq![(acc, st)]
    } else if s.first().0 == acc {
        seq![(acc, st)] + s.drop_first()
    } else {
        seq![s.first()] + spec_assoc_set(s.drop_first(), acc, st)
    }
}

/// The activity list after folding in a sequence of reports, first report
/// first.
pub open spec fn spec_finalize_activity(
    s: Seq<(AccountKey, ValidatorAwardState)>,
    acts: Seq<(AccountKey, ValidatorAwardState)>,
) -> Seq<(AccountKey, ValidatorAwardState)>
    decreases acts.len(),
{
    if acts.len() == 0 {
        s
    } else {
        spec_assoc_set(
            spec_finalize_activity(s, acts.drop_last()),
            acts.last().0,
            acts.last().1,
        )
    }
}

/// The state recorded for `acc`, first match wins.
pub open spec fn spec_assoc_get(
    s: Seq<(AccountKey, ValidatorAwardState)>,
    acc: AccountKey,
) -> Option<ValidatorAwardState>
    decreases s.len(),
{
    if s.len() == 0 {
        None
    } else if s.first().0 == acc {
        Some(s.first().1)
    } else {
        spec_assoc_get(s.drop_first(), acc)
    }
}

/// The accounts currently marked active, in list order.
pub open spec fn spec_participants(s: Seq<(AccountKey, ValidatorAwardState)>) -> Seq<AccountKey>
    decreases s.len(),
{
    if s.len() == 0 {
        Seq::empty()
    } else {
        let rest = spec_participants(s.drop_last());
        if s.last().1 is Active {
            rest.push(s.last().0)
        } else {
            rest
        }
    }
}

/// The winner the draw selects from an activity list, a budget, a bit
/// difficulty and a random value: none if nobody is active or the draw does
/// not meet the difficulty; otherwise the active account indexed by the
/// remaining random bits, awarded the whole budget.
pub open spec fn spec_winner(
    s: Seq<(AccountKey, ValidatorAwardState)>,
    budget: i64,
    difficulty: usize,
    random: Digest,
) -> Option<(AccountKey, i64)>
    recommends
        difficulty < 64,
{
    let parts = spec_participants(s);
    let h = mix64(mix64(MIX_SEED, AWARD_DOMAIN), random.value);
    let m = 1u64 << (difficulty as u64);
    if parts.len() == 0 {
        None
    } else if h % m != 0 {
        None
    } else {
        Some((parts[(h / m) as int % parts.len() as int], budget))
    }
}

/// The service-award engine: the accumulated pool, the draw difficulty in
/// bits, and the activity of every known account.
#[derive(PartialEq, Eq, Debug)]
pub struct Awards {
    pub budget: i64,
    pub difficulty: usize,
    pub activity: Vec<(AccountKey, ValidatorAwardState)>,
}

impl Awards {
    /// Structural invariant: one entry per account.
    pub open spec fn wf(&self) -> bool {
        unique_keys(self.activity@)
    }

    /// A fresh engine with an empty pool.
    pub fn new(difficulty: usize) -> (r: Awards)
        ensures
            r.wf(),
            r.budget == 0,
            r.difficulty == difficulty,
            r.activity@ == Seq::<(AccountKey, ValidatorAwardState)>::empty(),
    {
        let r = Awards { budget: 0, difficulty, activity: Vec::new() };
        proof {
            assert(r.activity@ =~= Seq::<(AccountKey, ValidatorAwardState)>::empty());
        }
        r
    }

    /// Record one activity report, overriding any prior state of the account.
    fn set_activity(&mut self, acc: AccountKey, st: ValidatorAwardState)
        requires
            old(self).wf(),
        ensures
            final(self).wf(),
            final(self).budget == old(self).budget,
            final(self).difficulty == old(self).difficulty,
            final(self).activity@ == spec_assoc_set(old(self).activity@, acc, st),
    {
        let ghost pre = self.activity@;
        let mut i: usize = 0;
        while i < self.activity.len()
            invariant
                self.activity@ == pre,
                pre == old(self).activity@,
                unique_keys(pre),
                self.budget == old(self).budget,
                self.difficulty == old(self).difficulty,
                i <= pre.len(),
                forall|j: int| 0 <= j < i ==> (#[trigger] pre[j]).0 != acc,
            decreases pre.len() - i,
        {
            if self.activity[i].0.value == acc.value {
                self.activity.set(i, (acc, st));
                proof {
                    crate::mvm::lemma_unique_update(pre, i as int, acc, st);
                    lemma_assoc_set_update(pre, i as int, acc, st);
                }
                return ;
            }
            i = i + 1;
        }
        self.activity.push((acc, st));
        proof {
            assert(self.activity@ == pre.push((acc, st)));
            assert(unique_keys(self.activity@));
            lemma_assoc_set_missing(pre, acc, st);
        }
    }

    /// Fold an epoch's activity reports into the engine and add the epoch's
    /// pool to the budget, saturating at the integer bound.
    pub fn finalize_epoch(&mut self, pool: i64, activities: &Vec<(AccountKey, ValidatorAwardState)>)
        requires
            old(self).wf(),
            0 <= pool,
        ensures
            final(self).wf(),
            final(self).budget == spec_clamp_i64(old(self).budget + pool),
            final(self).difficulty == old(self).difficulty,
            final(self).activity@ == spec_finalize_activity(old(self).activity@, activities@),
    {
        if self.budget > i64::MAX - pool {
            self.budget = i64::MAX;
        } else {
            self.budget = self.budget + pool;
        }
        let mut i: usize = 0;
        while i < activities.len()
            invariant
                self.wf(),
                self.budget == spec_clamp_i64(old(self).budget + pool),
                self.difficulty == old(self).difficulty,
                i <= activities@.len(),
                self.activity@ == spec_finalize_activity(
                    old(self).activity@,
                    activities@.take(i as int),
                ),
            decreases activities@.len() - i,
        {
            proof {
                assert(activities@.take(i + 1 as int).drop_last() =~= activities@.take(i as int));
                assert(activities@.take(i + 1 as int).last() == activities@[i as int]);
            }
            let a = activities[i];
            self.set_activity(a.0, a.1);
            i = i + 1;
        }
        proof {
            assert(activities@.take(activities@.len() as int) =~= activities@);
        }
    }

    /// Draw the award winner from `random`.  On a win the whole budget is
    /// paid out and the engine starts afresh; otherwise nothing changes and
    /// the pool keeps accumulating.
    pub fn check_winners(&mut self, random: Digest) -> (r: Option<(AccountKey, i64)>)
        requires
            old(self).wf(),
            old(self).difficulty < 64,
        ensures
            final(self).wf(),
            r == spec_winner(
                old(self).activity@,
                old(self).budget,
                old(self).difficulty,
                random,
            ),
            final(self).difficulty == old(self).difficulty,
            r is Some ==> final(self).budget == 0 && final(self).activity@ == Seq::<
                (AccountKey, ValidatorAwardState),
            >::empty(),
            r is None ==> final(self).budget == old(self).budget && final(self).activity@ == old(
                self,
            ).activity@,
    {
        let mut parts: Vec<AccountKey> = Vec::new();
        let mut i: usize = 0;
        while i < self.activity.len()
            invariant
                i <= self.activity@.len(),
                parts@ == spec_participants(self.activity@.take(i as int)),
            decreases self.activity@.len() - i,
        {
            proof {
                assert(self.activity@.take(i + 1 as int).drop_last() =~= self.activity@.take(
                    i as int,
                ));
                assert(self.activity@.take(i + 1 as int).last() == self.activity@[i as int]);
            }
            let e = self.activity[i];
            match e.1 {
                ValidatorAwardState::Active => {
                    parts.push(e.0);
                },
                ValidatorAwardState::FailedAt(_, _) => {},
            }
            i = i + 1;
        }
        proof {
            assert(self.activity@.take(self.activity@.len() as int) =~= self.activity@);
        }
        if parts.len() == 0 {
            return None;
        }
        let a = mix64_exec(MIX_SEED, AWARD_DOMAIN);
        let h = mix64_exec(a, random.value);
        let d = self.difficulty as u64;
        let m = 1u64 << d;
        proof {
            assert(d < 64 ==> (1u64 << d) != 0) by (bit_vector);
        }
        if h % m != 0 {
            return None;
        }
        let idx = ((h / m) % (parts.len() as u64)) as usize;
        let winner = parts[idx];
        let amount = self.budget;
        self.budget = 0;
        self.activity = Vec::new();
        proof {
            assert(self.activity@ =~= Seq::<(AccountKey, ValidatorAwardState)>::empty());
        }
        Some((winner, amount))
    }
}

impl Clone for Awards {
    /// A copy with the same pool, difficulty and activity.
    fn clone(&self) -> (r: Self)
        ensures
            r.budget == self.budget,
            r.difficulty == self.difficulty,
            r.activity@ == self.activity@,
    {
        Awards {
            budget: self.budget,
            difficulty: self.difficulty,
            activity: copy_vec(&self.activity),
        }
    }
}

/// Replacing the unique occurrence of a key matches the first-match spec.
pub proof fn lemma_assoc_set_update(
    s: Seq<(AccountKey, ValidatorAwardState)>,
    i: int,
    acc: AccountKey,
    st: ValidatorAwardState,
)
    requires
        0 <= i < s.len(),
        s[i].0 == acc,
        forall|j: int| 0 <= j < i ==> (#[trigger] s[j]).0 != acc,
    ensures
        spec_assoc_set(s, acc, st) == s.update(i, (acc, st)),
    decreases i,
{
    if i == 0 {
        assert(s.first().0 == acc);
        assert(spec_assoc_set(s, acc, st) =~= s.update(0, (acc, st)));
    } else {
        assert(s.first().0 != acc);
        assert(s.drop_first()[i - 1].0 == acc);
        assert(forall|j: int| 0 <= j < i - 1 ==> (#[trigger] s.drop_first()[j]).0 != acc);
        lemma_assoc_set_update(s.drop_first(), i - 1, acc, st);
        assert(spec_assoc_set(s, acc, st) =~= s.update(i, (acc, st)));
    }
}

/// Appending a missing key matches the first-match spec.
pub proof fn lemma_assoc_set_missing(
    s: Seq<(AccountKey, ValidatorAwardState)>,
    acc: AccountKey,
    st: ValidatorAwardState,
)
    requires
        forall|j: int| 0 <= j < s.len() ==> (#[trigger] s[j]).0 != acc,
    ensures
        spec_assoc_set(s, acc, st) == s.push((acc, st)),
    decreases s.len(),
{
    if s.len() == 0 {
        assert(spec_assoc_set(s, acc, st) =~= s.push((acc, st)));
    } else {
        assert(s.first().0 != acc);
        assert(forall|j: int| 0 <= j < s.drop_first().len() ==> (#[trigger] s.drop_first()[j]).0 != acc);
        lemma_assoc_set_missing(s.drop_first(), acc, st);
        assert(spec_assoc_set(s, acc, st) =~= s.push((acc, st)));
    }
}

} // verus!
