//! Election of validator slots and leaders.
//!
//! The slot assignment is a pure function of the eligible stakes, the
//! verifiable-random value of the sealing macro block, and the slot count:
//! every slot is drawn by a deterministic weighted pick, so re-running the
//! election on the same inputs yields the identical result.

use vstd::prelude::*;

use crate::block::copy_vec;
use crate::crypto::mix64;
use crate::crypto::mix64_exec;
use crate::crypto::NetworkKey;
use crate::crypto::Vrf;
use crate::crypto::MIX_SEED;
use crate::mvm::MvmValue;

verus! {

/// Word folded in before a slot seed, separating the election from other
/// digest domains.
pub const SLOT_DOMAIN: u64 = 0x534c4f54;

/// The outcome of one election: the eligible validators with their stakes,
/// the drawn slot schedule, and the in-epoch view-change state.
#[derive(PartialEq, Eq, Debug)]
pub struct ElectionResult {
    /// The eligible validators with their aggregate stakes.
    pub validators: Vec<(NetworkKey, i64)>,
    /// The leader schedule: one validator per slot.
    pub slots: Vec<NetworkKey>,
    /// The validator of slot zero.
    pub facilitator: NetworkKey,
    /// The randomness the slots were drawn from.
    pub random: Vrf,
    /// Number of view changes at the current offset.
    pub view_change: u32,
}

/// The mathematical content of an election result.
pub struct ElectionResultView {
    pub validators: Seq<(NetworkKey, i64)>,
    pub slots: Seq<NetworkKey>,
    pub facilitator: NetworkKey,
    pub random: Vrf,
    pub view_change: u32,
}

impl View for ElectionResult {
    type V = ElectionResultView;

    open spec fn view(&self) -> ElectionResultView {
        ElectionResultView {
            validators: self.validators@,
            slots: self.slots@,
            facilitator: self.facilitator,
            random: self.random,
            view_change: self.view_change,
        }
    }
}

impl Clone for ElectionResult {
    /// A copy with the same view.
    fn clone(&self) -> (r: Self)
        ensures
            r@ == self@,
    {
        ElectionResult {
            validators: copy_vec(&self.validators),
            slots: copy_vec(&self.slots),
            facilitator: self.facilitator,
            random: self.random,
            view_change: self.view_change,
        }
    }
}

impl MvmValue for ElectionResult {
    fn duplicate(&self) -> (r: Self) {
        self.clone()
    }
}

/// The total stake of a validator list.
pub open spec fn spec_total_stake(s: Seq<(NetworkKey, i64)>) -> int
    decreases s.len(),
{
    if s.len() == 0 {
        0
    } else {
        spec_total_stake(s.drop_last()) + s.last().1 as int
    }
}

/// The validator owning position `r` of the stake line `[0, total)`: walk the
/// list, subtracting each stake, until the remainder falls inside one.
pub open spec fn spec_weighted_pick(s: Seq<(NetworkKey, i64)>, r: int) -> NetworkKey
    decreases s.len(),
{
    if s.len() <= 1 {
        s[0].0
    } else if r < s[0].1 as int {
        s[0].0
    } else {
        spec_weighted_pick(s.drop_first(), r - s[0].1 as int)
    }
}

/// The seed of slot `i`.
pub open spec fn spec_slot_seed(random: Vrf, i: int) -> u64 {
    mix64(mix64(mix64(MIX_SEED, SLOT_DOMAIN), random.rand.value), i as u64)
}

/// The validator drawn for slot `i`.
pub open spec fn spec_slot(s: Seq<(NetworkKey, i64)>, random: Vrf, i: int) -> NetworkKey
    recommends
        spec_total_stake(s) > 0,
{
    spec_weighted_pick(s, spec_slot_seed(random, i) as int % spec_total_stake(s))
}

/// The leader of view change `v` under an election result: the slot at the
/// view-change index, wrapping around the schedule.
pub open spec fn spec_select_leader(e: ElectionResultView, v: u32) -> NetworkKey
    recommends
        e.slots.len() > 0,
{
    e.slots[v as int % e.slots.len() as int]
}

/// Every stake is non-negative.
pub open spec fn spec_stakes_nonneg(s: Seq<(NetworkKey, i64)>) -> bool {
    forall|i: int| 0 <= i < s.len() ==> (#[trigger] s[i]).1 >= 0
}

impl ElectionResult {
    /// The leader of view change `view_change`.
    pub fn select_leader(&self, view_change: u32) -> (r: NetworkKey)
        requires
            self@.slots.len() > 0,
        ensures
            r == spec_select_leader(self@, view_change),
    {
        let n = self.slots.len();
        self.slots[(view_change as usize) % n]
    }

    /// Whether `peer` is one of the eligible validators.
    pub fn is_validator(&self, peer: &NetworkKey) -> (r: bool)
        ensures
            r == exists|i: int|
                0 <= i < self@.validators.len() && (#[trigger] self@.validators[i]).0 == *peer,
    {
        let mut i: usize = 0;
        while i < self.validators.len()
            invariant
                i <= self.validators@.len(),
                forall|j: int| 0 <= j < i ==> (#[trigger] self.validators@[j]).0 != *peer,
            decreases self.validators@.len() - i,
        {
            if self.validators[i].0.value == peer.value {
                proof {
                    assert((#[trigger] self@.validators[i as int]).0 == *peer);
                }
                return true;
            }
            i = i + 1;
        }
        false
    }
}

/// The total stake of a validator list, as a wide integer.
fn total_stake_wide(s: &Vec<(NetworkKey, i64)>) -> (r: i128)
    ensures
        r as int == spec_total_stake(s@),
{
    let mut total: i128 = 0;
    let mut i: usize = 0;
    while i < s.len()
        invariant
            i <= s@.len(),
            total as int == spec_total_stake(s@.take(i as int)),
            -0x8000_0000_0000_0000i128 * (i as i128) <= total,
            total <= 0x8000_0000_0000_0000i128 * (i as i128),
        decreases s@.len() - i,
    {
        proof {
            assert(s@.take(i + 1 as int).drop_last() =~= s@.take(i as int));
            assert(s@.take(i + 1 as int).last() == s@[i as int]);
        }
        total = total + s[i].1 as i128;
        i = i + 1;
    }
    proof {
        assert(s@.take(s@.len() as int) =~= s@);
    }
    total
}

/// Pick the validator owning position `r` of the stake line.
fn weighted_pick(s: &Vec<(NetworkKey, i64)>, r: u128) -> (w: NetworkKey)
    requires
        s@.len() > 0,
        spec_stakes_nonneg(s@),
        (r as int) < spec_total_stake(s@),
    ensures
        w == spec_weighted_pick(s@, r as int),
{
    proof {
        assert(s@.skip(0) =~= s@);
    }
    let mut i: usize = 0;
    let mut rest = r;
    while i < s.len() - 1
        invariant
            s@.len() > 0,
            spec_stakes_nonneg(s@),
            i < s@.len(),
            rest <= r,
            (rest as int) < spec_total_stake(s@.skip(i as int)),
            spec_weighted_pick(s@, r as int) == spec_weighted_pick(s@.skip(i as int), rest as int),
        decreases s@.len() - i,
    {
        let ghost suf = s@.skip(i as int);
        proof {
            assert(suf[0] == s@[i as int]);
            assert(suf.drop_first() =~= s@.skip(i + 1 as int));
        }
        if rest < s[i].1 as u128 {
            proof {
                assert(spec_weighted_pick(suf, rest as int) == suf[0].0);
            }
            return s[i].0;
        }
        proof {
            lemma_total_stake_first(suf);
        }
        rest = rest - s[i].1 as u128;
        i = i + 1;
    }
    proof {
        let suf = s@.skip(i as int);
        assert(suf.len() == 1);
        assert(suf[0] == s@[i as int]);
        assert(spec_weighted_pick(suf, rest as int) == suf[0].0);
    }
    s[i].0
}

/// Splitting off the first element splits the total stake.
proof fn lemma_total_stake_first(s: Seq<(NetworkKey, i64)>)
    requires
        s.len() > 0,
    ensures
        spec_total_stake(s) == s[0].1 as int + spec_total_stake(s.drop_first()),
    decreases s.len(),
{
    if s.len() == 1 {
        assert(s.drop_last() =~= Seq::<(NetworkKey, i64)>::empty());
        assert(s.drop_first() =~= Seq::<(NetworkKey, i64)>::empty());
    } else {
        lemma_total_stake_first(s.drop_last());
        assert(s.drop_last()[0] == s[0]);
        assert(s.drop_first().drop_last() =~= s.drop_last().drop_first());
        assert(s.drop_first().last() == s.last());
    }
}

/// Derive the slot schedule from the eligible stakes, the randomness of the
/// sealing macro block, and the configured slot count.  The result is a pure
/// function of these three arguments: equal inputs give the identical result.
/// With no stake at all there is nobody to elect, and every slot carries the
/// null key.
pub fn select_validators_slots(stakes: Vec<(NetworkKey, i64)>, random: Vrf, max_slot_count: i64) -> (r:
    ElectionResult)
    requires
        0 < max_slot_count <= 1000000,
        spec_stakes_nonneg(stakes@),
    ensures
        r@.validators == stakes@,
        r@.random == random,
        r@.view_change == 0,
        r@.slots.len() == max_slot_count,
        spec_total_stake(stakes@) > 0 ==> forall|i: int|
            0 <= i < max_slot_count ==> (#[trigger] r@.slots[i]) == spec_slot(stakes@, random, i),
        spec_total_stake(stakes@) > 0 ==> r@.facilitator == spec_slot(stakes@, random, 0),
        spec_total_stake(stakes@) <= 0 ==> forall|i: int|
            0 <= i < max_slot_count ==> (#[trigger] r@.slots[i]) == (NetworkKey { value: 0 }),
        spec_total_stake(stakes@) <= 0 ==> r@.facilitator == (NetworkKey { value: 0 }),
{
    let total = total_stake_wide(&stakes);
    let mut slots: Vec<NetworkKey> = Vec::new();
    let count = max_slot_count as usize;
    let mut i: usize = 0;
    if total > 0 {
        proof {
            assert(stakes@.len() > 0);
        }
        while i < count
            invariant
                count == max_slot_count,
                0 < max_slot_count <= 1000000,
                stakes@.len() > 0,
                spec_stakes_nonneg(stakes@),
                spec_total_stake(stakes@) > 0,
                total as int == spec_total_stake(stakes@),
                i <= count,
                slots@.len() == i,
                forall|j: int| 0 <= j < i ==> (#[trigger] slots@[j]) == spec_slot(stakes@, random, j),
            decreases count - i,
        {
            let a = mix64_exec(MIX_SEED, SLOT_DOMAIN);
            let b = mix64_exec(a, random.rand.value);
            let seed = mix64_exec(b, i as u64);
            let r = (seed as u128) % (total as u128);
            let w = weighted_pick(&stakes, r);
            slots.push(w);
            i = i + 1;
        }
    } else {
        while i < count
            invariant
                count == max_slot_count,
                i <= count,
                slots@.len() == i,
                forall|j: int| 0 <= j < i ==> (#[trigger] slots@[j]) == (NetworkKey { value: 0 }),
            decreases count - i,
        {
            slots.push(NetworkKey { value: 0 });
            i = i + 1;
        }
    }
    let facilitator = slots[0];
    ElectionResult { validators: stakes, slots, facilitator, random, view_change: 0 }
}

/// A non-empty list of positive stakes has positive total.
pub proof fn lemma_total_stake_pos(s: Seq<(NetworkKey, i64)>)
    requires
        s.len() > 0,
        forall|i: int| 0 <= i < s.len() ==> (#[trigger] s[i]).1 >= 1,
    ensures
        spec_total_stake(s) > 0,
    decreases s.len(),
{
    assert(s[s.len() - 1].1 >= 1);
    assert(s.last() == s[s.len() - 1]);
    if s.len() > 1 {
        assert(forall|i: int|
            0 <= i < s.drop_last().len() ==> (#[trigger] s.drop_last()[i]) == s[i]);
        lemma_total_stake_pos(s.drop_last());
    } else {
        assert(s.drop_last().len() == 0);
        assert(spec_total_stake(s.drop_last()) == 0);
    }
}

/// The election is deterministic: drawing slots twice from the same stakes,
/// randomness and slot count gives the identical schedule.
pub proof fn lemma_election_deterministic(
    a: ElectionResultView,
    b: ElectionResultView,
    stakes: Seq<(NetworkKey, i64)>,
    random: Vrf,
    max_slot_count: i64,
)
    requires
        a.validators == stakes && b.validators == stakes,
        a.random == random && b.random == random,
        a.slots.len() == max_slot_count && b.slots.len() == max_slot_count,
        forall|i: int| 0 <= i < max_slot_count ==> (#[trigger] a.slots[i]) == spec_slot(stakes, random, i),
        forall|i: int| 0 <= i < max_slot_count ==> (#[trigger] b.slots[i]) == spec_slot(stakes, random, i),
        a.facilitator == spec_slot(stakes, random, 0),
        b.facilitator == spec_slot(stakes, random, 0),
        a.view_change == 0 && b.view_change == 0,
    ensures
        a.slots == b.slots,
        a.validators == b.validators,
        a.facilitator == b.facilitator,
{
    assert(a.slots =~= b.slots);
}

/// Summary of the election state, as reported to the host.
#[derive(Clone, Copy, PartialEq, Eq, Structural, Debug)]
pub struct ElectionInfo {
    pub epoch: u64,
    pub offset: u32,
    pub view_change: u32,
    pub slots_count: i64,
    pub current_leader: NetworkKey,
    pub next_leader: NetworkKey,
}

} // verus!
