//! Stake escrow: the live stakes of every validator, with maturity epochs,
//! kept in a multi-versioned map so that micro-block rollbacks restore
//! exactly the prior escrow.

use vstd::prelude::*;

use crate::crypto::AccountKey;
use crate::crypto::Digest;
use crate::crypto::NetworkKey;
use crate::error::BlockchainError;
use crate::mvm::lsn_le;
use crate::mvm::lsn_lt;
use crate::mvm::Lsn;
use crate::mvm::MultiVersionedMap;
use crate::mvm::MvmKey;
use crate::mvm::MvmValue;
use crate::output::Output;

verus! {

/// Key of one stake: the validator it empowers and the hash of the stake
/// output that funds it.
#[derive(Clone, Copy, PartialEq, Eq, Structural, Debug)]
pub struct EscrowKey {
    pub validator: NetworkKey,
    pub output_hash: Digest,
}

impl MvmKey for EscrowKey {
    fn key_eq(&self, other: &Self) -> (r: bool) {
        self.validator.value == other.validator.value && self.output_hash.value
            == other.output_hash.value
    }
}

/// One stake: the owning account, the first epoch at which it may be spent,
/// and its amount.
#[derive(Clone, Copy, PartialEq, Eq, Structural, Debug)]
pub struct EscrowValue {
    pub account: AccountKey,
    pub active_until_epoch: u64,
    pub amount: i64,
}

impl View for EscrowValue {
    type V = EscrowValue;

    open spec fn view(&self) -> EscrowValue {
        *self
    }
}

impl MvmValue for EscrowValue {
    fn duplicate(&self) -> (r: Self) {
        *self
    }
}

/// Aggregate stake of `v` over the escrow entries.
pub open spec fn spec_validator_stake(s: Seq<(EscrowKey, EscrowValue)>, v: NetworkKey) -> int
    decreases s.len(),
{
    if s.len() == 0 {
        0
    } else {
        spec_validator_stake(s.drop_last(), v) + if s.last().0.validator == v {
            s.last().1.amount as int
        } else {
            0
        }
    }
}

/// Aggregate still-locked stake of `v` at `epoch`: the amounts whose
/// `active_until_epoch` lies beyond `epoch`.
pub open spec fn spec_validator_locked(
    s: Seq<(EscrowKey, EscrowValue)>,
    v: NetworkKey,
    epoch: u64,
) -> int
    decreases s.len(),
{
    if s.len() == 0 {
        0
    } else {
        spec_validator_locked(s.drop_last(), v, epoch) + if s.last().0.validator == v
            && s.last().1.active_until_epoch > epoch {
            s.last().1.amount as int
        } else {
            0
        }
    }
}

/// Aggregate stake of `v` that is still active at `epoch`: the amounts whose
/// `active_until_epoch` has not passed yet.  Expired stakes stay spendable
/// but no longer make their validator electable.
pub open spec fn spec_validator_active_stake(
    s: Seq<(EscrowKey, EscrowValue)>,
    v: NetworkKey,
    epoch: u64,
) -> int
    decreases s.len(),
{
    if s.len() == 0 {
        0
    } else {
        spec_validator_active_stake(s.drop_last(), v, epoch) + if s.last().0.validator == v
            && s.last().1.active_until_epoch >= epoch {
            s.last().1.amount as int
        } else {
            0
        }
    }
}

/// The account of the first escrow entry of `v`, if it has any.
pub open spec fn spec_account_of(s: Seq<(EscrowKey, EscrowValue)>, v: NetworkKey) -> Option<
    AccountKey,
>
    decreases s.len(),
{
    if s.len() == 0 {
        None
    } else if s.first().0.validator == v {
        Some(s.first().1.account)
    } else {
        spec_account_of(s.drop_first(), v)
    }
}

/// Whether some escrow entry belongs to `v`.
pub open spec fn spec_has_validator(s: Seq<(EscrowKey, EscrowValue)>, v: NetworkKey) -> bool {
    exists|i: int| 0 <= i < s.len() && (#[trigger] s[i]).0.validator == v
}

/// The stakes of `v` among the entries, oldest first: output hash, amount,
/// owning account, maturity epoch.
pub open spec fn spec_stakes_of(
    s: Seq<(EscrowKey, EscrowValue)>,
    v: NetworkKey,
) -> Seq<(Digest, i64, AccountKey, u64)>
    decreases s.len(),
{
    if s.len() == 0 {
        Seq::empty()
    } else {
        let rest = spec_stakes_of(s.drop_last(), v);
        if s.last().0.validator == v {
            rest.push(
                (
                    s.last().0.output_hash,
                    s.last().1.amount,
                    s.last().1.account,
                    s.last().1.active_until_epoch,
                ),
            )
        } else {
            rest
        }
    }
}

/// A correct staker list for the given entries, epoch and threshold: sorted
/// by network key, without duplicates, holding exactly the validators whose
/// aggregate stake still active at `epoch` reaches `min_stake`, each with
/// that aggregate.
pub open spec fn spec_stakers_ok(
    s: Seq<(EscrowKey, EscrowValue)>,
    epoch: u64,
    min_stake: i64,
    r: Seq<(NetworkKey, i64)>,
) -> bool {
    &&& (forall|i: int, j: int|
        0 <= i < j < r.len() ==> (#[trigger] r[i]).0.value < (#[trigger] r[j]).0.value)
    &&& (forall|i: int|
        0 <= i < r.len() ==> {
            &&& spec_has_validator(s, (#[trigger] r[i]).0)
            &&& r[i].1 == spec_validator_active_stake(s, r[i].0, epoch)
            &&& min_stake <= r[i].1
        })
    &&& (forall|v: NetworkKey|
        (spec_has_validator(s, v) && min_stake <= spec_validator_active_stake(s, v, epoch)
            && spec_validator_active_stake(s, v, epoch) <= i64::MAX as int) ==> #[trigger] r.contains(
            (v, spec_validator_active_stake(s, v, epoch) as i64),
        ))
}

/// Summary of the escrow: every validator with its aggregate stake.
#[derive(PartialEq, Eq, Debug)]
pub struct EscrowInfo {
    pub validators: Vec<(NetworkKey, i64)>,
}

impl Clone for EscrowInfo {
    /// A copy with the same validators.
    fn clone(&self) -> (r: Self)
        ensures
            r.validators@ == self.validators@,
    {
        EscrowInfo { validators: crate::block::copy_vec(&self.validators) }
    }
}

/// The stake escrow.
pub struct Escrow {
    pub stakes: MultiVersionedMap<EscrowKey, EscrowValue>,
}

impl Escrow {
    /// The current escrow as a map.
    pub open spec fn view(&self) -> Map<EscrowKey, EscrowValue> {
        self.stakes@
    }

    /// The live escrow entries, in insertion order.
    pub open spec fn entries(&self) -> Seq<(EscrowKey, EscrowValue)> {
        self.stakes.entries()
    }

    /// Structural invariant.
    pub open spec fn wf(&self) -> bool {
        self.stakes.wf()
    }

    /// The current log sequence number.
    pub open spec fn lsn(&self) -> Lsn {
        self.stakes.lsn()
    }

    /// The escrow as it stood at LSN `t`.
    pub open spec fn state_at(&self, t: Lsn) -> Map<EscrowKey, EscrowValue> {
        self.stakes.state_at(t)
    }

    /// A fresh empty escrow.
    pub fn new() -> (r: Escrow)
        ensures
            r.wf(),
            r.view() == Map::<EscrowKey, EscrowValue>::empty(),
            r.lsn() == Lsn(0, 0),
    {
        Escrow { stakes: MultiVersionedMap::new() }
    }

    /// The current log sequence number.
    pub fn current_lsn(&self) -> (r: Lsn)
        ensures
            r == self.lsn(),
    {
        self.stakes.current_lsn()
    }

    /// Record a new stake of `amount` for `validator`, owned by `account`,
    /// spendable from epoch `epoch + stake_epochs` on.
    pub fn stake(
        &mut self,
        lsn: Lsn,
        validator: NetworkKey,
        account: AccountKey,
        output_hash: Digest,
        epoch: u64,
        stake_epochs: u64,
        amount: i64,
    )
        requires
            old(self).wf(),
            lsn_le(old(self).lsn(), lsn),
            epoch + stake_epochs <= u64::MAX,
        ensures
            final(self).wf(),
            final(self).view() == old(self).view().insert(
                EscrowKey { validator, output_hash },
                EscrowValue { account, active_until_epoch: (epoch + stake_epochs) as u64, amount },
            ),
            final(self).lsn() == lsn,
            forall|t: Lsn| lsn_lt(t, lsn) ==> final(self).state_at(t) == old(self).state_at(t),
    {
        let key = EscrowKey { validator, output_hash };
        let value = EscrowValue { account, active_until_epoch: epoch + stake_epochs, amount };
        let _ = self.stakes.insert(lsn, key, value);
    }

    /// Remove the stake funded by `output_hash`; the caller has already
    /// checked, through `validate_stakes`, that the spend is legitimate.
    pub fn unstake(&mut self, lsn: Lsn, validator: NetworkKey, output_hash: Digest, _epoch: u64)
        requires
            old(self).wf(),
            lsn_le(old(self).lsn(), lsn),
        ensures
            final(self).wf(),
            final(self).view() == old(self).view().remove(EscrowKey { validator, output_hash }),
            final(self).lsn() == lsn,
            forall|t: Lsn| lsn_lt(t, lsn) ==> final(self).state_at(t) == old(self).state_at(t),
    {
        let key = EscrowKey { validator, output_hash };
        let _ = self.stakes.remove(lsn, &key);
    }

    /// Advance the escrow's LSN without touching the stakes.
    pub fn advance_lsn(&mut self, lsn: Lsn)
        requires
            old(self).wf(),
            lsn_le(old(self).lsn(), lsn),
        ensures
            final(self).wf(),
            final(self).view() == old(self).view(),
            final(self).entries() == old(self).entries(),
            final(self).lsn() == lsn,
            forall|t: Lsn| final(self).state_at(t) == old(self).state_at(t),
    {
        self.stakes.advance_lsn(lsn);
    }

    /// Make the current escrow permanent: discard the undo log.
    pub fn checkpoint(&mut self)
        requires
            old(self).wf(),
        ensures
            final(self).wf(),
            final(self).view() == old(self).view(),
            final(self).entries() == old(self).entries(),
            final(self).lsn() == old(self).lsn(),
            forall|t: Lsn| final(self).state_at(t) == final(self).view(),
    {
        self.stakes.checkpoint();
    }

    /// Roll the escrow back to its state at `target`.
    pub fn rollback_to_lsn(&mut self, target: Lsn)
        requires
            old(self).wf(),
        ensures
            final(self).wf(),
            final(self).view() == old(self).state_at(target),
            lsn_le(old(self).lsn(), target) ==> final(self).lsn() == old(self).lsn(),
            !lsn_le(old(self).lsn(), target) ==> final(self).lsn() == target,
            forall|t: Lsn| lsn_le(t, target) ==> final(self).state_at(t) == old(self).state_at(t),
    {
        self.stakes.rollback_to_lsn(target);
    }

    /// The account that owns the stakes of `validator`, if it has any: the
    /// account of its first escrow entry.
    pub fn account_by_network_key(&self, validator: &NetworkKey) -> (r: Option<AccountKey>)
        requires
            self.wf(),
        ensures
            r == spec_account_of(self.entries(), *validator),
            r is None <==> !spec_has_validator(self.entries(), *validator),
    {
        proof {
            assert(self.entries().skip(0) =~= self.entries());
        }
        let entries = self.stakes.live_entries();
        let mut i: usize = 0;
        while i < entries.len()
            invariant
                i <= entries@.len(),
                entries@ == self.entries(),
                forall|j: int| 0 <= j < i ==> (#[trigger] entries@[j]).0.validator != *validator,
                spec_account_of(self.entries(), *validator) == spec_account_of(
                    self.entries().skip(i as int),
                    *validator,
                ),
            decreases entries@.len() - i,
        {
            let ghost suf = self.entries().skip(i as int);
            proof {
                assert(suf.first() == self.entries()[i as int]);
                assert(suf.drop_first() =~= self.entries().skip(i + 1 as int));
            }
            if entries[i].0.validator.value == validator.value {
                return Some(entries[i].1.account);
            }
            i = i + 1;
        }
        proof {
            assert(self.entries().skip(i as int) =~= Seq::<(EscrowKey, EscrowValue)>::empty());
        }
        None
    }

    /// The stakes of `validator`, oldest first: output hash, amount, owning
    /// account, maturity epoch.
    pub fn iter_validator_stakes(&self, validator: &NetworkKey) -> (r: Vec<
        (Digest, i64, AccountKey, u64),
    >)
        requires
            self.wf(),
        ensures
            r@ == spec_stakes_of(self.entries(), *validator),
    {
        let entries = self.stakes.live_entries();
        let mut r: Vec<(Digest, i64, AccountKey, u64)> = Vec::new();
        let mut i: usize = 0;
        while i < entries.len()
            invariant
                i <= entries@.len(),
                entries@ == self.entries(),
                r@ == spec_stakes_of(self.entries().take(i as int), *validator),
            decreases entries@.len() - i,
        {
            proof {
                assert(self.entries().take(i + 1 as int).drop_last() =~= self.entries().take(
                    i as int,
                ));
                assert(self.entries().take(i + 1 as int).last() == self.entries()[i as int]);
            }
            let e = &entries[i];
            if e.0.validator.value == validator.value {
                r.push((e.0.output_hash, e.1.amount, e.1.account, e.1.active_until_epoch));
            }
            i = i + 1;
        }
        proof {
            assert(self.entries().take(self.entries().len() as int) =~= self.entries());
        }
        r
    }

    /// Aggregate stake of `validator`, as a wide integer.
    fn validator_stake_wide(&self, validator: &NetworkKey) -> (r: i128)
        requires
            self.wf(),
        ensures
            r as int == spec_validator_stake(self.entries(), *validator),
            -0x8000_0000_0000_0000i128 * (self.entries().len() as i128) <= r <= 0x8000_0000_0000_0000i128 * (self.entries().len() as i128),
    {
        let entries = self.stakes.live_entries();
        let mut total: i128 = 0;
        let mut i: usize = 0;
        while i < entries.len()
            invariant
                i <= entries@.len(),
                entries@ == self.entries(),
                total as int == spec_validator_stake(self.entries().take(i as int), *validator),
                -0x8000_0000_0000_0000i128 * (i as i128) <= total,
                total <= 0x8000_0000_0000_0000i128 * (i as i128),
            decreases entries@.len() - i,
        {
            proof {
                assert(self.entries().take(i + 1 as int).drop_last() =~= self.entries().take(
                    i as int,
                ));
                assert(self.entries().take(i + 1 as int).last() == self.entries()[i as int]);
            }
            let e = &entries[i];
            if e.0.validator.value == validator.value {
                total = total + e.1.amount as i128;
            }
            i = i + 1;
        }
        proof {
            assert(self.entries().take(self.entries().len() as int) =~= self.entries());
        }
        total
    }

    /// Aggregate stake of `validator` still active at `epoch`, as a wide
    /// integer.
    fn validator_active_stake_wide(&self, validator: &NetworkKey, epoch: u64) -> (r: i128)
        requires
            self.wf(),
        ensures
            r as int == spec_validator_active_stake(self.entries(), *validator, epoch),
            -0x8000_0000_0000_0000i128 * (self.entries().len() as i128) <= r <= 0x8000_0000_0000_0000i128 * (self.entries().len() as i128),
    {
        let entries = self.stakes.live_entries();
        let mut total: i128 = 0;
        let mut i: usize = 0;
        while i < entries.len()
            invariant
                i <= entries@.len(),
                entries@ == self.entries(),
                total as int == spec_validator_active_stake(
                    self.entries().take(i as int),
                    *validator,
                    epoch,
                ),
                -0x8000_0000_0000_0000i128 * (i as i128) <= total,
                total <= 0x8000_0000_0000_0000i128 * (i as i128),
            decreases entries@.len() - i,
        {
            proof {
                assert(self.entries().take(i + 1 as int).drop_last() =~= self.entries().take(
                    i as int,
                ));
                assert(self.entries().take(i + 1 as int).last() == self.entries()[i as int]);
            }
            let en = &entries[i];
            if en.0.validator.value == validator.value && en.1.active_until_epoch >= epoch {
                total = total + en.1.amount as i128;
            }
            i = i + 1;
        }
        proof {
            assert(self.entries().take(self.entries().len() as int) =~= self.entries());
        }
        total
    }

    /// The validators whose aggregate stake still active at `epoch` reaches
    /// `min_stake`, each with that aggregate, sorted by network key.
    pub fn get_stakers_majority(&self, epoch: u64, min_stake: i64) -> (r: Vec<(NetworkKey, i64)>)
        requires
            self.wf(),
        ensures
            spec_stakers_ok(self.entries(), epoch, min_stake, r@),
    {
        let keys = self.distinct_validators();
        let mut r: Vec<(NetworkKey, i64)> = Vec::new();
        let mut i: usize = 0;
        while i < keys.len()
            invariant
                self.wf(),
                i <= keys@.len(),
                forall|a: int, b: int|
                    0 <= a < b < keys@.len() ==> (#[trigger] keys@[a]).value < (
                    #[trigger] keys@[b]).value,
                forall|k: NetworkKey|
                    #[trigger] keys@.contains(k) ==> spec_has_validator(self.entries(), k),
                forall|v: NetworkKey|
                    spec_has_validator(self.entries(), v) ==> #[trigger] keys@.contains(v),
                forall|a: int, b: int|
                    0 <= a < b < r@.len() ==> (#[trigger] r@[a]).0.value < (
                    #[trigger] r@[b]).0.value,
                forall|j: int|
                    0 <= j < r@.len() ==> {
                        &&& spec_has_validator(self.entries(), (#[trigger] r@[j]).0)
                        &&& r@[j].1 == spec_validator_active_stake(self.entries(), r@[j].0, epoch)
                        &&& min_stake <= r@[j].1
                    },
                forall|j: int|
                    0 <= j < r@.len() ==> keys@.take(i as int).contains((#[trigger] r@[j]).0),
                forall|m: int|
                    0 <= m < i && min_stake as int <= spec_validator_active_stake(
                        self.entries(),
                        (#[trigger] keys@[m]),
                        epoch,
                    ) <= i64::MAX as int ==> r@.contains(
                        (keys@[m], spec_validator_active_stake(self.entries(), keys@[m], epoch) as i64),
                    ),
            decreases keys@.len() - i,
        {
            let v = keys[i];
            let total = self.validator_active_stake_wide(&v, epoch);
            let ghost pre = r@;
            if min_stake as i128 <= total && total <= i64::MAX as i128 {
                r.push((v, total as i64));
                proof {
                    assert(keys@.contains(keys@[i as int]));
                    assert forall|a: int, b: int|
                        0 <= a < b < r@.len() implies (#[trigger] r@[a]).0.value < (
                    #[trigger] r@[b]).0.value by {
                        if b == r@.len() - 1 {
                            let m = choose|m: int|
                                0 <= m < i && keys@.take(i as int)[m] == (#[trigger] pre[a]).0;
                            assert(keys@[m].value < keys@[i as int].value);
                        }
                    }
                }
            }
            proof {
                assert forall|j: int|
                    0 <= j < r@.len() implies keys@.take(i + 1 as int).contains(
                    (#[trigger] r@[j]).0,
                ) by {
                    if j < pre.len() {
                        let m = choose|m: int|
                            0 <= m < i && keys@.take(i as int)[m] == (#[trigger] pre[j]).0;
                        assert(keys@.take(i + 1 as int)[m] == r@[j].0);
                    } else {
                        assert(keys@.take(i + 1 as int)[i as int] == r@[j].0);
                    }
                }
                assert forall|m: int|
                    0 <= m < i + 1 && min_stake as int <= spec_validator_active_stake(
                        self.entries(),
                        (#[trigger] keys@[m]),
                        epoch,
                    ) <= i64::MAX as int implies r@.contains(
                    (keys@[m], spec_validator_active_stake(self.entries(), keys@[m], epoch) as i64),
                ) by {
                    if m < i {
                        let j = choose|j: int|
                            0 <= j < pre.len() && pre[j] == (
                            keys@[m],
                            spec_validator_active_stake(self.entries(), keys@[m], epoch) as i64,
                            );
                        assert(r@[j] == pre[j]);
                    } else {
                        assert(r@[r@.len() - 1] == (
                            keys@[m],
                            spec_validator_active_stake(self.entries(), keys@[m], epoch) as i64,
                        ));
                    }
                }
            }
            i = i + 1;
        }
        proof {
            assert(keys@.take(keys@.len() as int) =~= keys@);
            assert forall|v: NetworkKey|
                (spec_has_validator(self.entries(), v) && min_stake <= spec_validator_active_stake(
                    self.entries(),
                    v,
                    epoch,
                ) && spec_validator_active_stake(self.entries(), v, epoch) <= i64::MAX as int) implies #[trigger] r@.contains(
                (v, spec_validator_active_stake(self.entries(), v, epoch) as i64),
            ) by {
                assert(keys@.contains(v));
                let m = choose|m: int| 0 <= m < keys@.len() && keys@[m] == v;
                assert(r@.contains((keys@[m], spec_validator_active_stake(self.entries(), keys@[m], epoch) as i64)));
            }
        }
        r
    }

    /// Summary of the escrow: every validator with its stake still active at
    /// `epoch`.
    pub fn info(&self, epoch: u64) -> (r: EscrowInfo)
        requires
            self.wf(),
        ensures
            spec_stakers_ok(self.entries(), epoch, 0, r.validators@),
    {
        EscrowInfo { validators: self.get_stakers_majority(epoch, 0) }
    }

    /// The distinct validators of the escrow, sorted by network key.
    fn distinct_validators(&self) -> (r: Vec<NetworkKey>)
        requires
            self.wf(),
        ensures
            forall|a: int, b: int|
                0 <= a < b < r@.len() ==> (#[trigger] r@[a]).value < (#[trigger] r@[b]).value,
            forall|k: NetworkKey| #[trigger] r@.contains(k) ==> spec_has_validator(self.entries(), k),
            forall|v: NetworkKey|
                spec_has_validator(self.entries(), v) ==> #[trigger] r@.contains(v),
    {
        let entries = self.stakes.live_entries();
        let mut r: Vec<NetworkKey> = Vec::new();
        let mut i: usize = 0;
        while i < entries.len()
            invariant
                i <= entries@.len(),
                entries@ == self.entries(),
                forall|a: int, b: int|
                    0 <= a < b < r@.len() ==> (#[trigger] r@[a]).value < (#[trigger] r@[b]).value,
                forall|k: NetworkKey|
                    #[trigger] r@.contains(k) ==> spec_has_validator(entries@, k),
                forall|m: int| 0 <= m < i ==> r@.contains((#[trigger] entries@[m]).0.validator),
            decreases entries@.len() - i,
        {
            let v = entries[i].0.validator;
            proof {
                assert(spec_has_validator(entries@, v));
            }
            insert_sorted_distinct(&mut r, v);
            i = i + 1;
        }
        proof {
            assert forall|v: NetworkKey|
                spec_has_validator(self.entries(), v) implies #[trigger] r@.contains(v) by {
                let m = choose|m: int|
                    0 <= m < self.entries().len() && (#[trigger] self.entries()[m]).0.validator
                        == v;
                assert(r@.contains(entries@[m].0.validator));
            }
        }
        r
    }

    /// Check that the stake outputs spent by `inputs`, given the stake
    /// outputs re-created by `outputs`, leave every affected validator with
    /// at least its still-locked balance at `epoch`.
    pub fn validate_stakes(&self, inputs: &Vec<Output>, outputs: &Vec<Output>, epoch: u64) -> (r:
        Result<(), BlockchainError>)
        requires
            self.wf(),
            inputs@.len() + outputs@.len() + self.entries().len() < 0x1000000000000000,
        ensures
            match r {
                Ok(_) => forall|i: int|
                    0 <= i < inputs@.len() ==> match #[trigger] inputs@[i] {
                        Output::StakeOutput(s) => spec_validator_stake(self.entries(), s.validator)
                            - spec_stake_delta(inputs@, s.validator) + spec_stake_delta(
                            outputs@,
                            s.validator,
                        ) >= spec_validator_locked(self.entries(), s.validator, epoch),
                        _ => true,
                    },
                Err(e) => {
                    &&& e is StakeIsLocked
                    &&& exists|i: int|
                        0 <= i < inputs@.len() && match #[trigger] inputs@[i] {
                            Output::StakeOutput(s) => spec_validator_stake(
                                self.entries(),
                                s.validator,
                            ) - spec_stake_delta(inputs@, s.validator) + spec_stake_delta(
                                outputs@,
                                s.validator,
                            ) < spec_validator_locked(self.entries(), s.validator, epoch),
                            _ => false,
                        }
                },
            },
    {
        let mut i: usize = 0;
        while i < inputs.len()
            invariant
                self.wf(),
                inputs@.len() + outputs@.len() + self.entries().len() < 0x1000000000000000,
                i <= inputs@.len(),
                forall|j: int|
                    0 <= j < i ==> match #[trigger] inputs@[j] {
                        Output::StakeOutput(s) => spec_validator_stake(self.entries(), s.validator)
                            - spec_stake_delta(inputs@, s.validator) + spec_stake_delta(
                            outputs@,
                            s.validator,
                        ) >= spec_validator_locked(self.entries(), s.validator, epoch),
                        _ => true,
                    },
            decreases inputs@.len() - i,
        {
            let inp = &inputs[i];
            match inp {
                Output::StakeOutput(s) => {
                    let v = s.validator;
                    let current = self.validator_stake_wide(&v);
                    let spent = stake_delta_wide(inputs, &v);
                    let restaked = stake_delta_wide(outputs, &v);
                    let locked = self.validator_locked_wide(&v, epoch);
                    let expected = current - spent + restaked;
                    if expected < locked {
                        return Err(
                            BlockchainError::StakeIsLocked(v, clamp_i64(expected), clamp_i64(locked)),
                        );
                    }
                },
                _ => {},
            }
            i = i + 1;
        }
        Ok(())
    }

    /// Aggregate still-locked stake of `validator` at `epoch`, as a wide
    /// integer.
    fn validator_locked_wide(&self, validator: &NetworkKey, epoch: u64) -> (r: i128)
        requires
            self.wf(),
        ensures
            r as int == spec_validator_locked(self.entries(), *validator, epoch),
            -0x8000_0000_0000_0000i128 * (self.entries().len() as i128) <= r <= 0x8000_0000_0000_0000i128 * (self.entries().len() as i128),
    {
        let entries = self.stakes.live_entries();
        let mut total: i128 = 0;
        let mut i: usize = 0;
        while i < entries.len()
            invariant
                i <= entries@.len(),
                entries@ == self.entries(),
                total as int == spec_validator_locked(
                    self.entries().take(i as int),
                    *validator,
                    epoch,
                ),
                -0x8000_0000_0000_0000i128 * (i as i128) <= total,
                total <= 0x8000_0000_0000_0000i128 * (i as i128),
            decreases entries@.len() - i,
        {
            proof {
                assert(self.entries().take(i + 1 as int).drop_last() =~= self.entries().take(
                    i as int,
                ));
                assert(self.entries().take(i + 1 as int).last() == self.entries()[i as int]);
            }
            let e = &entries[i];
            if e.0.validator.value == validator.value && e.1.active_until_epoch > epoch {
                total = total + e.1.amount as i128;
            }
            i = i + 1;
        }
        proof {
            assert(self.entries().take(self.entries().len() as int) =~= self.entries());
        }
        total
    }
}

/// The aggregate amount of the stake outputs for `v` in a list of outputs.
pub open spec fn spec_stake_delta(s: Seq<Output>, v: NetworkKey) -> int
    decreases s.len(),
{
    if s.len() == 0 {
        0
    } else {
        spec_stake_delta(s.drop_last(), v) + match s.last() {
            Output::StakeOutput(st) => if st.validator == v {
                st.amount as int
            } else {
                0
            },
            _ => 0,
        }
    }
}

/// Aggregate amount of the stake outputs for `v`, as a wide integer.
fn stake_delta_wide(s: &Vec<Output>, v: &NetworkKey) -> (r: i128)
    ensures
        r as int == spec_stake_delta(s@, *v),
        -0x8000_0000_0000_0000i128 * (s@.len() as i128) <= r <= 0x8000_0000_0000_0000i128 * (s@.len() as i128),
{
    let mut total: i128 = 0;
    let mut i: usize = 0;
    while i < s.len()
        invariant
            i <= s@.len(),
            total as int == spec_stake_delta(s@.take(i as int), *v),
            -0x8000_0000_0000_0000i128 * (i as i128) <= total,
            total <= 0x8000_0000_0000_0000i128 * (i as i128),
        decreases s@.len() - i,
    {
        proof {
            assert(s@.take(i + 1 as int).drop_last() =~= s@.take(i as int));
            assert(s@.take(i + 1 as int).last() == s@[i as int]);
        }
        match &s[i] {
            Output::StakeOutput(st) => {
                if st.validator.value == v.value {
                    total = total + st.amount as i128;
                }
            },
            _ => {},
        }
        i = i + 1;
    }
    proof {
        assert(s@.take(s@.len() as int) =~= s@);
    }
    total
}

/// `x` clamped into the `i64` range.
pub open spec fn spec_clamp_i64(x: int) -> i64 {
    if x > i64::MAX as int {
        i64::MAX
    } else if x < i64::MIN as int {
        i64::MIN
    } else {
        x as i64
    }
}

/// Executable twin of [`spec_clamp_i64`].
fn clamp_i64(x: i128) -> (r: i64)
    ensures
        r == spec_clamp_i64(x as int),
{
    if x > i64::MAX as i128 {
        i64::MAX
    } else if x < i64::MIN as i128 {
        i64::MIN
    } else {
        x as i64
    }
}

/// The position of the first key at or after `v` in a sorted vector of
/// distinct keys.
fn key_position(r: &Vec<NetworkKey>, v: NetworkKey) -> (i: usize)
    requires
        forall|a: int, b: int|
            0 <= a < b < r@.len() ==> (#[trigger] r@[a]).value < (#[trigger] r@[b]).value,
    ensures
        i <= r@.len(),
        forall|j: int| 0 <= j < i ==> (#[trigger] r@[j]).value < v.value,
        forall|j: int| i <= j < r@.len() ==> (#[trigger] r@[j]).value >= v.value,
{
    let mut i: usize = 0;
    while i < r.len()
        invariant
            forall|a: int, b: int|
                0 <= a < b < r@.len() ==> (#[trigger] r@[a]).value < (#[trigger] r@[b]).value,
            i <= r@.len(),
            forall|j: int| 0 <= j < i ==> (#[trigger] r@[j]).value < v.value,
        decreases r@.len() - i,
    {
        if r[i].value >= v.value {
            proof {
                assert forall|j: int|
                    i <= j < r@.len() implies (#[trigger] r@[j]).value >= v.value by {
                    if j > i {
                        assert(r@[i as int].value < r@[j].value);
                    }
                }
            }
            return i;
        }
        i = i + 1;
    }
    i
}

/// Insert `v` into a sorted vector of distinct keys, keeping it sorted and
/// distinct.
fn insert_sorted_distinct(r: &mut Vec<NetworkKey>, v: NetworkKey)
    requires
        forall|a: int, b: int|
            0 <= a < b < old(r)@.len() ==> (#[trigger] old(r)@[a]).value < (
            #[trigger] old(r)@[b]).value,
    ensures
        forall|a: int, b: int|
            0 <= a < b < final(r)@.len() ==> (#[trigger] final(r)@[a]).value < (
            #[trigger] final(r)@[b]).value,
        final(r)@.contains(v),
        forall|k: NetworkKey| old(r)@.contains(k) ==> final(r)@.contains(k),
        forall|k: NetworkKey| final(r)@.contains(k) ==> old(r)@.contains(k) || k == v,
{
    let ghost pre = r@;
    let i = key_position(r, v);
    if i < r.len() && r[i].value == v.value {
        proof {
            assert(r@[i as int] == v);
        }
        return ;
    }
    r.insert(i, v);
    proof {
        let cur = r@;
        assert(cur == pre.insert(i as int, v));
        assert(cur[i as int] == v);
        assert(cur.contains(v));
        assert forall|a: int, b: int|
            0 <= a < b < cur.len() implies (#[trigger] cur[a]).value < (
        #[trigger] cur[b]).value by {
            if b < i {
                assert(cur[a] == pre[a] && cur[b] == pre[b]);
            } else if a < i && b == i {
                assert(cur[a] == pre[a]);
            } else if a < i {
                assert(cur[a] == pre[a] && cur[b] == pre[b - 1]);
                assert(pre[b - 1].value >= v.value);
                assert(pre[b - 1].value != v.value);
            } else if a == i {
                assert(cur[b] == pre[b - 1]);
                assert(pre[b - 1].value >= v.value);
                assert(pre[b - 1].value != v.value);
            } else {
                assert(cur[a] == pre[a - 1] && cur[b] == pre[b - 1]);
            }
        }
        assert forall|k: NetworkKey| pre.contains(k) implies cur.contains(k) by {
            let j = choose|j: int| 0 <= j < pre.len() && pre[j] == k;
            if j < i {
                assert(cur[j] == k);
            } else {
                assert(cur[j + 1] == k);
            }
        }
        assert forall|k: NetworkKey| cur.contains(k) implies pre.contains(k) || k == v by {
            let j = choose|j: int| 0 <= j < cur.len() && cur[j] == k;
            if j < i {
                assert(pre[j] == k);
            } else if j > i {
                assert(pre[j - 1] == k);
            }
        }
    }
}


} // verus!
