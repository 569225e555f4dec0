//! The ledger core: an ordered block log with multi-versioned in-memory
//! indexes, an apply/revert protocol for the two block kinds, stake escrow,
//! election state, service awards and the global monetary balance.

use vstd::pervasive::VecAdditionalExecFns;
use vstd::prelude::*;

use crate::awards::spec_finalize_activity;
use crate::awards::spec_winner;
use crate::awards::Awards;
use crate::awards::ValidatorAwardState;
use crate::block::copy_vec;
use crate::block::spec_block_digest;
use crate::block::spec_macro_digest;
use crate::block::spec_micro_digest;
use crate::block::spec_output_digests;
use crate::block::spec_tx_digest;
use crate::block::spec_tx_gamma;
use crate::block::spec_tx_reward;
use crate::block::spec_txins;
use crate::block::spec_txouts;
use crate::block::ActivityMap;
use crate::block::Block;
use crate::block::BlockView;
use crate::block::MacroBlock;
use crate::block::MicroBlock;
use crate::block::MicroBlockView;
use crate::block::Transaction;
use crate::block::TransactionView;
use crate::block::VERSION;
use crate::config::ChainConfig;
use crate::config::MACRO_BLOCK_OFFSET;
use crate::crypto::fee_a;
use crate::crypto::fr_add;
use crate::crypto::fr_times_g;
use crate::crypto::pt_add;
use crate::crypto::pt_sub;
use crate::crypto::spec_genesis_seed;
use crate::crypto::AccountKey;
use crate::crypto::AccountSecret;
use crate::crypto::Digest;
use crate::crypto::Fr;
use crate::crypto::NetworkKey;
use crate::crypto::Pt;
use crate::crypto::Vrf;
use crate::election::spec_select_leader;
use crate::election::ElectionInfo;
use crate::election::ElectionResult;
use crate::election::ElectionResultView;
use crate::error::BlockError;
use crate::error::BlockchainError;
use crate::error::StorageError;
use crate::error::TransactionError;
use crate::escrow::Escrow;
use crate::escrow::EscrowInfo;
use crate::escrow::EscrowKey;
use crate::escrow::EscrowValue;
use crate::mvm::lsn_le;
use crate::mvm::lsn_lt;
use crate::mvm::Lsn;
use crate::mvm::MultiVersionedMap;
use crate::mvm::MvmKey;
use crate::mvm::MvmValue;
use crate::output::spec_output_digest;
use crate::output::spec_output_recipient;
use crate::output::spec_pedersen_commitment;
use crate::output::Output;
use crate::output::OutputKey;
use crate::storage::ListDb;
use crate::timestamp::Timestamp;

verus! {

/// Number of view changes at one offset.
pub type ViewCounter = u32;

/// Identifier of a validator slot.
pub type ValidatorId = u32;

impl MvmKey for Digest {
    fn key_eq(&self, other: &Self) -> (r: bool) {
        self.value == other.value
    }
}

impl MvmKey for NetworkKey {
    fn key_eq(&self, other: &Self) -> (r: bool) {
        self.value == other.value
    }
}

/// The single key of the maps that carry one global value.
#[derive(Clone, Copy, PartialEq, Eq, Structural, Debug)]
pub struct UnitKey;

impl MvmKey for UnitKey {
    fn key_eq(&self, other: &Self) -> (r: bool) {
        true
    }
}

impl View for Lsn {
    type V = Lsn;

    open spec fn view(&self) -> Lsn {
        *self
    }
}

impl MvmValue for Lsn {
    fn duplicate(&self) -> (r: Self) {
        *self
    }
}

impl View for OutputKey {
    type V = OutputKey;

    open spec fn view(&self) -> OutputKey {
        *self
    }
}

impl MvmValue for OutputKey {
    fn duplicate(&self) -> (r: Self) {
        *self
    }
}

/// The running monetary totals of the chain.
#[derive(Clone, Copy, PartialEq, Eq, Structural, Debug)]
pub struct Balance {
    /// The total sum of money created.
    pub created: Pt,
    /// The total sum of money burned.
    pub burned: Pt,
    /// The total sum of blinding-factor adjustments.
    pub gamma: Fr,
    /// The total sum of block rewards.
    pub block_reward: i64,
}

impl View for Balance {
    type V = Balance;

    open spec fn view(&self) -> Balance {
        *self
    }
}

impl MvmValue for Balance {
    fn duplicate(&self) -> (r: Self) {
        *self
    }
}

/// The monetary balance equation: the reward mapped into the group, plus
/// everything burned, minus everything created, equals the blinding aggregate
/// times the generator.
pub open spec fn spec_balance_ok(b: Balance) -> bool {
    pt_add(fee_a(b.block_reward), pt_sub(b.burned, b.created)) == fr_times_g(b.gamma)
}

/// Proof that a validator observed a view change; the ledger stores it
/// verbatim and never inspects it.
#[derive(Clone, Copy, PartialEq, Eq, Structural, Debug)]
pub struct ViewChangeProof {
    pub token: u64,
}

/// Snapshot of the chain position, used as proof material for view changes.
#[derive(Clone, Copy, PartialEq, Eq, Structural, Debug)]
pub struct ChainInfo {
    pub epoch: u64,
    pub offset: u32,
    pub view_change: ViewCounter,
    pub last_block: Digest,
}

impl ChainInfo {
    /// Snapshot taken from a micro block: the position it claims and the
    /// view change that preceded it.
    pub fn from_micro_block(micro_block: &MicroBlock) -> (r: ChainInfo)
        requires
            micro_block@.header.view_change >= 1,
        ensures
            r.epoch == micro_block@.header.epoch,
            r.offset == micro_block@.header.offset,
            r.view_change == micro_block@.header.view_change - 1,
            r.last_block == micro_block@.header.previous,
    {
        ChainInfo {
            epoch: micro_block.header.epoch,
            offset: micro_block.header.offset,
            view_change: micro_block.header.view_change - 1,
            last_block: micro_block.header.previous,
        }
    }

    /// Snapshot of the current chain position.
    pub fn from_blockchain(blockchain: &Blockchain) -> (r: ChainInfo)
        requires
            blockchain.wf_base(),
        ensures
            r.epoch == blockchain.epoch,
            r.offset == blockchain.offset,
            r.view_change == blockchain.election_result@[UnitKey].view_change,
            r.last_block == blockchain.last_block_hash,
    {
        ChainInfo {
            epoch: blockchain.epoch(),
            offset: blockchain.offset(),
            view_change: blockchain.view_change(),
            last_block: blockchain.last_block_hash(),
        }
    }
}

/// A live output found by the account-recovery scan.
#[derive(Clone, Copy, PartialEq, Eq, Structural, Debug)]
pub struct OutputRecovery {
    pub output: Output,
    pub epoch: u64,
    pub is_final: bool,
    pub timestamp: Timestamp,
}

/// The recoverable outputs of one account.
pub type AccountRecoveryState = Vec<OutputRecovery>;

/// The spent hashes of a transaction list, in transaction order.
pub open spec fn spec_txs_inputs(txs: Seq<TransactionView>) -> Seq<Digest>
    decreases txs.len(),
{
    if txs.len() == 0 {
        Seq::empty()
    } else {
        spec_txs_inputs(txs.drop_last()) + spec_txins(txs.last())
    }
}

/// The created outputs of a transaction list, in transaction order.
pub open spec fn spec_txs_outputs(txs: Seq<TransactionView>) -> Seq<Output>
    decreases txs.len(),
{
    if txs.len() == 0 {
        Seq::empty()
    } else {
        spec_txs_outputs(txs.drop_last()) + spec_txouts(txs.last())
    }
}

/// The blinding aggregate of a transaction list.
pub open spec fn spec_txs_gamma(txs: Seq<TransactionView>) -> Fr
    decreases txs.len(),
{
    if txs.len() == 0 {
        Fr { value: 0 }
    } else {
        fr_add(spec_txs_gamma(txs.drop_last()), spec_tx_gamma(txs.last()))
    }
}

/// The reward minted by a transaction list.
pub open spec fn spec_txs_reward(txs: Seq<TransactionView>) -> int
    decreases txs.len(),
{
    if txs.len() == 0 {
        0
    } else {
        spec_txs_reward(txs.drop_last()) + spec_tx_reward(txs.last()) as int
    }
}

/// The group sum of the commitments of a list of outputs.
pub open spec fn spec_sum_pedersen(s: Seq<Output>) -> Pt
    decreases s.len(),
{
    if s.len() == 0 {
        Pt { value: 0 }
    } else {
        pt_add(spec_sum_pedersen(s.drop_last()), spec_pedersen_commitment(s.last()))
    }
}

/// No digest appears twice.
pub open spec fn spec_distinct_digests(s: Seq<Digest>) -> bool {
    forall|i: int, j: int| 0 <= i < j < s.len() ==> s[i] != s[j]
}

/// The map after removing a list of keys.
pub open spec fn spec_remove_keys(m: Map<Digest, OutputKey>, hs: Seq<Digest>) -> Map<
    Digest,
    OutputKey,
>
    decreases hs.len(),
{
    if hs.len() == 0 {
        m
    } else {
        spec_remove_keys(m, hs.drop_last()).remove(hs.last())
    }
}

/// The map after inserting a list of bindings, in order.
pub open spec fn spec_insert_pairs(
    m: Map<Digest, OutputKey>,
    ps: Seq<(Digest, OutputKey)>,
) -> Map<Digest, OutputKey>
    decreases ps.len(),
{
    if ps.len() == 0 {
        m
    } else {
        spec_insert_pairs(m, ps.drop_last()).insert(ps.last().0, ps.last().1)
    }
}

/// The escrow after removing every spent stake, walking inputs in order.
pub open spec fn spec_unstake_inputs(
    m: Map<EscrowKey, EscrowValue>,
    hs: Seq<Digest>,
    ins: Seq<Output>,
) -> Map<EscrowKey, EscrowValue>
    decreases ins.len(),
{
    if ins.len() == 0 || hs.len() != ins.len() {
        m
    } else {
        let prev = spec_unstake_inputs(m, hs.drop_last(), ins.drop_last());
        match ins.last() {
            Output::StakeOutput(s) => prev.remove(
                EscrowKey { validator: s.validator, output_hash: hs.last() },
            ),
            _ => prev,
        }
    }
}

/// The escrow after recording every created stake, walking outputs in order.
pub open spec fn spec_stake_outputs(
    m: Map<EscrowKey, EscrowValue>,
    outs: Seq<Output>,
    epoch: u64,
    stake_epochs: u64,
) -> Map<EscrowKey, EscrowValue>
    decreases outs.len(),
{
    if outs.len() == 0 {
        m
    } else {
        let prev = spec_stake_outputs(m, outs.drop_last(), epoch, stake_epochs);
        match outs.last() {
            Output::StakeOutput(s) => prev.insert(
                EscrowKey {
                    validator: s.validator,
                    output_hash: spec_output_digest(outs.last()),
                },
                EscrowValue {
                    account: s.recipient,
                    active_until_epoch: (epoch + stake_epochs) as u64,
                    amount: s.amount,
                },
            ),
            _ => prev,
        }
    }
}

/// The validator list with every occurrence of `cheater` removed.
pub open spec fn spec_filter_validator(
    vals: Seq<(NetworkKey, i64)>,
    cheater: NetworkKey,
) -> Seq<(NetworkKey, i64)>
    decreases vals.len(),
{
    if vals.len() == 0 {
        Seq::empty()
    } else {
        let rest = spec_filter_validator(vals.drop_last(), cheater);
        if vals.last().0 == cheater {
            rest
        } else {
            rest.push(vals.last())
        }
    }
}

/// The validator list after removing the cheater of every slashing
/// transaction, in transaction order.
pub open spec fn spec_apply_slashing(
    vals: Seq<(NetworkKey, i64)>,
    txs: Seq<TransactionView>,
) -> Seq<(NetworkKey, i64)>
    decreases txs.len(),
{
    if txs.len() == 0 {
        vals
    } else {
        let prev = spec_apply_slashing(vals, txs.drop_last());
        match txs.last() {
            TransactionView::Slashing { cheater, .. } => spec_filter_validator(prev, cheater),
            _ => prev,
        }
    }
}

/// The activity map after marking the leaders of the skipped view changes
/// `0 .. n` as failed at the given position.
pub open spec fn spec_mark_skipped(
    m: Map<NetworkKey, ValidatorAwardState>,
    e: ElectionResultView,
    epoch: u64,
    offset: u32,
    n: int,
) -> Map<NetworkKey, ValidatorAwardState>
    decreases n,
{
    if n <= 0 {
        m
    } else {
        spec_mark_skipped(m, e, epoch, offset, n - 1).insert(
            spec_select_leader(e, (n - 1) as u32),
            ValidatorAwardState::FailedAt(epoch, offset),
        )
    }
}

/// The activity map after marking `leader` active, unless it is already
/// known.
pub open spec fn spec_mark_leader(
    m: Map<NetworkKey, ValidatorAwardState>,
    leader: NetworkKey,
) -> Map<NetworkKey, ValidatorAwardState> {
    if m.contains_key(leader) {
        m
    } else {
        m.insert(leader, ValidatorAwardState::Active)
    }
}

/// The output a locator points at inside the block log, if the locator is
/// sound.
pub open spec fn spec_output_at(db: Map<Lsn, BlockView>, key: OutputKey) -> Option<Output> {
    match key {
        OutputKey::MacroBlock { epoch, output_id } => {
            let lsn = Lsn(epoch, MACRO_BLOCK_OFFSET);
            if db.contains_key(lsn) {
                match db[lsn] {
                    BlockView::MacroBlock(b) => if output_id < b.outputs.len() {
                        Some(b.outputs[output_id as int])
                    } else {
                        None
                    },
                    _ => None,
                }
            } else {
                None
            }
        },
        OutputKey::MicroBlock { epoch, offset, tx_id, txout_id } => {
            let lsn = Lsn(epoch, offset);
            if db.contains_key(lsn) {
                match db[lsn] {
                    BlockView::MicroBlock(b) => if tx_id < b.transactions.len()
                        && txout_id < spec_txouts(b.transactions[tx_id as int]).len() {
                        Some(spec_txouts(b.transactions[tx_id as int])[txout_id as int])
                    } else {
                        None
                    },
                    _ => None,
                }
            } else {
                None
            }
        },
    }
}

/// Total the option out, with an arbitrary fixed fallback; used only where
/// resolution is already known to succeed.
pub open spec fn spec_opt_output(o: Option<Output>) -> Output {
    match o {
        Some(x) => x,
        None => Output::PublicPaymentOutput(
            crate::output::PublicPaymentOutput { recipient: AccountKey { value: 0 }, amount: 0 },
        ),
    }
}

/// The blockchain database.
pub struct Blockchain {
    /// Configuration.
    pub cfg: ChainConfig,
    /// Ordered storage for blocks.
    pub database: ListDb,
    /// Index to look blocks up by their digest.
    pub block_by_hash: MultiVersionedMap<Digest, Lsn>,
    /// Index to look unspent outputs up by their digest.
    pub output_by_hash: MultiVersionedMap<Digest, OutputKey>,
    /// Global monetary balance.
    pub balance: MultiVersionedMap<UnitKey, Balance>,
    /// Stakes by validator.
    pub escrow: Escrow,
    /// Puzzle difficulty carried over from the last macro block.
    pub difficulty: u64,
    /// One-based number of the current epoch: the number of macro blocks.
    pub epoch: u64,
    /// Number of micro blocks inside the current epoch.
    pub offset: u32,
    /// Last election result.
    pub election_result: MultiVersionedMap<UnitKey, ElectionResult>,
    /// Proof of the last view change at the current offset, if any.
    pub view_change_proof: Option<ViewChangeProof>,
    /// Timestamp of the last macro block.
    pub last_macro_block_timestamp: Timestamp,
    /// Digest of the last macro block.
    pub last_macro_block_hash: Digest,
    /// Randomness of the last macro block.
    pub last_macro_block_random: Digest,
    /// Timestamp of the last block of any kind.
    pub last_block_timestamp: Timestamp,
    /// Digest of the last block of any kind.
    pub last_block_hash: Digest,
    /// Service-award engine.
    pub awards: Awards,
    /// Activity of the validators inside the current epoch.
    pub epoch_activity: MultiVersionedMap<NetworkKey, ValidatorAwardState>,
}

impl Blockchain {
    /// The position the next micro block would take.
    pub open spec fn position(self) -> Lsn {
        Lsn(self.epoch, self.offset)
    }

    /// The structural invariant every committed state satisfies; the genesis
    /// block has not necessarily been applied yet.
    pub open spec fn wf_base(self) -> bool {
        &&& self.cfg.valid()
        &&& self.database.wf()
        &&& self.block_by_hash.wf()
        &&& self.output_by_hash.wf()
        &&& self.balance.wf()
        &&& self.election_result.wf()
        &&& self.epoch_activity.wf()
        &&& self.escrow.wf()
        &&& self.awards.wf()
        &&& self.awards.difficulty == self.cfg.awards_difficulty
        &&& self.epoch < 0x4000000000000000
        &&& self.offset <= self.cfg.micro_blocks_in_epoch
        &&& self.balance@.contains_key(UnitKey)
        &&& spec_balance_ok(self.balance@[UnitKey])
        &&& self.election_result@.contains_key(UnitKey)
        &&& self.election_result@[UnitKey].slots.len() == self.cfg.max_slot_count
        &&& lsn_le(self.block_by_hash.lsn(), self.position())
        &&& lsn_le(self.output_by_hash.lsn(), self.position())
        &&& lsn_le(self.balance.lsn(), self.position())
        &&& lsn_le(self.escrow.lsn(), self.position())
        &&& lsn_le(self.election_result.lsn(), self.position())
        &&& lsn_le(self.epoch_activity.lsn(), self.position())
        &&& (forall|t: Lsn|
            (#[trigger] self.balance.state_at(t)).contains_key(UnitKey) && spec_balance_ok(
                self.balance.state_at(t)[UnitKey],
            ))
        &&& (forall|t: Lsn|
            (#[trigger] self.election_result.state_at(t)).contains_key(UnitKey)
                && self.election_result.state_at(t)[UnitKey].slots.len()
                == self.cfg.max_slot_count)
    }

    /// The structural invariant every committed state satisfies.
    pub open spec fn wf(self) -> bool {
        self.wf_base() && 1 <= self.epoch
    }

    /// The output a live digest resolves to through the index and the log.
    pub open spec fn spec_lookup(self, h: Digest) -> Option<Output> {
        if self.output_by_hash@.contains_key(h) {
            spec_output_at(self.database@, self.output_by_hash@[h])
        } else {
            None
        }
    }

    /// Every listed digest resolves to a live output with that digest.
    pub open spec fn spec_inputs_ok(self, hs: Seq<Digest>) -> bool {
        forall|i: int|
            0 <= i < hs.len() ==> match self.spec_lookup(#[trigger] hs[i]) {
                Some(o) => spec_output_digest(o) == hs[i],
                None => false,
            }
    }

    /// The outputs a list of live digests resolves to, in order.
    pub open spec fn spec_resolved(self, hs: Seq<Digest>) -> Seq<Output> {
        Seq::new(hs.len(), |i: int| spec_opt_output(self.spec_lookup(hs[i])))
    }

    /// Resolve one unspent output by its digest.
    pub fn output_by_hash(&self, output_hash: &Digest) -> (r: Result<Option<Output>, StorageError>)
        requires
            self.wf_base(),
        ensures
            r == Ok::<Option<Output>, StorageError>(self.spec_lookup(*output_hash)),
    {
        match self.output_by_hash.get(output_hash) {
            Some(key) => {
                match *key {
                    OutputKey::MacroBlock { epoch, output_id } => {
                        match self.database.get(Lsn(epoch, MACRO_BLOCK_OFFSET)) {
                            Some(block) => match block {
                                Block::MacroBlock(b) => {
                                    if (output_id as usize) < b.outputs.len() {
                                        Ok(Some(b.outputs[output_id as usize]))
                                    } else {
                                        Ok(None)
                                    }
                                },
                                Block::MicroBlock(_) => Ok(None),
                            },
                            None => Ok(None),
                        }
                    },
                    OutputKey::MicroBlock { epoch, offset, tx_id, txout_id } => {
                        match self.database.get(Lsn(epoch, offset)) {
                            Some(block) => match block {
                                Block::MicroBlock(b) => {
                                    if (tx_id as usize) < b.transactions.len() {
                                        proof {
                                            assert(b.transactions.deep_view()[tx_id as int]
                                                == b.transactions@[tx_id as int]@);
                                        }
                                        let outs = b.transactions[tx_id as usize].txouts();
                                        if (txout_id as usize) < outs.len() {
                                            Ok(Some(outs[txout_id as usize]))
                                        } else {
                                            Ok(None)
                                        }
                                    } else {
                                        Ok(None)
                                    }
                                },
                                Block::MacroBlock(_) => Ok(None),
                            },
                            None => Ok(None),
                        }
                    },
                }
            },
            None => Ok(None),
        }
    }

    /// Resolve every listed digest, failing on the first one that is not a
    /// live output with that digest.
    fn resolve_inputs(&self, hs: &Vec<Digest>) -> (r: Result<Vec<Output>, BlockchainError>)
        requires
            self.wf_base(),
        ensures
            match r {
                Ok(v) => self.spec_inputs_ok(hs@) && v@ == self.spec_resolved(hs@),
                Err(e) => !self.spec_inputs_ok(hs@) && e matches BlockchainError::TransactionError(
                    TransactionError::MissingInput(_),
                ),
            },
    {
        let mut v: Vec<Output> = Vec::new();
        let mut i: usize = 0;
        while i < hs.len()
            invariant
                self.wf_base(),
                i <= hs@.len(),
                v@.len() == i,
                forall|j: int|
                    0 <= j < i ==> match self.spec_lookup(#[trigger] hs@[j]) {
                        Some(o) => spec_output_digest(o) == hs@[j] && v@[j] == o,
                        None => false,
                    },
            decreases hs@.len() - i,
        {
            let h = hs[i];
            match self.output_by_hash(&h) {
                Ok(Some(o)) => {
                    let d = o.digest();
                    if d.value != h.value {
                        return Err(
                            BlockchainError::TransactionError(TransactionError::MissingInput(h)),
                        );
                    }
                    proof {
                        assert(spec_output_digest(o) == h);
                    }
                    v.push(o);
                },
                Ok(None) => {
                    return Err(
                        BlockchainError::TransactionError(TransactionError::MissingInput(h)),
                    );
                },
                Err(_) => {
                    return Err(
                        BlockchainError::TransactionError(TransactionError::MissingInput(h)),
                    );
                },
            }
            i = i + 1;
        }
        proof {
            assert(v@ =~= self.spec_resolved(hs@));
        }
        Ok(v)
    }
}

/// The spent hashes of a transaction list.
pub fn collect_tx_inputs(txs: &Vec<Transaction>) -> (r: Vec<Digest>)
    ensures
        r@ == spec_txs_inputs(txs.deep_view()),
{
    let ghost dv = txs.deep_view();
    let mut r: Vec<Digest> = Vec::new();
    let mut i: usize = 0;
    while i < txs.len()
        invariant
            dv == txs.deep_view(),
            dv.len() == txs@.len(),
            i <= txs@.len(),
            r@ == spec_txs_inputs(dv.take(i as int)),
        decreases txs@.len() - i,
    {
        proof {
            assert(dv.take(i + 1 as int).drop_last() =~= dv.take(i as int));
            assert(dv.take(i + 1 as int).last() == dv[i as int]);
            assert(dv[i as int] == txs@[i as int]@);
        }
        let mut ins = txs[i].txins();
        r.append(&mut ins);
        i = i + 1;
    }
    proof {
        assert(dv.take(dv.len() as int) =~= dv);
    }
    r
}

/// The created outputs of a transaction list.
pub fn collect_tx_outputs(txs: &Vec<Transaction>) -> (r: Vec<Output>)
    ensures
        r@ == spec_txs_outputs(txs.deep_view()),
{
    let ghost dv = txs.deep_view();
    let mut r: Vec<Output> = Vec::new();
    let mut i: usize = 0;
    while i < txs.len()
        invariant
            dv == txs.deep_view(),
            dv.len() == txs@.len(),
            i <= txs@.len(),
            r@ == spec_txs_outputs(dv.take(i as int)),
        decreases txs@.len() - i,
    {
        proof {
            assert(dv.take(i + 1 as int).drop_last() =~= dv.take(i as int));
            assert(dv.take(i + 1 as int).last() == dv[i as int]);
            assert(dv[i as int] == txs@[i as int]@);
        }
        let outs = txs[i].txouts();
        let mut copy = copy_vec(outs);
        r.append(&mut copy);
        i = i + 1;
    }
    proof {
        assert(dv.take(dv.len() as int) =~= dv);
    }
    r
}

/// The blinding aggregate of a transaction list.
pub fn collect_txs_gamma(txs: &Vec<Transaction>) -> (r: Fr)
    ensures
        r == spec_txs_gamma(txs.deep_view()),
{
    let ghost dv = txs.deep_view();
    let mut r = Fr { value: 0 };
    let mut i: usize = 0;
    while i < txs.len()
        invariant
            dv == txs.deep_view(),
            dv.len() == txs@.len(),
            i <= txs@.len(),
            r == spec_txs_gamma(dv.take(i as int)),
        decreases txs@.len() - i,
    {
        proof {
            assert(dv.take(i + 1 as int).drop_last() =~= dv.take(i as int));
            assert(dv.take(i + 1 as int).last() == dv[i as int]);
            assert(dv[i as int] == txs@[i as int]@);
        }
        let g = txs[i].gamma();
        r = r.add(g);
        i = i + 1;
    }
    proof {
        assert(dv.take(dv.len() as int) =~= dv);
    }
    r
}

/// The minted reward of a transaction list, as a wide integer.
pub fn collect_txs_reward(txs: &Vec<Transaction>) -> (r: i128)
    ensures
        r as int == spec_txs_reward(txs.deep_view()),
{
    let ghost dv = txs.deep_view();
    let mut r: i128 = 0;
    let mut i: usize = 0;
    while i < txs.len()
        invariant
            dv == txs.deep_view(),
            dv.len() == txs@.len(),
            i <= txs@.len(),
            r as int == spec_txs_reward(dv.take(i as int)),
            -0x8000_0000_0000_0000i128 * (i as i128) <= r <= 0x8000_0000_0000_0000i128 * (
            i as i128),
        decreases txs@.len() - i,
    {
        proof {
            assert(dv.take(i + 1 as int).drop_last() =~= dv.take(i as int));
            assert(dv.take(i + 1 as int).last() == dv[i as int]);
            assert(dv[i as int] == txs@[i as int]@);
        }
        let w = txs[i].reward();
        r = r + w as i128;
        i = i + 1;
    }
    proof {
        assert(dv.take(dv.len() as int) =~= dv);
    }
    r
}

/// The group sum of the commitments of a list of outputs.
pub fn sum_pedersen(outs: &Vec<Output>) -> (r: Pt)
    ensures
        r == spec_sum_pedersen(outs@),
{
    let mut r = Pt { value: 0 };
    let mut i: usize = 0;
    while i < outs.len()
        invariant
            i <= outs@.len(),
            r == spec_sum_pedersen(outs@.take(i as int)),
        decreases outs@.len() - i,
    {
        proof {
            assert(outs@.take(i + 1 as int).drop_last() =~= outs@.take(i as int));
            assert(outs@.take(i + 1 as int).last() == outs@[i as int]);
        }
        let c = outs[i].pedersen_commitment();
        r = r.add(c);
        i = i + 1;
    }
    proof {
        assert(outs@.take(outs@.len() as int) =~= outs@);
    }
    r
}

/// The digests of a list of outputs, in order.
pub fn collect_output_digests(outs: &Vec<Output>) -> (r: Vec<Digest>)
    ensures
        r@ == spec_output_digests(outs@),
{
    let mut r: Vec<Digest> = Vec::new();
    let mut i: usize = 0;
    while i < outs.len()
        invariant
            i <= outs@.len(),
            r@.len() == i,
            forall|j: int| 0 <= j < i ==> r@[j] == spec_output_digest(#[trigger] outs@[j]),
        decreases outs@.len() - i,
    {
        let d = outs[i].digest();
        r.push(d);
        i = i + 1;
    }
    proof {
        assert(r@ =~= spec_output_digests(outs@));
    }
    r
}



/// The locator pairs of the outputs of one micro-block transaction.
pub open spec fn spec_tx_pairs(tx: TransactionView, tx_id: u32, epoch: u64, offset: u32) -> Seq<
    (Digest, OutputKey),
> {
    Seq::new(
        spec_txouts(tx).len(),
        |j: int|
            (
                spec_output_digest(spec_txouts(tx)[j]),
                OutputKey::MicroBlock { epoch, offset, tx_id, txout_id: j as u32 },
            ),
    )
}

/// The locator pairs of every output of a micro block, in order.
pub open spec fn spec_micro_pairs(txs: Seq<TransactionView>, epoch: u64, offset: u32) -> Seq<
    (Digest, OutputKey),
>
    decreases txs.len(),
{
    if txs.len() == 0 {
        Seq::empty()
    } else {
        spec_micro_pairs(txs.drop_last(), epoch, offset) + spec_tx_pairs(
            txs.last(),
            (txs.len() - 1) as u32,
            epoch,
            offset,
        )
    }
}

/// Composing a balanced block delta into a balanced running total keeps the
/// balance equation; all sums are taken in the 64-bit word group.
pub proof fn lemma_balance_compose(
    r1: i64,
    b1: u64,
    c1: u64,
    g1: u64,
    r2: i64,
    b2: u64,
    c2: u64,
    g2: u64,
    r3: i64,
)
    requires
        (r1 as u64).wrapping_add(b1.wrapping_sub(c1)) == g1,
        (r2 as u64).wrapping_add(b2.wrapping_sub(c2)) == g2,
        r3 == (r1 + r2) as i64,
    ensures
        (r3 as u64).wrapping_add(
            (b1.wrapping_add(b2)).wrapping_sub(c1.wrapping_add(c2)),
        ) == g1.wrapping_add(g2),
{
    assert((r3 as u64).wrapping_add((b1.wrapping_add(b2)).wrapping_sub(c1.wrapping_add(c2)))
        == g1.wrapping_add(g2)) by (bit_vector)
        requires
            (r1 as u64).wrapping_add(b1.wrapping_sub(c1)) == g1,
            (r2 as u64).wrapping_add(b2.wrapping_sub(c2)) == g2,
            r3 == (r1 + r2) as i64,
    ;
}

/// A key is bound after removing a list of keys iff it was bound and is not
/// among the removed ones.
pub proof fn lemma_remove_keys_contains(m: Map<Digest, OutputKey>, hs: Seq<Digest>, k: Digest)
    ensures
        spec_remove_keys(m, hs).contains_key(k) <==> (m.contains_key(k) && !hs.contains(k)),
    decreases hs.len(),
{
    if hs.len() > 0 {
        lemma_remove_keys_contains(m, hs.drop_last(), k);
        if hs.contains(k) {
            let i = choose|i: int| 0 <= i < hs.len() && hs[i] == k;
            if i < hs.len() - 1 {
                assert(hs.drop_last()[i] == k);
            }
        }
        if hs.drop_last().contains(k) {
            assert(hs[choose|i: int| 0 <= i < hs.drop_last().len() && hs.drop_last()[i] == k] == k);
        }
    }
}

/// A key is bound after inserting a list of pairs iff it was bound before or
/// one of the pairs binds it.
pub proof fn lemma_insert_pairs_contains(
    m: Map<Digest, OutputKey>,
    ps: Seq<(Digest, OutputKey)>,
    k: Digest,
)
    ensures
        spec_insert_pairs(m, ps).contains_key(k) <==> (m.contains_key(k) || exists|i: int|
            0 <= i < ps.len() && (#[trigger] ps[i]).0 == k),
    decreases ps.len(),
{
    if ps.len() > 0 {
        lemma_insert_pairs_contains(m, ps.drop_last(), k);
        if exists|i: int| 0 <= i < ps.len() && (#[trigger] ps[i]).0 == k {
            let i = choose|i: int| 0 <= i < ps.len() && (#[trigger] ps[i]).0 == k;
            if i < ps.len() - 1 {
                assert(ps.drop_last()[i].0 == k);
            }
        }
        if exists|i: int| 0 <= i < ps.drop_last().len() && (#[trigger] ps.drop_last()[i]).0 == k {
            let i = choose|i: int|
                0 <= i < ps.drop_last().len() && (#[trigger] ps.drop_last()[i]).0 == k;
            assert(ps[i].0 == k);
        }
    }
}

/// Report the first repeated digest, if any.
pub fn find_duplicate(hs: &Vec<Digest>) -> (r: Option<Digest>)
    ensures
        r is None <==> spec_distinct_digests(hs@),
{
    let mut i: usize = 0;
    while i < hs.len()
        invariant
            i <= hs@.len(),
            forall|a: int, b: int| 0 <= a < b < i ==> hs@[a] != hs@[b],
        decreases hs@.len() - i,
    {
        let mut j: usize = 0;
        while j < i
            invariant
                j <= i < hs@.len(),
                forall|a: int| 0 <= a < j ==> hs@[a] != hs@[i as int],
            decreases i - j,
        {
            if hs[j].value == hs[i].value {
                proof {
                    assert(hs@[j as int] == hs@[i as int]);
                }
                return Some(hs[i]);
            }
            j = j + 1;
        }
        i = i + 1;
    }
    None
}

/// The transactions of a list, each under its digest, in order.
pub fn collect_tx_entries(txs: &Vec<Transaction>) -> (r: Vec<(Digest, Transaction)>)
    ensures
        r@.len() == txs.deep_view().len(),
        forall|i: int|
            0 <= i < r@.len() ==> (#[trigger] r@[i]).0 == spec_tx_digest(txs.deep_view()[i])
                && r@[i].1@ == txs.deep_view()[i],
{
    let ghost dv = txs.deep_view();
    let mut r: Vec<(Digest, Transaction)> = Vec::new();
    let mut i: usize = 0;
    while i < txs.len()
        invariant
            dv == txs.deep_view(),
            dv.len() == txs@.len(),
            i <= txs@.len(),
            r@.len() == i,
            forall|j: int|
                0 <= j < i ==> (#[trigger] r@[j]).0 == spec_tx_digest(dv[j]) && r@[j].1@ == dv[j],
        decreases txs@.len() - i,
    {
        proof {
            assert(dv[i as int] == txs@[i as int]@);
        }
        let d = txs[i].digest();
        let tx = txs[i].clone();
        r.push((d, tx));
        i = i + 1;
    }
    r
}

/// The validator list with every occurrence of `cheater` removed.
pub fn filter_validators(vals: &Vec<(NetworkKey, i64)>, cheater: NetworkKey) -> (r: Vec<
    (NetworkKey, i64),
>)
    ensures
        r@ == spec_filter_validator(vals@, cheater),
{
    let mut r: Vec<(NetworkKey, i64)> = Vec::new();
    let mut i: usize = 0;
    while i < vals.len()
        invariant
            i <= vals@.len(),
            r@ == spec_filter_validator(vals@.take(i as int), cheater),
        decreases vals@.len() - i,
    {
        proof {
            assert(vals@.take(i + 1 as int).drop_last() =~= vals@.take(i as int));
            assert(vals@.take(i + 1 as int).last() == vals@[i as int]);
        }
        if vals[i].0.value != cheater.value {
            r.push(vals[i]);
        }
        i = i + 1;
    }
    proof {
        assert(vals@.take(vals@.len() as int) =~= vals@);
    }
    r
}

impl Blockchain {
    /// The current running balance.
    pub fn balance(&self) -> (b: Balance)
        requires
            self.wf_base(),
        ensures
            b == self.balance@[UnitKey],
    {
        match self.balance.get(&UnitKey) {
            Some(b) => *b,
            None => unreached(),
        }
    }

    /// The current election result.
    fn current_election(&self) -> (e: ElectionResult)
        requires
            self.wf_base(),
        ensures
            e@ == self.election_result@[UnitKey],
    {
        match self.election_result.get(&UnitKey) {
            Some(e) => e.clone(),
            None => unreached(),
        }
    }

    /// Whether a micro block may be applied to the current state: it
    /// continues the chain at the current position, spends only distinct live
    /// outputs, creates only fresh distinct outputs, and balances exactly.
    pub open spec fn spec_micro_valid(self, b: MicroBlockView) -> bool {
        let ins = spec_txs_inputs(b.transactions);
        let outs = spec_txs_outputs(b.transactions);
        let reward = spec_txs_reward(b.transactions);
        &&& b.header.version == VERSION
        &&& b.header.epoch == self.epoch
        &&& b.header.offset == self.offset
        &&& self.offset < self.cfg.micro_blocks_in_epoch
        &&& b.header.previous == self.last_block_hash
        &&& b.header.timestamp.millis > self.last_block_timestamp.millis
        &&& b.transactions.len() < 0x100000000
        &&& (forall|i: int|
            0 <= i < b.transactions.len() ==> !((#[trigger] b.transactions[i]) is ServiceAward))
        &&& (forall|i: int|
            0 <= i < b.transactions.len() ==> spec_txouts(#[trigger] b.transactions[i]).len()
                < 0x100000000)
        &&& spec_distinct_digests(ins)
        &&& self.spec_inputs_ok(ins)
        &&& spec_distinct_digests(spec_output_digests(outs))
        &&& (forall|i: int|
            0 <= i < outs.len() ==> !self.output_by_hash@.contains_key(
                spec_output_digest(#[trigger] outs[i]),
            ))
        &&& !self.block_by_hash@.contains_key(spec_micro_digest(b))
        &&& i64::MIN <= reward <= i64::MAX
        &&& i64::MIN <= self.balance@[UnitKey].block_reward + reward <= i64::MAX
        &&& pt_add(
            fee_a(reward as i64),
            pt_sub(spec_sum_pedersen(self.spec_resolved(ins)), spec_sum_pedersen(outs)),
        ) == fr_times_g(spec_txs_gamma(b.transactions))
    }

    /// The election result a micro block leaves behind: the slashed cheaters
    /// removed, the view counter reset, the randomness advanced.
    pub open spec fn spec_micro_election(
        e: ElectionResultView,
        b: MicroBlockView,
    ) -> ElectionResultView {
        ElectionResultView {
            validators: spec_apply_slashing(e.validators, b.transactions),
            slots: e.slots,
            facilitator: e.facilitator,
            random: b.header.random,
            view_change: 0,
        }
    }
}

/// The balance a micro block leaves behind.
pub open spec fn spec_micro_balance(b0: Balance, b: MicroBlockView, resolved: Seq<Output>) -> Balance {
    Balance {
        created: pt_add(b0.created, spec_sum_pedersen(spec_txs_outputs(b.transactions))),
        burned: pt_add(b0.burned, spec_sum_pedersen(resolved)),
        gamma: fr_add(b0.gamma, spec_txs_gamma(b.transactions)),
        block_reward: (b0.block_reward + spec_txs_reward(b.transactions)) as i64,
    }
}

impl Blockchain {
    /// The exact effect of applying micro block `b` to state `pre`: every
    /// index is updated at the block's log sequence number, and every earlier
    /// rollback state is untouched.
    pub open spec fn spec_micro_applied(pre: Blockchain, post: Blockchain, b: MicroBlockView) -> bool {
        let lsn = Lsn(pre.epoch, pre.offset);
        let ins = spec_txs_inputs(b.transactions);
        let outs = spec_txs_outputs(b.transactions);
        let resolved = pre.spec_resolved(ins);
        let e0 = pre.election_result@[UnitKey];
        &&& post.cfg == pre.cfg
        &&& post.epoch == pre.epoch
        &&& post.offset == pre.offset + 1
        &&& post.difficulty == pre.difficulty
        &&& post.awards.budget == pre.awards.budget
        &&& post.awards.difficulty == pre.awards.difficulty
        &&& post.awards.activity@ == pre.awards.activity@
        &&& post.view_change_proof == pre.view_change_proof
        &&& post.last_block_hash == spec_micro_digest(b)
        &&& post.last_block_timestamp == b.header.timestamp
        &&& post.last_macro_block_hash == pre.last_macro_block_hash
        &&& post.last_macro_block_timestamp == pre.last_macro_block_timestamp
        &&& post.last_macro_block_random == pre.last_macro_block_random
        &&& post.database@ == pre.database@.insert(lsn, BlockView::MicroBlock(b))
        &&& post.block_by_hash@ == pre.block_by_hash@.insert(spec_micro_digest(b), lsn)
        &&& post.output_by_hash@ == spec_insert_pairs(
            spec_remove_keys(pre.output_by_hash@, ins),
            spec_micro_pairs(b.transactions, pre.epoch, pre.offset),
        )
        &&& post.balance@ == pre.balance@.insert(
            UnitKey,
            spec_micro_balance(pre.balance@[UnitKey], b, resolved),
        )
        &&& post.escrow.view() == spec_stake_outputs(
            spec_unstake_inputs(pre.escrow.view(), ins, resolved),
            outs,
            pre.epoch,
            pre.cfg.stake_epochs,
        )
        &&& post.election_result@ == pre.election_result@.insert(
            UnitKey,
            Blockchain::spec_micro_election(e0, b),
        )
        &&& post.epoch_activity@ == spec_mark_leader(
            spec_mark_skipped(
                pre.epoch_activity@,
                e0,
                pre.epoch,
                pre.offset,
                b.header.view_change as int,
            ),
            spec_select_leader(e0, b.header.view_change),
        )
        &&& post.block_by_hash.lsn() == lsn
        &&& post.balance.lsn() == lsn
        &&& post.election_result.lsn() == lsn
        &&& post.output_by_hash.lsn() == lsn
        &&& post.escrow.lsn() == lsn
        &&& post.epoch_activity.lsn() == lsn
        &&& (forall|t: Lsn|
            lsn_lt(t, lsn) ==> post.block_by_hash.state_at(t) == pre.block_by_hash.state_at(t))
        &&& (forall|t: Lsn|
            lsn_lt(t, lsn) ==> post.output_by_hash.state_at(t) == pre.output_by_hash.state_at(t))
        &&& (forall|t: Lsn| lsn_lt(t, lsn) ==> post.balance.state_at(t) == pre.balance.state_at(t))
        &&& (forall|t: Lsn| lsn_lt(t, lsn) ==> post.escrow.state_at(t) == pre.escrow.state_at(t))
        &&& (forall|t: Lsn|
            lsn_lt(t, lsn) ==> post.election_result.state_at(t) == pre.election_result.state_at(t))
        &&& (forall|t: Lsn|
            lsn_lt(t, lsn) ==> post.epoch_activity.state_at(t) == pre.epoch_activity.state_at(t))
    }

    /// Check that a micro block may be applied to the current state.
    #[verifier::loop_isolation(false)]
    pub fn check_micro_block(&self, block: &MicroBlock) -> (r: Result<(), BlockchainError>)
        requires
            self.wf(),
        ensures
            r is Ok <==> self.spec_micro_valid(block@),
    {
        let ghost dv = block.transactions.deep_view();
        if block.header.version != VERSION {
            return Err(
                BlockchainError::BlockError(BlockError::InvalidBlockVersion(self.epoch, block.header.version)),
            );
        }
        if block.header.epoch != self.epoch || block.header.offset != self.offset {
            return Err(
                BlockchainError::BlockError(
                    BlockError::OutOfOrderBlock(
                        self.epoch,
                        self.offset,
                        block.header.epoch,
                        block.header.offset,
                    ),
                ),
            );
        }
        if !(self.offset < self.cfg.micro_blocks_in_epoch) {
            return Err(BlockchainError::BlockError(BlockError::EpochIsFull(self.epoch, self.offset)));
        }
        if block.header.previous.value != self.last_block_hash.value {
            return Err(
                BlockchainError::BlockError(
                    BlockError::InvalidPreviousHash(
                        self.epoch,
                        block.header.previous,
                        self.last_block_hash,
                    ),
                ),
            );
        }
        if !(block.header.timestamp.millis > self.last_block_timestamp.millis) {
            return Err(
                BlockchainError::BlockError(
                    BlockError::OutOfOrderTimestamp(
                        self.epoch,
                        block.header.timestamp.millis,
                        self.last_block_timestamp.millis,
                    ),
                ),
            );
        }
        if block.transactions.len() as u64 >= 0x100000000u64 {
            return Err(BlockchainError::BlockError(BlockError::EpochIsFull(self.epoch, self.offset)));
        }
        let mut i: usize = 0;
        while i < block.transactions.len()
            invariant
                i <= dv.len(),
                forall|j: int|
                    0 <= j < i ==> !((#[trigger] dv[j]) is ServiceAward) && spec_txouts(dv[j]).len()
                        < 0x100000000,
            decreases dv.len() - i,
        {
            proof {
                assert(dv[i as int] == block.transactions@[i as int]@);
            }
            match &block.transactions[i] {
                Transaction::ServiceAwardTransaction(_) => {
                    proof {
                        assert(dv[i as int] is ServiceAward);
                    }
                    return Err(
                        BlockchainError::BlockError(
                            BlockError::UnexpectedTransactionType(self.epoch, self.offset),
                        ),
                    );
                },
                _ => {},
            }
            let outs = block.transactions[i].txouts();
            if outs.len() as u64 >= 0x100000000u64 {
                return Err(
                    BlockchainError::BlockError(
                        BlockError::UnexpectedTransactionType(self.epoch, self.offset),
                    ),
                );
            }
            i = i + 1;
        }
        let ins_hashes = collect_tx_inputs(&block.transactions);
        match find_duplicate(&ins_hashes) {
            Some(h) => {
                return Err(BlockchainError::TransactionError(TransactionError::DuplicateInput(h)));
            },
            None => {},
        }
        let ins = match self.resolve_inputs(&ins_hashes) {
            Ok(v) => v,
            Err(e) => {
                return Err(e);
            },
        };
        let outs_flat = collect_tx_outputs(&block.transactions);
        let out_digests = collect_output_digests(&outs_flat);
        match find_duplicate(&out_digests) {
            Some(h) => {
                return Err(BlockchainError::BlockError(BlockError::OutputHashCollision(self.epoch, h)));
            },
            None => {},
        }
        let mut k: usize = 0;
        while k < out_digests.len()
            invariant
                out_digests@ == spec_output_digests(spec_txs_outputs(dv)),
                k <= out_digests@.len(),
                forall|j: int|
                    0 <= j < k ==> !self.output_by_hash@.contains_key(#[trigger] out_digests@[j]),
            decreases out_digests@.len() - k,
        {
            let present = match self.output_by_hash.get(&out_digests[k]) {
                Some(_) => true,
                None => false,
            };
            if present {
                return Err(
                    BlockchainError::BlockError(
                        BlockError::OutputHashCollision(self.epoch, out_digests[k]),
                    ),
                );
            }
            k = k + 1;
        }
        let bh = block.digest();
        let block_known = match self.block_by_hash.get(&bh) {
            Some(_) => true,
            None => false,
        };
        if block_known {
            return Err(BlockchainError::BlockError(BlockError::BlockHashCollision(self.epoch, bh)));
        }
        let reward_wide = collect_txs_reward(&block.transactions);
        if reward_wide < i64::MIN as i128 || reward_wide > i64::MAX as i128 {
            return Err(BlockchainError::BlockError(BlockError::InvalidBlockBalance(self.epoch, bh)));
        }
        let reward = reward_wide as i64;
        let bal = self.balance();
        let nr_wide = bal.block_reward as i128 + reward as i128;
        if nr_wide < i64::MIN as i128 || nr_wide > i64::MAX as i128 {
            return Err(BlockchainError::BlockError(BlockError::InvalidBlockBalance(self.epoch, bh)));
        }
        let burned = sum_pedersen(&ins);
        let created = sum_pedersen(&outs_flat);
        let lhs = crate::crypto::fee_a_exec(reward).add(burned.sub(created));
        let gamma = collect_txs_gamma(&block.transactions);
        let rhs = gamma.times_g();
        if lhs.value != rhs.value {
            return Err(BlockchainError::BlockError(BlockError::InvalidBlockBalance(self.epoch, bh)));
        }
        proof {
            assert forall|j: int|
                0 <= j < spec_txs_outputs(dv).len() implies !self.output_by_hash@.contains_key(
                spec_output_digest(#[trigger] spec_txs_outputs(dv)[j]),
            ) by {
                assert(spec_output_digests(spec_txs_outputs(dv))[j] == spec_output_digest(
                    spec_txs_outputs(dv)[j],
                ));
                assert(!self.output_by_hash@.contains_key(out_digests@[j]));
            }
            assert(self.spec_micro_valid(block@));
        }
        Ok(())
    }
}

impl Blockchain {
    /// Apply a valid micro block: write it to the log and update every index
    /// at the block's log sequence number.
    #[verifier::loop_isolation(false)]
    #[verifier::rlimit(100)]
    fn register_micro_block(&mut self, block: &MicroBlock)
        requires
            old(self).wf(),
            old(self).spec_micro_valid(block@),
        ensures
            final(self).wf(),
            Blockchain::spec_micro_applied(*old(self), *final(self), block@),
    {
        let ghost pre = *old(self);
        let ghost dv = block.transactions.deep_view();
        let ghost lsng = Lsn(pre.epoch, pre.offset);
        let lsn = Lsn(self.epoch, self.offset);
        let bh = block.digest();
        let ins_hashes = collect_tx_inputs(&block.transactions);
        let ins = match self.resolve_inputs(&ins_hashes) {
            Ok(v) => v,
            Err(_) => {
                proof {
                    assert(false);
                }
                unreached()
            },
        };
        let mut outs_flat: Vec<Output> = Vec::new();
        let mut pairs: Vec<(Digest, OutputKey)> = Vec::new();
        let mut i: usize = 0;
        while i < block.transactions.len()
            invariant
                i <= dv.len(),
                outs_flat@ == spec_txs_outputs(dv.take(i as int)),
                pairs@ == spec_micro_pairs(dv.take(i as int), pre.epoch, pre.offset),
                pairs@.len() == outs_flat@.len(),
                forall|k: int|
                    0 <= k < pairs@.len() ==> (#[trigger] pairs@[k]).0 == spec_output_digest(
                        outs_flat@[k],
                    ),
            decreases dv.len() - i,
        {
            proof {
                assert(dv[i as int] == block.transactions@[i as int]@);
            }
            let tx = &block.transactions[i];
            let outs = tx.txouts();
            let ghost base_outs = outs_flat@;
            let ghost base_pairs = pairs@;
            let mut j: usize = 0;
            while j < outs.len()
                invariant
                    j <= outs@.len(),
                    outs@ == spec_txouts(dv[i as int]),
                    outs_flat@ == base_outs + outs@.take(j as int),
                    pairs@ == base_pairs + spec_tx_pairs(dv[i as int], i as u32, pre.epoch, pre.offset).take(j as int),
                    pairs@.len() == outs_flat@.len(),
                    forall|k: int|
                        0 <= k < pairs@.len() ==> (#[trigger] pairs@[k]).0 == spec_output_digest(
                            outs_flat@[k],
                        ),
                decreases outs@.len() - j,
            {
                let o = outs[j];
                let d = o.digest();
                outs_flat.push(o);
                pairs.push(
                    (
                        d,
                        OutputKey::MicroBlock {
                            epoch: self.epoch,
                            offset: self.offset,
                            tx_id: i as u32,
                            txout_id: j as u32,
                        },
                    ),
                );
                proof {
                    let tp = spec_tx_pairs(dv[i as int], i as u32, pre.epoch, pre.offset);
                    assert(tp[j as int] == (
                        spec_output_digest(outs@[j as int]),
                        OutputKey::MicroBlock {
                            epoch: pre.epoch,
                            offset: pre.offset,
                            tx_id: i as u32,
                            txout_id: j as u32,
                        },
                    ));
                    assert(outs@.take(j + 1 as int) =~= outs@.take(j as int).push(outs@[j as int]));
                    assert(tp.take(j + 1 as int) =~= tp.take(j as int).push(tp[j as int]));
                    assert(outs_flat@ =~= base_outs + outs@.take(j + 1 as int));
                    assert(pairs@ =~= base_pairs + tp.take(j + 1 as int));
                }
                j = j + 1;
            }
            proof {
                let tp = spec_tx_pairs(dv[i as int], i as u32, pre.epoch, pre.offset);
                assert(outs@.take(outs@.len() as int) =~= outs@);
                assert(tp.take(tp.len() as int) =~= tp);
                assert(dv.take(i + 1 as int).drop_last() =~= dv.take(i as int));
                assert(dv.take(i + 1 as int).last() == dv[i as int]);
                assert(outs_flat@ =~= spec_txs_outputs(dv.take(i + 1 as int)));
                assert(pairs@ =~= spec_micro_pairs(dv.take(i + 1 as int), pre.epoch, pre.offset));
            }
            i = i + 1;
        }
        proof {
            assert(dv.take(dv.len() as int) =~= dv);
        }
        let gamma = collect_txs_gamma(&block.transactions);
        let reward_wide = collect_txs_reward(&block.transactions);
        let reward = reward_wide as i64;
        let bal = self.balance();
        let nr = (bal.block_reward as i128 + reward as i128) as i64;
        let burned = sum_pedersen(&ins);
        let created = sum_pedersen(&outs_flat);
        let elect = self.current_election();
        // From here on the state is updated; nothing below can fail.
        let stored = Block::MicroBlock(block.clone());
        let ghost storedg = stored;
        self.database.insert(lsn, stored);
        let ghost db1 = self.database;
        proof {
            assert(storedg@ == BlockView::MicroBlock(block@));
        }
        let _ = self.block_by_hash.insert(lsn, bh, lsn);
        let ghost bbh1 = self.block_by_hash;
        let mut ii: usize = 0;
        while ii < ins_hashes.len()
            invariant
                ii <= ins_hashes@.len(),
                self.database == db1,
                self.block_by_hash == bbh1,
                self.balance == pre.balance,
                self.election_result == pre.election_result,
                self.epoch_activity == pre.epoch_activity,
                self.awards == pre.awards,
                self.cfg == pre.cfg,
                self.epoch == pre.epoch,
                self.offset == pre.offset,
                self.difficulty == pre.difficulty,
                self.view_change_proof == pre.view_change_proof,
                self.last_block_hash == pre.last_block_hash,
                self.last_block_timestamp == pre.last_block_timestamp,
                self.last_macro_block_hash == pre.last_macro_block_hash,
                self.last_macro_block_timestamp == pre.last_macro_block_timestamp,
                self.last_macro_block_random == pre.last_macro_block_random,
                self.output_by_hash.wf(),
                lsn_le(self.output_by_hash.lsn(), lsng),
                self.output_by_hash@ == spec_remove_keys(
                    pre.output_by_hash@,
                    ins_hashes@.take(ii as int),
                ),
                self.escrow.wf(),
                lsn_le(self.escrow.lsn(), lsng),
                self.escrow.view() == spec_unstake_inputs(
                    pre.escrow.view(),
                    ins_hashes@.take(ii as int),
                    ins@.take(ii as int),
                ),
                forall|t: Lsn|
                    lsn_lt(t, lsng) ==> self.output_by_hash.state_at(t)
                        == pre.output_by_hash.state_at(t),
                forall|t: Lsn|
                    lsn_lt(t, lsng) ==> self.escrow.state_at(t) == pre.escrow.state_at(t),
            decreases ins_hashes@.len() - ii,
        {
            proof {
                assert(ins_hashes@.take(ii + 1 as int).drop_last() =~= ins_hashes@.take(ii as int));
                assert(ins@.take(ii + 1 as int).drop_last() =~= ins@.take(ii as int));
                assert(ins_hashes@.take(ii + 1 as int).last() == ins_hashes@[ii as int]);
                assert(ins@.take(ii + 1 as int).last() == ins@[ii as int]);
            }
            let h = ins_hashes[ii];
            let _ = self.output_by_hash.remove(lsn, &h);
            match &ins[ii] {
                Output::StakeOutput(st) => {
                    self.escrow.unstake(lsn, st.validator, h, self.epoch);
                },
                _ => {},
            }
            ii = ii + 1;
        }
        proof {
            assert(ins_hashes@.take(ins_hashes@.len() as int) =~= ins_hashes@);
            assert(ins@.take(ins@.len() as int) =~= ins@);
        }
        let ghost m1 = self.output_by_hash@;
        let ghost e1 = self.escrow.view();
        let ghost ob_mid = self.output_by_hash;
        let ghost esc_mid = self.escrow;
        let mut jj: usize = 0;
        while jj < pairs.len()
            invariant
                jj <= pairs@.len(),
                self.database == db1,
                self.block_by_hash == bbh1,
                self.balance == pre.balance,
                self.election_result == pre.election_result,
                self.epoch_activity == pre.epoch_activity,
                self.awards == pre.awards,
                self.cfg == pre.cfg,
                self.epoch == pre.epoch,
                self.offset == pre.offset,
                self.difficulty == pre.difficulty,
                self.view_change_proof == pre.view_change_proof,
                self.last_block_hash == pre.last_block_hash,
                self.last_block_timestamp == pre.last_block_timestamp,
                self.last_macro_block_hash == pre.last_macro_block_hash,
                self.last_macro_block_timestamp == pre.last_macro_block_timestamp,
                self.last_macro_block_random == pre.last_macro_block_random,
                self.output_by_hash.wf(),
                lsn_le(self.output_by_hash.lsn(), lsng),
                self.output_by_hash@ == spec_insert_pairs(m1, pairs@.take(jj as int)),
                self.escrow.wf(),
                lsn_le(self.escrow.lsn(), lsng),
                self.escrow.view() == spec_stake_outputs(
                    e1,
                    outs_flat@.take(jj as int),
                    pre.epoch,
                    pre.cfg.stake_epochs,
                ),
                forall|t: Lsn|
                    lsn_lt(t, lsng) ==> self.output_by_hash.state_at(t)
                        == ob_mid.state_at(t),
                forall|t: Lsn|
                    lsn_lt(t, lsng) ==> self.escrow.state_at(t) == esc_mid.state_at(t),
            decreases pairs@.len() - jj,
        {
            proof {
                assert(pairs@.take(jj + 1 as int).drop_last() =~= pairs@.take(jj as int));
                assert(outs_flat@.take(jj + 1 as int).drop_last() =~= outs_flat@.take(jj as int));
                assert(pairs@.take(jj + 1 as int).last() == pairs@[jj as int]);
                assert(outs_flat@.take(jj + 1 as int).last() == outs_flat@[jj as int]);
            }
            let p = pairs[jj];
            let _ = self.output_by_hash.insert(lsn, p.0, p.1);
            match &outs_flat[jj] {
                Output::StakeOutput(st) => {
                    proof {
                        assert(pre.epoch + pre.cfg.stake_epochs <= u64::MAX);
                    }
                    self.escrow.stake(
                        lsn,
                        st.validator,
                        st.recipient,
                        p.0,
                        self.epoch,
                        self.cfg.stake_epochs,
                        st.amount,
                    );
                },
                _ => {},
            }
            jj = jj + 1;
        }
        proof {
            assert(pairs@.take(pairs@.len() as int) =~= pairs@);
            assert(outs_flat@.take(outs_flat@.len() as int) =~= outs_flat@);
        }
        let new_bal = Balance {
            created: bal.created.add(created),
            burned: bal.burned.add(burned),
            gamma: bal.gamma.add(gamma),
            block_reward: nr,
        };
        let _ = self.balance.insert(lsn, UnitKey, new_bal);
        proof {
            lemma_balance_compose(
                bal.block_reward,
                bal.burned.value,
                bal.created.value,
                bal.gamma.value,
                reward,
                burned.value,
                created.value,
                gamma.value,
                nr,
            );
            assert(spec_balance_ok(new_bal));
        }
        let ghost ob2 = self.output_by_hash;
        let ghost esc2 = self.escrow;
        let ghost bal2 = self.balance;
        let mut v: u32 = 0;
        while v < block.header.view_change
            invariant
                v <= block.header.view_change,
                self.database == db1,
                self.block_by_hash == bbh1,
                self.balance == bal2,
                self.output_by_hash == ob2,
                self.escrow == esc2,
                self.election_result == pre.election_result,
                self.awards == pre.awards,
                self.cfg == pre.cfg,
                self.epoch == pre.epoch,
                self.offset == pre.offset,
                self.difficulty == pre.difficulty,
                self.view_change_proof == pre.view_change_proof,
                self.last_block_hash == pre.last_block_hash,
                self.last_block_timestamp == pre.last_block_timestamp,
                self.last_macro_block_hash == pre.last_macro_block_hash,
                self.last_macro_block_timestamp == pre.last_macro_block_timestamp,
                self.last_macro_block_random == pre.last_macro_block_random,
                self.epoch_activity.wf(),
                lsn_le(self.epoch_activity.lsn(), lsng),
                self.epoch_activity@ == spec_mark_skipped(
                    pre.epoch_activity@,
                    pre.election_result@[UnitKey],
                    pre.epoch,
                    pre.offset,
                    v as int,
                ),
                forall|t: Lsn|
                    lsn_lt(t, lsng) ==> self.epoch_activity.state_at(t)
                        == pre.epoch_activity.state_at(t),
            decreases block.header.view_change - v,
        {
            let leader = elect.select_leader(v);
            let _ = self.epoch_activity.insert(
                lsn,
                leader,
                ValidatorAwardState::FailedAt(self.epoch, self.offset),
            );
            v = v + 1;
        }
        let leader = elect.select_leader(block.header.view_change);
        let known = match self.epoch_activity.get(&leader) {
            Some(_) => true,
            None => false,
        };
        if !known {
            let _ = self.epoch_activity.insert(lsn, leader, ValidatorAwardState::Active);
        }
        let ghost act2 = self.epoch_activity;
        let mut vals = copy_vec(&elect.validators);
        let mut ti: usize = 0;
        while ti < block.transactions.len()
            invariant
                ti <= dv.len(),
                self.database == db1,
                self.block_by_hash == bbh1,
                self.balance == bal2,
                self.output_by_hash == ob2,
                self.escrow == esc2,
                self.epoch_activity == act2,
                self.election_result == pre.election_result,
                self.awards == pre.awards,
                self.cfg == pre.cfg,
                self.epoch == pre.epoch,
                self.offset == pre.offset,
                self.difficulty == pre.difficulty,
                self.view_change_proof == pre.view_change_proof,
                self.last_block_hash == pre.last_block_hash,
                self.last_block_timestamp == pre.last_block_timestamp,
                self.last_macro_block_hash == pre.last_macro_block_hash,
                self.last_macro_block_timestamp == pre.last_macro_block_timestamp,
                self.last_macro_block_random == pre.last_macro_block_random,
                vals@ == spec_apply_slashing(pre.election_result@[UnitKey].validators, dv.take(ti as int)),
            decreases dv.len() - ti,
        {
            proof {
                assert(dv.take(ti + 1 as int).drop_last() =~= dv.take(ti as int));
                assert(dv.take(ti + 1 as int).last() == dv[ti as int]);
                assert(dv[ti as int] == block.transactions@[ti as int]@);
            }
            match &block.transactions[ti] {
                Transaction::SlashingTransaction(t) => {
                    let filtered = filter_validators(&vals, t.cheater);
                    vals = filtered;
                },
                _ => {},
            }
            ti = ti + 1;
        }
        proof {
            assert(dv.take(dv.len() as int) =~= dv);
        }
        let new_elect = ElectionResult {
            validators: vals,
            slots: elect.slots,
            facilitator: elect.facilitator,
            random: block.header.random,
            view_change: 0,
        };
        let _ = self.election_result.insert(lsn, UnitKey, new_elect);
        // Every index shares the apply LSN, touched or not.
        self.output_by_hash.advance_lsn(lsn);
        self.escrow.advance_lsn(lsn);
        self.epoch_activity.advance_lsn(lsn);
        self.last_block_hash = bh;
        self.last_block_timestamp = block.header.timestamp;
        self.offset = self.offset + 1;
        proof {
            assert forall|t: Lsn|
                (#[trigger] self.balance.state_at(t)).contains_key(UnitKey) && spec_balance_ok(
                    self.balance.state_at(t)[UnitKey],
                ) by {
                if lsn_lt(t, lsng) {
                    assert(self.balance.state_at(t) == pre.balance.state_at(t));
                } else {
                    crate::mvm::lemma_replay_noop(self.balance@, self.balance.undo@, t);
                    assert(self.balance.state_at(t) == self.balance@);
                }
            }
            assert forall|t: Lsn|
                (#[trigger] self.election_result.state_at(t)).contains_key(UnitKey)
                    && self.election_result.state_at(t)[UnitKey].slots.len()
                    == self.cfg.max_slot_count by {
                if lsn_lt(t, lsng) {
                    assert(self.election_result.state_at(t) == pre.election_result.state_at(t));
                } else {
                    crate::mvm::lemma_replay_noop(
                        self.election_result@,
                        self.election_result.undo@,
                        t,
                    );
                    assert(self.election_result.state_at(t) == self.election_result@);
                    assert(self.election_result@[UnitKey] == new_elect@);
                    assert(new_elect@.slots.len() == pre.election_result@[UnitKey].slots.len());
                }
            }
            assert(self.balance@ =~= pre.balance@.insert(UnitKey, new_bal));
            assert(self.balance@[UnitKey] == new_bal);
            assert(self.election_result@[UnitKey] == new_elect@);
            assert(new_elect@ == Blockchain::spec_micro_election(
                pre.election_result@[UnitKey],
                block@,
            ));
            assert(Blockchain::spec_micro_applied(pre, *self, block@));
        }
    }

    /// Add a new micro block to the blockchain.  On success, returns the
    /// spent outputs, the created outputs, and the digests of the applied
    /// transactions.
    pub fn push_micro_block(&mut self, block: MicroBlock, _timestamp: Timestamp) -> (r: Result<
        (Vec<Output>, Vec<Output>, Vec<(Digest, Transaction)>),
        BlockchainError,
    >)
        requires
            old(self).wf(),
        ensures
            final(self).wf(),
            match r {
                Ok(res) => {
                    &&& old(self).spec_micro_valid(block@)
                    &&& Blockchain::spec_micro_applied(*old(self), *final(self), block@)
                    &&& res.0@ == old(self).spec_resolved(spec_txs_inputs(block@.transactions))
                    &&& res.1@ == spec_txs_outputs(block@.transactions)
                    &&& res.2@.len() == block@.transactions.len()
                    &&& (forall|i: int|
                        0 <= i < res.2@.len() ==> (#[trigger] res.2@[i]).0 == spec_tx_digest(
                            block@.transactions[i],
                        ) && res.2@[i].1@ == block@.transactions[i])
                    &&& spec_balance_ok(final(self).balance@[UnitKey])
                },
                Err(_) => *final(self) == *old(self) && !old(self).spec_micro_valid(block@),
            },
    {
        match self.check_micro_block(&block) {
            Ok(_) => {},
            Err(e) => {
                return Err(e);
            },
        }
        let ins_hashes = collect_tx_inputs(&block.transactions);
        let ins = match self.resolve_inputs(&ins_hashes) {
            Ok(v) => v,
            Err(_) => {
                proof {
                    assert(false);
                }
                unreached()
            },
        };
        let outs = collect_tx_outputs(&block.transactions);
        let txs = collect_tx_entries(&block.transactions);
        self.register_micro_block(&block);
        Ok((ins, outs, txs))
    }
}

/// The payment and restake transactions of a transaction list, in order.
pub open spec fn spec_removed_txs(txs: Seq<TransactionView>) -> Seq<TransactionView>
    decreases txs.len(),
{
    if txs.len() == 0 {
        Seq::empty()
    } else {
        let prev = spec_removed_txs(txs.drop_last());
        match txs.last() {
            TransactionView::Payment { .. } => prev.push(txs.last()),
            TransactionView::Restake { .. } => prev.push(txs.last()),
            _ => prev,
        }
    }
}

/// The payment and restake transactions of a reverted block, in order.
fn collect_removed_txs(txs: &Vec<Transaction>) -> (r: Vec<Transaction>)
    ensures
        r.deep_view() == spec_removed_txs(txs.deep_view()),
{
    let ghost dv = txs.deep_view();
    let mut r: Vec<Transaction> = Vec::new();
    let mut i: usize = 0;
    while i < txs.len()
        invariant
            dv == txs.deep_view(),
            dv.len() == txs@.len(),
            i <= txs@.len(),
            r.deep_view() == spec_removed_txs(dv.take(i as int)),
        decreases txs@.len() - i,
    {
        proof {
            assert(dv.take(i + 1 as int).drop_last() =~= dv.take(i as int));
            assert(dv.take(i + 1 as int).last() == dv[i as int]);
            assert(dv[i as int] == txs@[i as int]@);
        }
        let ghost pre = r.deep_view();
        match &txs[i] {
            Transaction::PaymentTransaction(_) => {
                let tx = txs[i].clone();
                r.push(tx);
                proof {
                    assert(r.deep_view() =~= pre.push(dv[i as int]));
                }
            },
            Transaction::RestakeTransaction(_) => {
                let tx = txs[i].clone();
                r.push(tx);
                proof {
                    assert(r.deep_view() =~= pre.push(dv[i as int]));
                }
            },
            _ => {},
        }
        i = i + 1;
    }
    proof {
        assert(dv.take(dv.len() as int) =~= dv);
    }
    r
}

/// Rolling the balance map back keeps every rollback state balanced.
proof fn lemma_balance_states_ok(
    pre: MultiVersionedMap<UnitKey, Balance>,
    post: MultiVersionedMap<UnitKey, Balance>,
    target: Lsn,
)
    requires
        post.wf(),
        lsn_le(post.lsn(), target),
        post@ == pre.state_at(target),
        forall|t: Lsn| lsn_le(t, target) ==> post.state_at(t) == pre.state_at(t),
        forall|t: Lsn|
            (#[trigger] pre.state_at(t)).contains_key(UnitKey) && spec_balance_ok(
                pre.state_at(t)[UnitKey],
            ),
    ensures
        forall|t: Lsn|
            (#[trigger] post.state_at(t)).contains_key(UnitKey) && spec_balance_ok(
                post.state_at(t)[UnitKey],
            ),
{
    assert forall|t: Lsn|
        (#[trigger] post.state_at(t)).contains_key(UnitKey) && spec_balance_ok(
            post.state_at(t)[UnitKey],
        ) by {
        if lsn_le(t, target) {
            assert(post.state_at(t) == pre.state_at(t));
        } else {
            crate::mvm::lemma_replay_noop(post@, post.undo@, t);
            assert(post.state_at(t) == post@);
            assert(post@ == pre.state_at(target));
        }
    }
}

/// Rolling the election map back and resetting the view counter keeps every
/// rollback state electable.
proof fn lemma_election_states_ok(
    pre: MultiVersionedMap<UnitKey, ElectionResult>,
    rolled: MultiVersionedMap<UnitKey, ElectionResult>,
    post: MultiVersionedMap<UnitKey, ElectionResult>,
    target: Lsn,
    lsn: Lsn,
    n: int,
    resetv: ElectionResultView,
)
    requires
        rolled.wf(),
        lsn_le(rolled.lsn(), target),
        rolled@ == pre.state_at(target),
        forall|t: Lsn| lsn_le(t, target) ==> rolled.state_at(t) == pre.state_at(t),
        forall|t: Lsn|
            (#[trigger] pre.state_at(t)).contains_key(UnitKey) && pre.state_at(
                t,
            )[UnitKey].slots.len() == n,
        post.wf(),
        lsn_le(post.lsn(), lsn),
        post@ == rolled@.insert(UnitKey, resetv),
        forall|t: Lsn| lsn_lt(t, lsn) ==> post.state_at(t) == rolled.state_at(t),
        resetv.slots.len() == n,
    ensures
        forall|t: Lsn|
            (#[trigger] post.state_at(t)).contains_key(UnitKey) && post.state_at(
                t,
            )[UnitKey].slots.len() == n,
{
    assert forall|t: Lsn|
        (#[trigger] post.state_at(t)).contains_key(UnitKey) && post.state_at(
            t,
        )[UnitKey].slots.len() == n by {
        if lsn_lt(t, lsn) {
            assert(post.state_at(t) == rolled.state_at(t));
            if lsn_le(t, target) {
                assert(rolled.state_at(t) == pre.state_at(t));
            } else {
                crate::mvm::lemma_replay_noop(rolled@, rolled.undo@, t);
                assert(rolled.state_at(t) == rolled@);
                assert(rolled@ == pre.state_at(target));
            }
        } else {
            crate::mvm::lemma_replay_noop(post@, post.undo@, t);
            assert(post.state_at(t) == post@);
        }
    }
}

/// The timestamp a block carries.
pub open spec fn spec_block_timestamp(b: BlockView) -> Timestamp {
    match b {
        BlockView::MacroBlock(m) => m.header.timestamp,
        BlockView::MicroBlock(m) => m.header.timestamp,
    }
}

impl Blockchain {
    /// The log sequence number of the block right before the last micro
    /// block: the previous micro block of this epoch, or the macro block of
    /// the previous epoch.
    pub open spec fn spec_pop_target(self) -> Lsn {
        if self.offset >= 2 {
            Lsn(self.epoch, (self.offset - 2) as u32)
        } else {
            Lsn((self.epoch - 1) as u64, MACRO_BLOCK_OFFSET)
        }
    }

    /// Delete the popped block and roll every index back to `target`.
    #[verifier::rlimit(100)]
    fn revert_indexes(&mut self, popped_lsn: Lsn, target: Lsn, previous: Digest, previous_ts: Timestamp)
        requires
            old(self).wf(),
            old(self).offset > 0,
            popped_lsn == Lsn(old(self).epoch, (old(self).offset - 1) as u32),
            target == old(self).spec_pop_target(),
        ensures
            final(self).wf(),
            final(self).cfg == old(self).cfg,
            final(self).epoch == old(self).epoch,
            final(self).offset == old(self).offset - 1,
            final(self).difficulty == old(self).difficulty,
            final(self).database@ == old(self).database@.remove(popped_lsn),
            final(self).block_by_hash@ == old(self).block_by_hash.state_at(target),
            final(self).output_by_hash@ == old(self).output_by_hash.state_at(target),
            final(self).balance@ == old(self).balance.state_at(target),
            final(self).escrow.view() == old(self).escrow.state_at(target),
            final(self).epoch_activity@ == old(self).epoch_activity.state_at(target),
            final(self).election_result@ == old(self).election_result.state_at(target).insert(
                UnitKey,
                ElectionResultView {
                    validators: old(self).election_result.state_at(target)[UnitKey].validators,
                    slots: old(self).election_result.state_at(target)[UnitKey].slots,
                    facilitator: old(self).election_result.state_at(target)[UnitKey].facilitator,
                    random: old(self).election_result.state_at(target)[UnitKey].random,
                    view_change: 0,
                },
            ),
            final(self).last_block_hash == previous,
            final(self).last_block_timestamp == previous_ts,
            final(self).last_macro_block_hash == old(self).last_macro_block_hash,
            final(self).last_macro_block_timestamp == old(self).last_macro_block_timestamp,
            final(self).last_macro_block_random == old(self).last_macro_block_random,
            final(self).view_change_proof is None,
            final(self).awards.budget == old(self).awards.budget,
            final(self).awards.difficulty == old(self).awards.difficulty,
            final(self).awards.activity@ == old(self).awards.activity@,
    {
        let ghost pre = *old(self);
        self.database.remove(popped_lsn);
        self.block_by_hash.rollback_to_lsn(target);
        self.output_by_hash.rollback_to_lsn(target);
        self.balance.rollback_to_lsn(target);
        self.escrow.rollback_to_lsn(target);
        self.epoch_activity.rollback_to_lsn(target);
        self.election_result.rollback_to_lsn(target);
        self.offset = self.offset - 1;
        self.last_block_hash = previous;
        self.last_block_timestamp = previous_ts;
        self.view_change_proof = None;
        // Reset the view-change counter at the restored position.
        let ghost rolled_er = self.election_result;
        let rolled = self.current_election_after_rollback();
        let reset = ElectionResult {
            validators: rolled.validators,
            slots: rolled.slots,
            facilitator: rolled.facilitator,
            random: rolled.random,
            view_change: 0,
        };
        let lsn = Lsn(self.epoch, self.offset);
        proof {
            assert(lsn_le(self.election_result.lsn(), lsn));
        }
        let _ = self.election_result.insert(lsn, UnitKey, reset);
        proof {
            lemma_balance_states_ok(pre.balance, self.balance, target);
            lemma_election_states_ok(
                pre.election_result,
                rolled_er,
                self.election_result,
                target,
                lsn,
                self.cfg.max_slot_count as int,
                reset@,
            );
            assert(self.wf());
        }
    }

    /// Revert the last micro block: delete it from the log, roll every index
    /// back to the preceding block, and restore the chain position.  Returns
    /// the discarded outputs, the outputs that became spendable again, and
    /// the reverted payment and restake transactions.
    #[verifier::rlimit(100)]
    pub fn pop_micro_block(&mut self) -> (r: Result<
        (Vec<Output>, Vec<Output>, Vec<Transaction>),
        StorageError,
    >)
        requires
            old(self).wf(),
            old(self).offset > 0,
        ensures
            final(self).wf(),
            match r {
                Ok(res) => {
                    let popped = Lsn(old(self).epoch, (old(self).offset - 1) as u32);
                    let target = old(self).spec_pop_target();
                    &&& old(self).database@.contains_key(popped)
                    &&& old(self).database@[popped] is MicroBlock
                    &&& old(self).database@.contains_key(target)
                    &&& final(self).cfg == old(self).cfg
                    &&& final(self).epoch == old(self).epoch
                    &&& final(self).offset == old(self).offset - 1
                    &&& final(self).difficulty == old(self).difficulty
                    &&& final(self).database@ == old(self).database@.remove(popped)
                    &&& final(self).block_by_hash@ == old(self).block_by_hash.state_at(target)
                    &&& final(self).output_by_hash@ == old(self).output_by_hash.state_at(target)
                    &&& final(self).balance@ == old(self).balance.state_at(target)
                    &&& final(self).escrow.view() == old(self).escrow.state_at(target)
                    &&& final(self).epoch_activity@ == old(self).epoch_activity.state_at(target)
                    &&& final(self).election_result@ == old(self).election_result.state_at(
                        target,
                    ).insert(
                        UnitKey,
                        ElectionResultView {
                            validators: old(self).election_result.state_at(target)[UnitKey].validators,
                            slots: old(self).election_result.state_at(target)[UnitKey].slots,
                            facilitator: old(self).election_result.state_at(target)[UnitKey].facilitator,
                            random: old(self).election_result.state_at(target)[UnitKey].random,
                            view_change: 0,
                        },
                    )
                    &&& final(self).last_block_hash == spec_block_digest(old(self).database@[target])
                    &&& final(self).last_block_timestamp == spec_block_timestamp(
                        old(self).database@[target],
                    )
                    &&& final(self).last_macro_block_hash == old(self).last_macro_block_hash
                    &&& final(self).last_macro_block_timestamp == old(
                        self,
                    ).last_macro_block_timestamp
                    &&& final(self).last_macro_block_random == old(self).last_macro_block_random
                    &&& final(self).view_change_proof is None
                    &&& final(self).awards.budget == old(self).awards.budget
                    &&& final(self).awards.difficulty == old(self).awards.difficulty
                    &&& final(self).awards.activity@ == old(self).awards.activity@
                    &&& res.0@ == spec_txs_outputs(old(self).database@[popped]->MicroBlock_0.transactions)
                    &&& final(self).spec_inputs_ok(
                        spec_txs_inputs(old(self).database@[popped]->MicroBlock_0.transactions),
                    ) ==> res.1@ == final(self).spec_resolved(
                        spec_txs_inputs(old(self).database@[popped]->MicroBlock_0.transactions),
                    )
                    &&& res.2.deep_view() == spec_removed_txs(
                        old(self).database@[popped]->MicroBlock_0.transactions,
                    )
                },
                Err(_) => *final(self) == *old(self),
            },
            (old(self).database@.contains_key(Lsn(old(self).epoch, (old(self).offset - 1) as u32))
                && old(self).database@[Lsn(old(self).epoch, (old(self).offset - 1) as u32)]
                is MicroBlock && old(self).database@.contains_key(old(self).spec_pop_target()))
                ==> r is Ok,
    {
        let ghost pre = *old(self);
        let offset = self.offset - 1;
        let popped_lsn = Lsn(self.epoch, offset);
        let block = match self.database.get(popped_lsn) {
            Some(b) => b.clone(),
            None => {
                return Err(StorageError::MissingBlock(self.epoch, offset));
            },
        };
        let block = match block {
            Block::MicroBlock(b) => b,
            Block::MacroBlock(_) => {
                return Err(StorageError::MissingBlock(self.epoch, offset));
            },
        };
        let target = if offset == 0 {
            Lsn(self.epoch - 1, MACRO_BLOCK_OFFSET)
        } else {
            Lsn(self.epoch, offset - 1)
        };
        let (previous, previous_ts) = match self.database.get(target) {
            Some(b) => {
                let d = b.digest();
                let ts = match b {
                    Block::MacroBlock(m) => m.header.timestamp,
                    Block::MicroBlock(m) => m.header.timestamp,
                };
                (d, ts)
            },
            None => {
                return Err(StorageError::MissingBlock(target.0, target.1));
            },
        };
        self.revert_indexes(popped_lsn, target, previous, previous_ts);
        let restored_hashes = collect_tx_inputs(&block.transactions);
        let restored = self.resolve_loose(&restored_hashes);
        let pruned = collect_tx_outputs(&block.transactions);
        let removed = collect_removed_txs(&block.transactions);
        Ok((pruned, restored, removed))
    }

    /// Resolve every listed digest that is a live output with that digest,
    /// skipping the rest; on a healthy chain nothing is skipped.
    fn resolve_loose(&self, hs: &Vec<Digest>) -> (v: Vec<Output>)
        requires
            self.wf_base(),
        ensures
            self.spec_inputs_ok(hs@) ==> v@ == self.spec_resolved(hs@),
    {
        let mut v: Vec<Output> = Vec::new();
        let mut i: usize = 0;
        let mut all_ok = true;
        while i < hs.len()
            invariant
                self.wf_base(),
                i <= hs@.len(),
                all_ok ==> v@.len() == i,
                all_ok ==> forall|j: int|
                    0 <= j < i ==> match self.spec_lookup(#[trigger] hs@[j]) {
                        Some(o) => spec_output_digest(o) == hs@[j] && v@[j] == o,
                        None => false,
                    },
                !all_ok ==> !self.spec_inputs_ok(hs@),
            decreases hs@.len() - i,
        {
            let h = hs[i];
            match self.output_by_hash(&h) {
                Ok(Some(o)) => {
                    let d = o.digest();
                    if d.value == h.value {
                        proof {
                            assert(spec_output_digest(o) == h);
                        }
                        v.push(o);
                    } else {
                        all_ok = false;
                    }
                },
                _ => {
                    all_ok = false;
                },
            }
            i = i + 1;
        }
        proof {
            if all_ok {
                assert(v@ =~= self.spec_resolved(hs@));
            }
        }
        v
    }

    /// The election result as restored by a rollback.
    fn current_election_after_rollback(&self) -> (e: ElectionResult)
        requires
            self.election_result.wf(),
            self.election_result@.contains_key(UnitKey),
        ensures
            e@ == self.election_result@[UnitKey],
    {
        match self.election_result.get(&UnitKey) {
            Some(e) => e.clone(),
            None => unreached(),
        }
    }
}

/// The locator pairs of the outputs of a macro block, in order.
pub open spec fn spec_macro_pairs(outs: Seq<Output>, epoch: u64) -> Seq<(Digest, OutputKey)> {
    Seq::new(
        outs.len(),
        |j: int|
            (
                spec_output_digest(outs[j]),
                OutputKey::MacroBlock { epoch, output_id: j as u32 },
            ),
    )
}

/// Every epoch-start validator has an account in the escrow.
pub open spec fn spec_accounts_ok(
    vals0: Seq<(NetworkKey, i64)>,
    entries: Seq<(EscrowKey, EscrowValue)>,
) -> bool {
    forall|i: int|
        0 <= i < vals0.len() ==> crate::escrow::spec_account_of(
            entries,
            (#[trigger] vals0[i]).0,
        ) is Some
}

/// The activity reports rebuilt from a macro block's activity bitmap over the
/// first `n` epoch-start validators: a set bit means active, a cleared or
/// missing bit means failed, and a failure already recorded for an account is
/// never overridden.
pub open spec fn spec_activity_build(
    vals0: Seq<(NetworkKey, i64)>,
    bits: Seq<bool>,
    entries: Seq<(EscrowKey, EscrowValue)>,
    epoch: u64,
    offset: u32,
    n: int,
) -> Seq<(AccountKey, ValidatorAwardState)>
    decreases n,
{
    if n <= 0 {
        Seq::empty()
    } else {
        let prev = spec_activity_build(vals0, bits, entries, epoch, offset, n - 1);
        match crate::escrow::spec_account_of(entries, vals0[n - 1].0) {
            Some(a) => {
                let active = n - 1 < bits.len() && bits[n - 1];
                let st = if active {
                    ValidatorAwardState::Active
                } else {
                    ValidatorAwardState::FailedAt(epoch, offset)
                };
                match crate::awards::spec_assoc_get(prev, a) {
                    Some(ValidatorAwardState::FailedAt(_, _)) => prev,
                    _ => crate::awards::spec_assoc_set(prev, a, st),
                }
            },
            None => prev,
        }
    }
}

/// Record one rebuilt activity report, keeping recorded failures.
#[verifier::loop_isolation(false)]
#[verifier::rlimit(30)]
fn activity_step(
    list: &mut Vec<(AccountKey, ValidatorAwardState)>,
    account: AccountKey,
    st: ValidatorAwardState,
)
    requires
        crate::mvm::unique_keys(old(list)@),
    ensures
        crate::mvm::unique_keys(final(list)@),
        final(list)@ == match crate::awards::spec_assoc_get(old(list)@, account) {
            Some(ValidatorAwardState::FailedAt(_, _)) => old(list)@,
            _ => crate::awards::spec_assoc_set(old(list)@, account, st),
        },
{
    let ghost pre = list@;
    proof {
        assert(pre.skip(0) =~= pre);
    }
    let mut i: usize = 0;
    while i < list.len()
        invariant
            list@ == pre,
            i <= pre.len(),
            forall|j: int| 0 <= j < i ==> (#[trigger] pre[j]).0 != account,
            crate::awards::spec_assoc_get(pre, account) == crate::awards::spec_assoc_get(
                pre.skip(i as int),
                account,
            ),
        decreases pre.len() - i,
    {
        let ghost suf = pre.skip(i as int);
        proof {
            assert(suf.first() == pre[i as int]);
            assert(suf.drop_first() =~= pre.skip(i + 1 as int));
        }
        if list[i].0.value == account.value {
            proof {
                assert(pre[i as int].0 == account);
                assert(crate::awards::spec_assoc_get(pre, account) == Some(pre[i as int].1));
            }
            match &list[i].1 {
                ValidatorAwardState::FailedAt(_, _) => {
                    return ;
                },
                ValidatorAwardState::Active => {
                    list.set(i, (account, st));
                    proof {
                        crate::mvm::lemma_unique_update(pre, i as int, account, st);
                        crate::awards::lemma_assoc_set_update(pre, i as int, account, st);
                    }
                    return ;
                },
            }
        }
        i = i + 1;
    }
    proof {
        assert(pre.skip(i as int) =~= Seq::<(AccountKey, ValidatorAwardState)>::empty());
    }
    list.push((account, st));
    proof {
        assert(list@ == pre.push((account, st)));
        assert(crate::mvm::unique_keys(list@));
        crate::awards::lemma_assoc_set_missing(pre, account, st);
    }
}

impl Blockchain {
    /// The validators elected at the start of the current epoch.
    pub open spec fn spec_vals0(self) -> Seq<(NetworkKey, i64)> {
        self.election_result.state_at(
            Lsn((self.epoch - 1) as u64, MACRO_BLOCK_OFFSET),
        )[UnitKey].validators
    }

    /// The election result as it stood at an earlier offset of the current
    /// epoch: at offset zero, the result computed by the previous macro
    /// block; later, the result after the micro block right before `offset`.
    #[verifier::rlimit(30)]
    pub fn election_result_by_offset(&self, offset: u32) -> (r: Result<
        ElectionResult,
        BlockchainError,
    >)
        requires
            self.wf_base(),
            1 <= self.epoch,
            offset <= self.offset,
        ensures
            match r {
                Ok(e) => e@ == self.election_result.state_at(
                    if offset == 0 {
                        Lsn((self.epoch - 1) as u64, MACRO_BLOCK_OFFSET)
                    } else {
                        Lsn(self.epoch, (offset - 1) as u32)
                    },
                )[UnitKey],
                Err(_) => false,
            },
    {
        let target = if offset == 0 {
            Lsn(self.epoch - 1, MACRO_BLOCK_OFFSET)
        } else {
            Lsn(self.epoch, offset - 1)
        };
        let mut past = self.election_result.clone_map();
        past.rollback_to_lsn(target);
        proof {
            assert(past@ == self.election_result.state_at(target));
        }
        match past.get(&UnitKey) {
            Some(e) => Ok(e.clone()),
            None => unreached(),
        }
    }

    /// The validators as elected at the start of the current epoch.
    #[verifier::rlimit(30)]
    pub fn validators_at_epoch_start(&self) -> (r: Vec<(NetworkKey, i64)>)
        requires
            self.wf_base(),
            1 <= self.epoch,
        ensures
            r@ == self.spec_vals0(),
    {
        match self.election_result_by_offset(0) {
            Ok(e) => e.validators,
            Err(_) => unreached(),
        }
    }

    /// Rebuild the epoch's activity reports from a macro block's activity
    /// bitmap: one report per epoch-start validator, failures never
    /// overridden by activity of another validator of the same account.
    #[verifier::loop_isolation(false)]
    #[verifier::rlimit(30)]
    pub fn epoch_activity_from_macro_block(&self, activity_map: &ActivityMap) -> (r: Result<
        Vec<(AccountKey, ValidatorAwardState)>,
        BlockchainError,
    >)
        requires
            self.wf_base(),
            1 <= self.epoch,
        ensures
            match r {
                Ok(v) => {
                    &&& activity_map@.len() <= self.spec_vals0().len()
                    &&& spec_accounts_ok(self.spec_vals0(), self.escrow.entries())
                    &&& v@ == spec_activity_build(
                        self.spec_vals0(),
                        activity_map@,
                        self.escrow.entries(),
                        self.epoch,
                        self.offset,
                        self.spec_vals0().len() as int,
                    )
                },
                Err(e) => {
                    &&& (activity_map@.len() > self.spec_vals0().len() || !spec_accounts_ok(
                        self.spec_vals0(),
                        self.escrow.entries(),
                    ))
                    &&& (activity_map@.len() > self.spec_vals0().len() ==> e matches
                    BlockchainError::BlockError(BlockError::TooBigActivitymap(_, _)))
                    &&& (activity_map@.len() <= self.spec_vals0().len() ==> e matches
                    BlockchainError::BlockError(BlockError::MissingValidatorAccount(_)))
                },
            },
    {
        let vals0 = self.validators_at_epoch_start();
        if activity_map.len() > vals0.len() {
            return Err(
                BlockchainError::BlockError(
                    BlockError::TooBigActivitymap(activity_map.len(), vals0.len()),
                ),
            );
        }
        let mut list: Vec<(AccountKey, ValidatorAwardState)> = Vec::new();
        let mut i: usize = 0;
        while i < vals0.len()
            invariant
                i <= vals0@.len(),
                crate::mvm::unique_keys(list@),
                forall|j: int|
                    0 <= j < i ==> crate::escrow::spec_account_of(
                        self.escrow.entries(),
                        (#[trigger] vals0@[j]).0,
                    ) is Some,
                list@ == spec_activity_build(
                    self.spec_vals0(),
                    activity_map@,
                    self.escrow.entries(),
                    self.epoch,
                    self.offset,
                    i as int,
                ),
            decreases vals0@.len() - i,
        {
            let v = vals0[i].0;
            let account = match self.escrow.account_by_network_key(&v) {
                Some(a) => a,
                None => {
                    return Err(
                        BlockchainError::BlockError(BlockError::MissingValidatorAccount(v.value)),
                    );
                },
            };
            let active = activity_map.contains(i);
            let st = if active {
                ValidatorAwardState::Active
            } else {
                ValidatorAwardState::FailedAt(self.epoch, self.offset)
            };
            activity_step(&mut list, account, st);
            i = i + 1;
        }
        Ok(list)
    }
}

impl Blockchain {
    /// The award reports, pool and winner a macro block implies; meaningful
    /// for epochs after the genesis epoch.
    pub open spec fn spec_macro_acts(self, b: crate::block::MacroBlockView) -> Seq<
        (AccountKey, ValidatorAwardState),
    > {
        spec_activity_build(
            self.spec_vals0(),
            b.header.activity_map,
            self.escrow.entries(),
            self.epoch,
            self.offset,
            self.spec_vals0().len() as int,
        )
    }

    /// The award winner a macro block implies.
    pub open spec fn spec_macro_winner(self, b: crate::block::MacroBlockView) -> Option<
        (AccountKey, i64),
    > {
        spec_winner(
            spec_finalize_activity(self.awards.activity@, self.spec_macro_acts(b)),
            crate::escrow::spec_clamp_i64(
                self.awards.budget + self.cfg.service_award_per_epoch,
            ),
            self.cfg.awards_difficulty,
            b.header.random.rand,
        )
    }

    /// The amount the award winner of a macro block receives, if any.
    pub open spec fn spec_macro_award_amount(self, b: crate::block::MacroBlockView) -> int {
        match self.spec_macro_winner(b) {
            Some(w) => w.1 as int,
            None => 0,
        }
    }

    /// Whether a macro block may be applied to the current state: it seals
    /// the current epoch at offset zero, continues the macro chain, spends
    /// only distinct live outputs, creates only fresh distinct outputs,
    /// balances exactly, and carries the activity map and full reward the
    /// epoch implies.
    pub open spec fn spec_macro_valid(self, b: crate::block::MacroBlockView) -> bool {
        &&& b.header.version == VERSION
        &&& b.header.epoch == self.epoch
        &&& self.offset == 0
        &&& self.epoch + 1 < 0x4000000000000000
        &&& b.header.previous == self.last_macro_block_hash
        &&& b.header.timestamp.millis > self.last_macro_block_timestamp.millis
        &&& b.header.timestamp.millis > self.last_block_timestamp.millis
        &&& b.outputs.len() < 0x100000000
        &&& spec_distinct_digests(b.inputs)
        &&& self.spec_inputs_ok(b.inputs)
        &&& spec_distinct_digests(spec_output_digests(b.outputs))
        &&& (forall|i: int|
            0 <= i < b.outputs.len() ==> !self.output_by_hash@.contains_key(
                spec_output_digest(#[trigger] b.outputs[i]),
            ))
        &&& !self.block_by_hash@.contains_key(spec_macro_digest(b))
        &&& i64::MIN <= self.balance@[UnitKey].block_reward + b.header.block_reward <= i64::MAX
        &&& pt_add(
            fee_a(b.header.block_reward),
            pt_sub(
                spec_sum_pedersen(self.spec_resolved(b.inputs)),
                spec_sum_pedersen(b.outputs),
            ),
        ) == fr_times_g(b.header.gamma)
        &&& self.epoch > 0 ==> {
            &&& b.header.activity_map.len() <= self.spec_vals0().len()
            &&& spec_accounts_ok(self.spec_vals0(), self.escrow.entries())
            &&& b.header.block_reward as int == self.cfg.block_reward as int * (
            self.cfg.micro_blocks_in_epoch as int + 1) + self.spec_macro_award_amount(b)
        }
    }

    /// Check that a macro block may be applied to the current state.
    #[verifier::loop_isolation(false)]
    #[verifier::rlimit(100)]
    pub fn check_macro_block(&self, block: &MacroBlock) -> (r: Result<(), BlockchainError>)
        requires
            self.wf_base(),
        ensures
            r is Ok <==> self.spec_macro_valid(block@),
    {
        if block.header.version != VERSION {
            return Err(
                BlockchainError::BlockError(BlockError::InvalidBlockVersion(self.epoch, block.header.version)),
            );
        }
        if block.header.epoch != self.epoch || self.offset != 0 {
            return Err(
                BlockchainError::BlockError(
                    BlockError::OutOfOrderBlock(self.epoch, self.offset, block.header.epoch, 0),
                ),
            );
        }
        if !(self.epoch + 1 < 0x4000000000000000u64) {
            return Err(BlockchainError::BlockError(BlockError::EpochOverflow(self.epoch)));
        }
        if block.header.previous.value != self.last_macro_block_hash.value {
            return Err(
                BlockchainError::BlockError(
                    BlockError::InvalidPreviousHash(
                        self.epoch,
                        block.header.previous,
                        self.last_macro_block_hash,
                    ),
                ),
            );
        }
        if !(block.header.timestamp.millis > self.last_macro_block_timestamp.millis)
            || !(block.header.timestamp.millis > self.last_block_timestamp.millis) {
            return Err(
                BlockchainError::BlockError(
                    BlockError::OutOfOrderTimestamp(
                        self.epoch,
                        block.header.timestamp.millis,
                        self.last_block_timestamp.millis,
                    ),
                ),
            );
        }
        if block.outputs.len() as u64 >= 0x100000000u64 {
            return Err(
                BlockchainError::BlockError(
                    BlockError::UnexpectedTransactionType(self.epoch, self.offset),
                ),
            );
        }
        match find_duplicate(&block.inputs) {
            Some(h) => {
                return Err(BlockchainError::TransactionError(TransactionError::DuplicateInput(h)));
            },
            None => {},
        }
        match self.resolve_inputs(&block.inputs) {
            Ok(_) => {},
            Err(e) => {
                return Err(e);
            },
        }
        let out_digests = collect_output_digests(&block.outputs);
        match find_duplicate(&out_digests) {
            Some(h) => {
                return Err(BlockchainError::BlockError(BlockError::OutputHashCollision(self.epoch, h)));
            },
            None => {},
        }
        let mut k: usize = 0;
        while k < out_digests.len()
            invariant
                out_digests@ == spec_output_digests(block.outputs@),
                k <= out_digests@.len(),
                forall|j: int|
                    0 <= j < k ==> !self.output_by_hash@.contains_key(#[trigger] out_digests@[j]),
            decreases out_digests@.len() - k,
        {
            let present = match self.output_by_hash.get(&out_digests[k]) {
                Some(_) => true,
                None => false,
            };
            if present {
                return Err(
                    BlockchainError::BlockError(
                        BlockError::OutputHashCollision(self.epoch, out_digests[k]),
                    ),
                );
            }
            k = k + 1;
        }
        let bh = block.digest();
        let block_known = match self.block_by_hash.get(&bh) {
            Some(_) => true,
            None => false,
        };
        if block_known {
            return Err(BlockchainError::BlockError(BlockError::BlockHashCollision(self.epoch, bh)));
        }
        let bal = self.balance();
        let nr_wide = bal.block_reward as i128 + block.header.block_reward as i128;
        if nr_wide < i64::MIN as i128 || nr_wide > i64::MAX as i128 {
            return Err(BlockchainError::BlockError(BlockError::InvalidBlockBalance(self.epoch, bh)));
        }
        let ins = match self.resolve_inputs(&block.inputs) {
            Ok(v) => v,
            Err(_) => {
                proof {
                    assert(false);
                }
                unreached()
            },
        };
        let burned = sum_pedersen(&ins);
        let created = sum_pedersen(&block.outputs);
        let lhs = crate::crypto::fee_a_exec(block.header.block_reward).add(burned.sub(created));
        let rhs = block.header.gamma.times_g();
        if lhs.value != rhs.value {
            return Err(BlockchainError::BlockError(BlockError::InvalidBlockBalance(self.epoch, bh)));
        }
        if self.epoch > 0 {
            match self.check_macro_award(block) {
                Ok(_) => {},
                Err(e) => {
                    return Err(e);
                },
            }
        }
        proof {
            assert forall|j: int|
                0 <= j < block.outputs@.len() implies !self.output_by_hash@.contains_key(
                spec_output_digest(#[trigger] block.outputs@[j]),
            ) by {
                assert(spec_output_digests(block.outputs@)[j] == spec_output_digest(
                    block.outputs@[j],
                ));
                assert(!self.output_by_hash@.contains_key(out_digests@[j]));
            }
            assert(self.spec_macro_valid(block@));
        }
        Ok(())
    }

    /// Check the award-related conditions a macro block must satisfy after
    /// the genesis epoch: a fitting activity map, known accounts, and the
    /// exact full reward.
    #[verifier::loop_isolation(false)]
    #[verifier::rlimit(100)]
    fn check_macro_award(&self, block: &MacroBlock) -> (r: Result<(), BlockchainError>)
        requires
            self.wf_base(),
            self.epoch > 0,
        ensures
            r is Ok <==> {
                &&& block@.header.activity_map.len() <= self.spec_vals0().len()
                &&& spec_accounts_ok(self.spec_vals0(), self.escrow.entries())
                &&& block@.header.block_reward as int == self.cfg.block_reward as int * (
                self.cfg.micro_blocks_in_epoch as int + 1) + self.spec_macro_award_amount(block@)
            },
    {
        let acts = match self.epoch_activity_from_macro_block(&block.header.activity_map) {
            Ok(v) => v,
            Err(e) => {
                return Err(e);
            },
        };
        let mut awards = self.awards.clone();
        proof {
            assert(awards.activity@ == self.awards.activity@);
        }
        awards.finalize_epoch(self.cfg.service_award_per_epoch, &acts);
        let winner = awards.check_winners(block.header.random.rand);
        let wamount: i128 = match winner {
            Some((_, a)) => a as i128,
            None => 0,
        };
        let br: i128 = self.cfg.block_reward as i128;
        let m: i128 = self.cfg.micro_blocks_in_epoch as i128 + 1;
        proof {
            assert(br * m <= 0x7fffffffffffffffi128 * 0x100000000i128 && br * m >= 0)
                by (nonlinear_arith)
                requires
                    0 <= br <= 0x7fffffffffffffffi128,
                    1 <= m <= 0x100000000i128,
            ;
            assert(winner == self.spec_macro_winner(block@));
        }
        let expected: i128 = br * m + wamount;
        if block.header.block_reward as i128 != expected {
            return Err(
                BlockchainError::BlockError(
                    BlockError::InvalidBlockReward(self.epoch, block.header.block_reward, 0),
                ),
            );
        }
        Ok(())
    }

    /// The exact effect of applying macro block `b` to state `pre`: the
    /// epoch closes, every index is updated and made permanent, and the next
    /// election is computed.
    pub open spec fn spec_macro_applied(pre: Blockchain, post: Blockchain, b: crate::block::MacroBlockView) -> bool {
        &&& (post.cfg == pre.cfg)
        &&& (post.epoch == pre.epoch + 1)
        &&& (post.offset == 0)
        &&& (post.difficulty == b.header.difficulty)
        &&& (post.database@ == pre.database@.insert(
                Lsn(pre.epoch, MACRO_BLOCK_OFFSET),
                BlockView::MacroBlock(b),
            ))
        &&& (post.block_by_hash@ == pre.block_by_hash@.insert(
                spec_macro_digest(b),
                Lsn(pre.epoch, MACRO_BLOCK_OFFSET),
            ))
        &&& (post.output_by_hash@ == spec_insert_pairs(
                spec_remove_keys(pre.output_by_hash@, b.inputs),
                spec_macro_pairs(b.outputs, pre.epoch),
            ))
        &&& (post.balance@.contains_key(UnitKey))
        &&& (post.balance@[UnitKey] == (Balance {
                created: pt_add(
                    pre.balance@[UnitKey].created,
                    spec_sum_pedersen(b.outputs),
                ),
                burned: pt_add(
                    pre.balance@[UnitKey].burned,
                    spec_sum_pedersen(pre.spec_resolved(b.inputs)),
                ),
                gamma: fr_add(pre.balance@[UnitKey].gamma, b.header.gamma),
                block_reward: (pre.balance@[UnitKey].block_reward
                    + b.header.block_reward) as i64,
            }))
        &&& (spec_balance_ok(post.balance@[UnitKey]))
        &&& (post.escrow.view() == spec_stake_outputs(
                spec_unstake_inputs(
                    pre.escrow.view(),
                    b.inputs,
                    pre.spec_resolved(b.inputs),
                ),
                b.outputs,
                pre.epoch,
                pre.cfg.stake_epochs,
            ))
        &&& (post.last_block_hash == spec_macro_digest(b))
        &&& (post.last_macro_block_hash == spec_macro_digest(b))
        &&& (post.last_block_timestamp == b.header.timestamp)
        &&& (post.last_macro_block_timestamp == b.header.timestamp)
        &&& (post.last_macro_block_random == b.header.random.rand)
        &&& (post.election_result@.contains_key(UnitKey))
        &&& (crate::escrow::spec_stakers_ok(
                post.escrow.entries(),
                (pre.epoch + 1) as u64,
                pre.cfg.min_stake_amount,
                post.election_result@[UnitKey].validators,
            ))
        &&& (post.election_result@[UnitKey].random == b.header.random)
        &&& (post.election_result@[UnitKey].view_change == 0)
        &&& (post.election_result@[UnitKey].slots.len() == pre.cfg.max_slot_count)
        &&& (crate::election::spec_total_stake(post.election_result@[UnitKey].validators)
                > 0 ==> forall|i: int|
                0 <= i < pre.cfg.max_slot_count ==> (
                #[trigger] post.election_result@[UnitKey].slots[i]) == crate::election::spec_slot(
                    post.election_result@[UnitKey].validators,
                    b.header.random,
                    i,
                ))
        &&& (forall|t: Lsn| #[trigger] post.block_by_hash.state_at(t) == post.block_by_hash@)
        &&& (forall|t: Lsn| #[trigger] post.output_by_hash.state_at(t) == post.output_by_hash@)
        &&& (forall|t: Lsn| #[trigger] post.balance.state_at(t) == post.balance@)
        &&& (forall|t: Lsn| #[trigger] post.escrow.state_at(t) == post.escrow.view())
        &&& (post.block_by_hash.lsn() == Lsn(pre.epoch, MACRO_BLOCK_OFFSET))
        &&& (post.output_by_hash.lsn() == Lsn(pre.epoch, MACRO_BLOCK_OFFSET))
        &&& (post.balance.lsn() == Lsn(pre.epoch, MACRO_BLOCK_OFFSET))
        &&& (post.escrow.lsn() == Lsn(pre.epoch, MACRO_BLOCK_OFFSET))
        &&& (post.election_result.lsn() == Lsn(pre.epoch, MACRO_BLOCK_OFFSET))
        &&& (post.epoch_activity.lsn() == Lsn(pre.epoch, MACRO_BLOCK_OFFSET))
        &&& (forall|t: Lsn|
                lsn_lt(t, Lsn(pre.epoch, MACRO_BLOCK_OFFSET))
                    ==> post.election_result.state_at(t) == pre.election_result.state_at(t))
        &&& (pre.epoch > 0 ==> post.awards.activity@ == (
            match pre.spec_macro_winner(b) {
                Some(_) => Seq::<(AccountKey, ValidatorAwardState)>::empty(),
                None => spec_finalize_activity(
                    pre.awards.activity@,
                    pre.spec_macro_acts(b),
                ),
            }))
        &&& (pre.epoch == 0 ==> post.awards.activity@ == pre.awards.activity@
                && post.awards.budget == pre.awards.budget)
        &&& (post.epoch_activity@ == pre.epoch_activity@)
        &&& (post.epoch_activity.entries() == pre.epoch_activity.entries())
        &&& (forall|t: Lsn|
                #[trigger] post.epoch_activity.state_at(t) == pre.epoch_activity.state_at(t))
        &&& (post.view_change_proof == pre.view_change_proof)
    }

    /// Apply a valid macro block: write it to the log, update every index,
    /// close the epoch, elect the next validators and make the state
    /// permanent.
    #[verifier::loop_isolation(false)]
    #[verifier::rlimit(100)]
    fn register_macro_block(&mut self, block: &MacroBlock)
        requires
            old(self).wf_base(),
            old(self).spec_macro_valid(block@),
        ensures
            final(self).wf(),
            Blockchain::spec_macro_applied(*old(self), *final(self), block@),

    {
        let ghost pre = *old(self);
        let ghost lsng = Lsn(pre.epoch, MACRO_BLOCK_OFFSET);
        let lsn = Lsn(self.epoch, MACRO_BLOCK_OFFSET);
        let bh = block.digest();
        let ins = match self.resolve_inputs(&block.inputs) {
            Ok(v) => v,
            Err(_) => {
                proof {
                    assert(false);
                }
                unreached()
            },
        };
        let mut pairs: Vec<(Digest, OutputKey)> = Vec::new();
        let mut j: usize = 0;
        while j < block.outputs.len()
            invariant
                j <= block.outputs@.len(),
                pairs@.len() == j,
                forall|k2: int|
                    0 <= k2 < j ==> (#[trigger] pairs@[k2]) == (
                        spec_output_digest(block.outputs@[k2]),
                        OutputKey::MacroBlock { epoch: pre.epoch, output_id: k2 as u32 },
                    ),
            decreases block.outputs@.len() - j,
        {
            let d = block.outputs[j].digest();
            pairs.push((d, OutputKey::MacroBlock { epoch: self.epoch, output_id: j as u32 }));
            j = j + 1;
        }
        proof {
            assert(pairs@ =~= spec_macro_pairs(block.outputs@, pre.epoch));
        }
        let bal = self.balance();
        let nr = (bal.block_reward as i128 + block.header.block_reward as i128) as i64;
        let burned = sum_pedersen(&ins);
        let created = sum_pedersen(&block.outputs);
        // Award bookkeeping for sealed epochs.
        if self.epoch > 0 {
            let acts = match self.epoch_activity_from_macro_block(&block.header.activity_map) {
                Ok(v) => v,
                Err(_) => {
                    proof {
                        assert(false);
                    }
                    unreached()
                },
            };
            self.awards.finalize_epoch(self.cfg.service_award_per_epoch, &acts);
            let _ = self.awards.check_winners(block.header.random.rand);
        }
        let ghost aw1 = self.awards;
        // From here on the state is updated; nothing below can fail.
        let stored = Block::MacroBlock(block.clone());
        let ghost storedg = stored;
        self.database.insert(lsn, stored);
        let ghost db1 = self.database;
        proof {
            assert(storedg@ == BlockView::MacroBlock(block@));
        }
        let _ = self.block_by_hash.insert(lsn, bh, lsn);
        let ghost bbh1 = self.block_by_hash;
        let mut ii: usize = 0;
        while ii < block.inputs.len()
            invariant
                ii <= block.inputs@.len(),
                self.database == db1,
                self.block_by_hash == bbh1,
                self.balance == pre.balance,
                self.election_result == pre.election_result,
                self.epoch_activity == pre.epoch_activity,
                self.awards == aw1,
                self.cfg == pre.cfg,
                self.epoch == pre.epoch,
                self.offset == pre.offset,
                self.difficulty == pre.difficulty,
                self.view_change_proof == pre.view_change_proof,
                self.last_block_hash == pre.last_block_hash,
                self.last_block_timestamp == pre.last_block_timestamp,
                self.last_macro_block_hash == pre.last_macro_block_hash,
                self.last_macro_block_timestamp == pre.last_macro_block_timestamp,
                self.last_macro_block_random == pre.last_macro_block_random,
                self.output_by_hash.wf(),
                lsn_le(self.output_by_hash.lsn(), lsng),
                self.output_by_hash@ == spec_remove_keys(
                    pre.output_by_hash@,
                    block.inputs@.take(ii as int),
                ),
                self.escrow.wf(),
                lsn_le(self.escrow.lsn(), lsng),
                self.escrow.view() == spec_unstake_inputs(
                    pre.escrow.view(),
                    block.inputs@.take(ii as int),
                    ins@.take(ii as int),
                ),
            decreases block.inputs@.len() - ii,
        {
            proof {
                assert(block.inputs@.take(ii + 1 as int).drop_last() =~= block.inputs@.take(
                    ii as int,
                ));
                assert(ins@.take(ii + 1 as int).drop_last() =~= ins@.take(ii as int));
                assert(block.inputs@.take(ii + 1 as int).last() == block.inputs@[ii as int]);
                assert(ins@.take(ii + 1 as int).last() == ins@[ii as int]);
            }
            let h = block.inputs[ii];
            let _ = self.output_by_hash.remove(lsn, &h);
            match &ins[ii] {
                Output::StakeOutput(st) => {
                    self.escrow.unstake(lsn, st.validator, h, self.epoch);
                },
                _ => {},
            }
            ii = ii + 1;
        }
        proof {
            assert(block.inputs@.take(block.inputs@.len() as int) =~= block.inputs@);
            assert(ins@.take(ins@.len() as int) =~= ins@);
        }
        let ghost m1 = self.output_by_hash@;
        let ghost e1 = self.escrow.view();
        let mut jj: usize = 0;
        while jj < pairs.len()
            invariant
                jj <= pairs@.len(),
                pairs@.len() == block.outputs@.len(),
                pairs@ == spec_macro_pairs(block.outputs@, pre.epoch),
                self.database == db1,
                self.block_by_hash == bbh1,
                self.balance == pre.balance,
                self.election_result == pre.election_result,
                self.epoch_activity == pre.epoch_activity,
                self.awards == aw1,
                self.cfg == pre.cfg,
                self.epoch == pre.epoch,
                self.offset == pre.offset,
                self.difficulty == pre.difficulty,
                self.view_change_proof == pre.view_change_proof,
                self.last_block_hash == pre.last_block_hash,
                self.last_block_timestamp == pre.last_block_timestamp,
                self.last_macro_block_hash == pre.last_macro_block_hash,
                self.last_macro_block_timestamp == pre.last_macro_block_timestamp,
                self.last_macro_block_random == pre.last_macro_block_random,
                self.output_by_hash.wf(),
                lsn_le(self.output_by_hash.lsn(), lsng),
                self.output_by_hash@ == spec_insert_pairs(m1, pairs@.take(jj as int)),
                self.escrow.wf(),
                lsn_le(self.escrow.lsn(), lsng),
                self.escrow.view() == spec_stake_outputs(
                    e1,
                    block.outputs@.take(jj as int),
                    pre.epoch,
                    pre.cfg.stake_epochs,
                ),
            decreases pairs@.len() - jj,
        {
            proof {
                assert(pairs@.take(jj + 1 as int).drop_last() =~= pairs@.take(jj as int));
                assert(block.outputs@.take(jj + 1 as int).drop_last() =~= block.outputs@.take(
                    jj as int,
                ));
                assert(pairs@.take(jj + 1 as int).last() == pairs@[jj as int]);
                assert(block.outputs@.take(jj + 1 as int).last() == block.outputs@[jj as int]);
            }
            let p = pairs[jj];
            let _ = self.output_by_hash.insert(lsn, p.0, p.1);
            match &block.outputs[jj] {
                Output::StakeOutput(st) => {
                    proof {
                        assert(pre.epoch + pre.cfg.stake_epochs <= u64::MAX);
                    }
                    self.escrow.stake(
                        lsn,
                        st.validator,
                        st.recipient,
                        p.0,
                        self.epoch,
                        self.cfg.stake_epochs,
                        st.amount,
                    );
                },
                _ => {},
            }
            jj = jj + 1;
        }
        proof {
            assert(pairs@.take(pairs@.len() as int) =~= pairs@);
            assert(block.outputs@.take(block.outputs@.len() as int) =~= block.outputs@);
        }
        let new_bal = Balance {
            created: bal.created.add(created),
            burned: bal.burned.add(burned),
            gamma: bal.gamma.add(block.header.gamma),
            block_reward: nr,
        };
        let _ = self.balance.insert(lsn, UnitKey, new_bal);
        proof {
            lemma_balance_compose(
                bal.block_reward,
                bal.burned.value,
                bal.created.value,
                bal.gamma.value,
                block.header.block_reward,
                burned.value,
                created.value,
                block.header.gamma.value,
                nr,
            );
            assert(spec_balance_ok(new_bal));
        }
        // Close the epoch.
        self.epoch = self.epoch + 1;
        self.offset = 0;
        self.last_block_hash = bh;
        self.last_block_timestamp = block.header.timestamp;
        self.last_macro_block_hash = bh;
        self.last_macro_block_timestamp = block.header.timestamp;
        self.last_macro_block_random = block.header.random.rand;
        self.difficulty = block.header.difficulty;
        let stakers = self.escrow.get_stakers_majority(self.epoch, self.cfg.min_stake_amount);
        proof {
            assert(crate::election::spec_stakes_nonneg(stakers@)) by {
                assert(forall|i: int|
                    0 <= i < stakers@.len() ==> (#[trigger] stakers@[i]).1
                        >= pre.cfg.min_stake_amount);
            }
        }
        let elect = crate::election::select_validators_slots(
            stakers,
            block.header.random,
            self.cfg.max_slot_count,
        );
        let _ = self.election_result.insert(lsn, UnitKey, elect);
        // Every index shares the apply LSN, touched or not.
        self.output_by_hash.advance_lsn(lsn);
        self.escrow.advance_lsn(lsn);
        self.epoch_activity.advance_lsn(lsn);
        // Make the sealed epoch permanent.
        self.block_by_hash.checkpoint();
        self.output_by_hash.checkpoint();
        self.balance.checkpoint();
        self.escrow.checkpoint();
        proof {
            assert forall|t: Lsn|
                (#[trigger] self.balance.state_at(t)).contains_key(UnitKey) && spec_balance_ok(
                    self.balance.state_at(t)[UnitKey],
                ) by {
                assert(self.balance.state_at(t) == self.balance@);
            }
            assert forall|t: Lsn|
                (#[trigger] self.election_result.state_at(t)).contains_key(UnitKey)
                    && self.election_result.state_at(t)[UnitKey].slots.len()
                    == self.cfg.max_slot_count by {
                if lsn_lt(t, lsng) {
                    assert(self.election_result.state_at(t) == pre.election_result.state_at(t));
                } else {
                    crate::mvm::lemma_replay_noop(
                        self.election_result@,
                        self.election_result.undo@,
                        t,
                    );
                    assert(self.election_result.state_at(t) == self.election_result@);
                    assert(self.election_result@[UnitKey] == elect@);
                }
            }
            assert(self.wf());
        }
    }

    /// Add a new macro block into the blockchain, sealing the current epoch.
    /// On success, returns the spent outputs and the created outputs.
    pub fn push_macro_block(&mut self, block: MacroBlock, _timestamp: Timestamp) -> (r: Result<
        (Vec<Output>, Vec<Output>),
        BlockchainError,
    >)
        requires
            old(self).wf(),
        ensures
            final(self).wf(),
            match r {
                Ok(res) => {
                    &&& old(self).spec_macro_valid(block@)
                    &&& Blockchain::spec_macro_applied(*old(self), *final(self), block@)
                    &&& res.0@ == old(self).spec_resolved(block@.inputs)
                    &&& res.1@ == block@.outputs
                    &&& spec_balance_ok(final(self).balance@[UnitKey])
                },
                Err(_) => *final(self) == *old(self) && !old(self).spec_macro_valid(block@),
            },
    {
        match self.check_macro_block(&block) {
            Ok(_) => {},
            Err(e) => {
                return Err(e);
            },
        }
        let ins = match self.resolve_inputs(&block.inputs) {
            Ok(v) => v,
            Err(_) => {
                proof {
                    assert(false);
                }
                unreached()
            },
        };
        let outs = copy_vec(&block.outputs);
        self.register_macro_block(&block);
        Ok((ins, outs))
    }
}

/// Whether an output is live and opens for the given key pair.
pub open spec fn spec_mine_live(
    c: Blockchain,
    o: Output,
    skey: AccountSecret,
    pkey: AccountKey,
) -> bool {
    &&& c.output_by_hash@.contains_key(spec_output_digest(o))
    &&& spec_output_recipient(o) == pkey
    &&& skey.value == pkey.value
}

/// The recoverable outputs among `outs`, in order.
pub open spec fn spec_scan_outputs(
    c: Blockchain,
    outs: Seq<Output>,
    epoch: u64,
    is_final: bool,
    ts: Timestamp,
    skey: AccountSecret,
    pkey: AccountKey,
) -> Seq<OutputRecovery>
    decreases outs.len(),
{
    if outs.len() == 0 {
        Seq::empty()
    } else {
        let prev = spec_scan_outputs(c, outs.drop_last(), epoch, is_final, ts, skey, pkey);
        if spec_mine_live(c, outs.last(), skey, pkey) {
            prev.push(OutputRecovery { output: outs.last(), epoch, is_final, timestamp: ts })
        } else {
            prev
        }
    }
}

/// The recoverable outputs of a micro block's transactions, in order.
pub open spec fn spec_scan_txs(
    c: Blockchain,
    txs: Seq<TransactionView>,
    epoch: u64,
    ts: Timestamp,
    skey: AccountSecret,
    pkey: AccountKey,
) -> Seq<OutputRecovery>
    decreases txs.len(),
{
    if txs.len() == 0 {
        Seq::empty()
    } else {
        spec_scan_txs(c, txs.drop_last(), epoch, ts, skey, pkey) + spec_scan_outputs(
            c,
            spec_txouts(txs.last()),
            epoch,
            false,
            ts,
            skey,
            pkey,
        )
    }
}

/// One account's scan of the whole log, oldest block first: the recoverable
/// records and the number of macro blocks passed.
pub open spec fn spec_scan(
    c: Blockchain,
    blocks: Seq<BlockView>,
    skey: AccountSecret,
    pkey: AccountKey,
) -> (Seq<OutputRecovery>, int)
    decreases blocks.len(),
{
    if blocks.len() == 0 {
        (Seq::empty(), 0)
    } else {
        let prev = spec_scan(c, blocks.drop_last(), skey, pkey);
        match blocks.last() {
            BlockView::MacroBlock(m) => (
                prev.0 + spec_scan_outputs(
                    c,
                    m.outputs,
                    prev.1 as u64,
                    true,
                    m.header.timestamp,
                    skey,
                    pkey,
                ),
                prev.1 + 1,
            ),
            BlockView::MicroBlock(m) => (
                prev.0 + spec_scan_txs(c, m.transactions, prev.1 as u64, m.header.timestamp, skey, pkey),
                prev.1,
            ),
        }
    }
}

/// One replay step: the block is acceptable to `pre` and `post` is exactly
/// its application.
pub open spec fn spec_step(pre: Blockchain, post: Blockchain, b: BlockView) -> bool {
    match b {
        BlockView::MicroBlock(m) => {
            &&& pre.epoch >= 1
            &&& pre.spec_micro_valid(m)
            &&& Blockchain::spec_micro_applied(pre, post, m)
            &&& post.wf()
        },
        BlockView::MacroBlock(m) => {
            &&& pre.spec_macro_valid(m)
            &&& Blockchain::spec_macro_applied(pre, post, m)
            &&& post.wf()
        },
    }
}

/// `s1` is the state obtained from `s0` by applying every block in order.
pub open spec fn spec_replayed(blocks: Seq<BlockView>, s0: Blockchain, s1: Blockchain) -> bool
    decreases blocks.len(),
{
    if blocks.len() == 0 {
        s1 == s0
    } else {
        exists|mid: Blockchain|
            spec_replayed(blocks.drop_last(), s0, mid) && #[trigger] spec_step(
                mid,
                s1,
                blocks.last(),
            )
    }
}

/// The blocks of a log, in order, as views.
pub open spec fn spec_log_views(log: Seq<(Lsn, Block)>) -> Seq<BlockView> {
    log.map_values(|p: (Lsn, Block)| p.1@)
}

/// The state a ledger starts from before any block is applied: empty
/// indexes, the zero balance, a placeholder election, and the given log.
pub open spec fn spec_fresh(
    c: Blockchain,
    cfg: ChainConfig,
    database: ListDb,
    g: crate::block::MacroBlockView,
) -> bool {
    &&& c.cfg == cfg
    &&& c.database == database
    &&& c.epoch == 0
    &&& c.offset == 0
    &&& c.block_by_hash@ == Map::<Digest, Lsn>::empty()
    &&& c.output_by_hash@ == Map::<Digest, OutputKey>::empty()
    &&& c.balance@ == Map::<UnitKey, Balance>::empty().insert(
        UnitKey,
        Balance {
            created: Pt { value: 0 },
            burned: Pt { value: 0 },
            gamma: Fr { value: 0 },
            block_reward: 0,
        },
    )
    &&& c.escrow.view() == Map::<EscrowKey, EscrowValue>::empty()
    &&& c.election_result@.contains_key(UnitKey)
    &&& c.election_result@[UnitKey].validators.len() == 0
    &&& c.election_result@[UnitKey].slots.len() == cfg.max_slot_count
    &&& (forall|i: int|
        0 <= i < cfg.max_slot_count ==> (#[trigger] c.election_result@[UnitKey].slots[i]) == (
        NetworkKey { value: 0 }))
    &&& c.election_result@[UnitKey].random == (Vrf { rand: spec_genesis_seed() })
    &&& c.election_result@[UnitKey].view_change == 0
    &&& c.epoch_activity@ == Map::<NetworkKey, ValidatorAwardState>::empty()
    &&& c.awards.budget == 0
    &&& c.awards.difficulty == cfg.awards_difficulty
    &&& c.awards.activity@.len() == 0
    &&& c.difficulty == g.header.difficulty
    &&& c.view_change_proof is None
    &&& c.last_block_hash == spec_genesis_seed()
    &&& c.last_macro_block_hash == spec_genesis_seed()
    &&& c.last_macro_block_random == spec_genesis_seed()
    &&& c.last_block_timestamp == (Timestamp { millis: 0 })
    &&& c.last_macro_block_timestamp == (Timestamp { millis: 0 })
}

/// Whether a genesis block is acceptable to a fresh ledger under `cfg`.
pub open spec fn spec_genesis_valid(cfg: ChainConfig, b: crate::block::MacroBlockView) -> bool {
    &&& b.header.version == VERSION
    &&& b.header.epoch == 0
    &&& b.header.previous == spec_genesis_seed()
    &&& b.header.timestamp.millis > 0
    &&& b.outputs.len() < 0x100000000
    &&& b.inputs.len() == 0
    &&& spec_distinct_digests(spec_output_digests(b.outputs))
    &&& pt_add(
        fee_a(b.header.block_reward),
        pt_sub(Pt { value: 0 }, spec_sum_pedersen(b.outputs)),
    ) == fr_times_g(b.header.gamma)
}

/// The opened ledger is exactly what the log determines: the fresh state
/// with the genesis applied when the log is empty, and the replay of the
/// stored blocks otherwise.
pub open spec fn spec_recovered(
    cfg: ChainConfig,
    database: ListDb,
    g: crate::block::MacroBlockView,
    c: Blockchain,
) -> bool {
    exists|c0: Blockchain|
        #[trigger] spec_fresh(c0, cfg, database, g) && if database.log().len() == 0 {
            spec_step(c0, c, BlockView::MacroBlock(g))
        } else {
            spec_replayed(spec_log_views(database.log()), c0, c)
        }
}

impl Blockchain {
    /// Open the blockchain: start from the given log, apply the genesis
    /// block if the log is empty, and otherwise replay every stored block,
    /// verifying that the log starts with the expected genesis block.
    #[verifier::rlimit(100)]
    pub fn new(
        cfg: ChainConfig,
        database: ListDb,
        _force_check: bool,
        genesis: MacroBlock,
        timestamp: Timestamp,
    ) -> (r: Result<Blockchain, BlockchainError>)
        requires
            cfg.valid(),
            database.wf(),
        ensures
            match r {
                Ok(c) => c.wf() && c.cfg == cfg && spec_recovered(cfg, database, genesis@, c),
                Err(_) => true,
            },
            database.log().len() == 0 ==> (r is Ok <==> spec_genesis_valid(cfg, genesis@)),
            database.log().len() > 0 && spec_block_digest(database.log()[0].1@)
                != spec_macro_digest(genesis@) ==> (r matches Err(e) && e matches
            BlockchainError::IncompatibleGenesis(_, _)),
    {
        let mut balance: MultiVersionedMap<UnitKey, Balance> = MultiVersionedMap::new();
        let initial_balance = Balance {
            created: Pt::identity(),
            burned: Pt::identity(),
            gamma: Fr::zero(),
            block_reward: 0,
        };
        let _ = balance.insert(Lsn(0, 0), UnitKey, initial_balance);
        let mut election_result: MultiVersionedMap<UnitKey, ElectionResult> =
            MultiVersionedMap::new();
        let pre_election = crate::election::select_validators_slots(
            Vec::new(),
            Vrf { rand: Digest::genesis_seed() },
            cfg.max_slot_count,
        );
        let _ = election_result.insert(Lsn(0, 0), UnitKey, pre_election);
        let seed = Digest::genesis_seed();
        let mut chain = Blockchain {
            cfg,
            database,
            block_by_hash: MultiVersionedMap::new(),
            output_by_hash: MultiVersionedMap::new(),
            balance,
            escrow: Escrow::new(),
            difficulty: genesis.header.difficulty,
            epoch: 0,
            offset: 0,
            election_result,
            view_change_proof: None,
            last_macro_block_timestamp: Timestamp::unix_epoch(),
            last_macro_block_hash: seed,
            last_macro_block_random: seed,
            last_block_timestamp: Timestamp::unix_epoch(),
            last_block_hash: seed,
            awards: Awards::new(cfg.awards_difficulty),
            epoch_activity: MultiVersionedMap::new(),
        };
        proof {
            assert forall|t: Lsn|
                (#[trigger] chain.balance.state_at(t)).contains_key(UnitKey) && spec_balance_ok(
                    chain.balance.state_at(t)[UnitKey],
                ) by {
                crate::mvm::lemma_replay_noop(chain.balance@, chain.balance.undo@, t);
                assert(chain.balance.state_at(t) == chain.balance@);
                assert((0i64 as u64).wrapping_add((0u64).wrapping_sub(0u64)) == 0u64)
                    by (bit_vector);
            }
            assert forall|t: Lsn|
                (#[trigger] chain.election_result.state_at(t)).contains_key(UnitKey)
                    && chain.election_result.state_at(t)[UnitKey].slots.len()
                    == chain.cfg.max_slot_count by {
                crate::mvm::lemma_replay_noop(
                    chain.election_result@,
                    chain.election_result.undo@,
                    t,
                );
                assert(chain.election_result.state_at(t) == chain.election_result@);
            }
            assert(chain.wf_base());
        }
        let ghost c0 = chain;
        proof {
            assert(spec_fresh(c0, cfg, database, genesis@));
            assert(chain.spec_macro_valid(genesis@) <==> spec_genesis_valid(cfg, genesis@)) by {
                if genesis@.inputs.len() > 0 {
                    assert(chain.spec_lookup(genesis@.inputs[0]) is None);
                }
                assert(chain.spec_resolved(genesis@.inputs).len() == genesis@.inputs.len());
                if genesis@.inputs.len() == 0 {
                    assert(spec_sum_pedersen(chain.spec_resolved(genesis@.inputs)) == (Pt {
                        value: 0,
                    }));
                }
            }
        }
        if chain.database.len() == 0 {
            match chain.check_macro_block(&genesis) {
                Ok(_) => {},
                Err(e) => {
                    return Err(e);
                },
            }
            chain.register_macro_block(&genesis);
            proof {
                assert(spec_step(c0, chain, BlockView::MacroBlock(genesis@)));
                assert(spec_recovered(cfg, database, genesis@, chain));
            }
            return Ok(chain);
        }
        let genesis_hash = genesis.digest();
        proof {
            assert(chain.database == database);
        }
        let blocks = chain.database.iter();
        let first_hash = blocks[0].digest();
        proof {
            assert(blocks@[0]@ == database.log()[0].1@);
        }
        if first_hash.value != genesis_hash.value {
            return Err(BlockchainError::IncompatibleGenesis(genesis_hash, first_hash));
        }
        proof {
            assert(spec_block_digest(database.log()[0].1@) == spec_macro_digest(genesis@));
        }
        proof {
            assert(blocks.deep_view() =~= spec_log_views(database.log()));
        }
        match chain.recover_all(&blocks, timestamp) {
            Ok(_) => {},
            Err(e) => {
                return Err(e);
            },
        }
        proof {
            assert(spec_recovered(cfg, database, genesis@, chain));
        }
        if chain.epoch == 0 {
            return Err(
                BlockchainError::BlockError(BlockError::OutOfOrderBlock(0, 0, 0, 0)),
            );
        }
        Ok(chain)
    }

    /// Replay every stored block while recovering from the log.
    fn recover_all(&mut self, blocks: &Vec<Block>, timestamp: Timestamp) -> (r: Result<
        (),
        BlockchainError,
    >)
        requires
            old(self).wf_base(),
        ensures
            final(self).wf_base(),
            final(self).cfg == old(self).cfg,
            r is Ok ==> spec_replayed(blocks.deep_view(), *old(self), *final(self)),
    {
        let ghost c0 = *old(self);
        let ghost dv = blocks.deep_view();
        proof {
            assert(dv.take(0) =~= Seq::<BlockView>::empty());
        }
        let mut i: usize = 0;
        while i < blocks.len()
            invariant
                self.wf_base(),
                self.cfg == old(self).cfg,
                i <= blocks@.len(),
                dv == blocks.deep_view(),
                dv.len() == blocks@.len(),
                spec_replayed(dv.take(i as int), c0, *self),
            decreases blocks@.len() - i,
        {
            let ghost mid = *self;
            proof {
                assert(dv[i as int] == blocks@[i as int]@);
            }
            match self.recover_block(&blocks[i], timestamp) {
                Ok(_) => {},
                Err(e) => {
                    return Err(e);
                },
            }
            proof {
                assert(dv.take(i + 1 as int).drop_last() =~= dv.take(i as int));
                assert(dv.take(i + 1 as int).last() == dv[i as int]);
                assert(spec_replayed(dv.take(i as int), c0, mid) && spec_step(
                    mid,
                    *self,
                    dv[i as int],
                ));
                assert(spec_replayed(dv.take(i + 1 as int), c0, *self));
            }
            i = i + 1;
        }
        proof {
            assert(dv.take(dv.len() as int) =~= dv);
        }
        Ok(())
    }

    /// Replay one stored block while recovering from the log.
    fn recover_block(&mut self, block: &Block, timestamp: Timestamp) -> (r: Result<
        (),
        BlockchainError,
    >)
        requires
            old(self).wf_base(),
        ensures
            final(self).wf_base(),
            final(self).cfg == old(self).cfg,
            old(self).epoch <= final(self).epoch,
            r is Ok && block@ is MacroBlock ==> final(self).epoch >= 1,
            r is Ok ==> spec_step(*old(self), *final(self), block@),
        {
        match block {
            Block::MacroBlock(b) => {
                match self.check_macro_block(b) {
                    Ok(_) => {},
                    Err(e) => {
                        return Err(e);
                    },
                }
                self.register_macro_block(b);
                Ok(())
            },
            Block::MicroBlock(b) => {
                if self.epoch == 0 {
                    return Err(
                        BlockchainError::BlockError(
                            BlockError::OutOfOrderBlock(0, 0, b.header.epoch, b.header.offset),
                        ),
                    );
                }
                let copy = b.clone();
                match self.push_micro_block(copy, timestamp) {
                    Ok(_) => Ok(()),
                    Err(e) => Err(e),
                }
            },
        }
    }

    /// Release the block log, closing the ledger.
    pub fn into_log(self) -> (r: ListDb)
        ensures
            r == self.database,
    {
        self.database
    }

    /// The current epoch: the number of macro blocks applied.
    pub fn epoch(&self) -> (r: u64)
        ensures
            r == self.epoch,
    {
        self.epoch
    }

    /// The number of micro blocks applied in the current epoch.
    pub fn offset(&self) -> (r: u32)
        ensures
            r == self.offset,
    {
        self.offset
    }

    /// The current configuration.
    pub fn cfg(&self) -> (r: &ChainConfig)
        ensures
            r == self.cfg,
    {
        &self.cfg
    }

    /// The number of slots of the current epoch.
    pub fn total_slots(&self) -> (r: i64)
        ensures
            r == self.cfg.max_slot_count,
    {
        self.cfg.max_slot_count
    }

    /// Whether every micro block of the current epoch has been applied.
    pub fn is_epoch_full(&self) -> (r: bool)
        ensures
            r == (self.offset >= self.cfg.micro_blocks_in_epoch),
    {
        self.offset >= self.cfg.micro_blocks_in_epoch
    }

    /// The digest of the last block of any kind.
    pub fn last_block_hash(&self) -> (r: Digest)
        ensures
            r == self.last_block_hash,
    {
        self.last_block_hash
    }

    /// The digest of the last macro block.
    pub fn last_macro_block_hash(&self) -> (r: Digest)
        ensures
            r == self.last_macro_block_hash,
    {
        self.last_macro_block_hash
    }

    /// The randomness of the last macro block.
    pub fn last_macro_block_random(&self) -> (r: Digest)
        ensures
            r == self.last_macro_block_random,
    {
        self.last_macro_block_random
    }

    /// The timestamp of the last block of any kind.
    pub fn last_block_timestamp(&self) -> (r: Timestamp)
        ensures
            r == self.last_block_timestamp,
    {
        self.last_block_timestamp
    }

    /// The timestamp of the last macro block.
    pub fn last_macro_block_timestamp(&self) -> (r: Timestamp)
        ensures
            r == self.last_macro_block_timestamp,
    {
        self.last_macro_block_timestamp
    }

    /// The puzzle difficulty carried over from the last macro block.
    pub fn difficulty(&self) -> (r: u64)
        ensures
            r == self.difficulty,
    {
        self.difficulty
    }

    /// The current election result.
    pub fn election_result(&self) -> (r: &ElectionResult)
        requires
            self.wf_base(),
        ensures
            r@ == self.election_result@[UnitKey],
    {
        match self.election_result.get(&UnitKey) {
            Some(e) => e,
            None => unreached(),
        }
    }

    /// The randomness of the last block of any kind.
    pub fn last_random(&self) -> (r: Digest)
        requires
            self.wf_base(),
        ensures
            r == self.election_result@[UnitKey].random.rand,
    {
        self.election_result().random.rand
    }

    /// The number of view changes at the current offset.
    pub fn view_change(&self) -> (r: u32)
        requires
            self.wf_base(),
        ensures
            r == self.election_result@[UnitKey].view_change,
    {
        self.election_result().view_change
    }

    /// The proof of the last view change at the current offset, if any.
    pub fn view_change_proof(&self) -> (r: &Option<ViewChangeProof>)
        ensures
            r == self.view_change_proof,
    {
        &self.view_change_proof
    }

    /// The current validators with their stakes.
    pub fn validators(&self) -> (r: Vec<(NetworkKey, i64)>)
        requires
            self.wf_base(),
        ensures
            r@ == self.election_result@[UnitKey].validators,
    {
        copy_vec(&self.election_result().validators)
    }

    /// Whether `peer` is a validator of the current epoch.
    pub fn is_validator(&self, peer: &NetworkKey) -> (r: bool)
        requires
            self.wf_base(),
        ensures
            r == exists|i: int|
                0 <= i < self.election_result@[UnitKey].validators.len() && (
                #[trigger] self.election_result@[UnitKey].validators[i]).0 == *peer,
    {
        self.election_result().is_validator(peer)
    }

    /// The leader of view change `view_change`.
    pub fn select_leader(&self, view_change: ViewCounter) -> (r: NetworkKey)
        requires
            self.wf(),
        ensures
            r == spec_select_leader(self.election_result@[UnitKey], view_change),
    {
        self.election_result().select_leader(view_change)
    }

    /// The leader of the current view change.
    pub fn leader(&self) -> (r: NetworkKey)
        requires
            self.wf(),
        ensures
            r == spec_select_leader(
                self.election_result@[UnitKey],
                self.election_result@[UnitKey].view_change,
            ),
    {
        let vc = self.view_change();
        self.select_leader(vc)
    }

    /// The facilitator of the current epoch.
    pub fn facilitator(&self) -> (r: NetworkKey)
        requires
            self.wf_base(),
        ensures
            r == self.election_result@[UnitKey].facilitator,
    {
        self.election_result().facilitator
    }

    /// Whether a block with this digest is indexed.
    pub fn contains_block(&self, block_hash: &Digest) -> (r: bool)
        requires
            self.wf_base(),
        ensures
            r == self.block_by_hash@.contains_key(*block_hash),
    {
        match self.block_by_hash.get(block_hash) {
            Some(_) => true,
            None => false,
        }
    }

    /// Whether an unspent output with this digest is indexed.
    pub fn contains_output(&self, output_hash: &Digest) -> (r: bool)
        requires
            self.wf_base(),
        ensures
            r == self.output_by_hash@.contains_key(*output_hash),
    {
        match self.output_by_hash.get(output_hash) {
            Some(_) => true,
            None => false,
        }
    }

    /// The digests of every unspent output.
    pub fn unspent(&self) -> (r: Vec<Digest>)
        requires
            self.wf_base(),
        ensures
            forall|h: Digest| self.output_by_hash@.contains_key(h) <==> r@.contains(h),
    {
        self.output_by_hash.keys()
    }

    /// The micro block stored at the given position.
    pub fn micro_block(&self, epoch: u64, offset: u32) -> (r: Result<MicroBlock, StorageError>)
        requires
            self.wf_base(),
        ensures
            match r {
                Ok(b) => self.database@.contains_key(Lsn(epoch, offset)) && self.database@[Lsn(
                    epoch,
                    offset,
                )] == BlockView::MicroBlock(b@),
                Err(_) => !self.database@.contains_key(Lsn(epoch, offset)) || !(self.database@[Lsn(
                    epoch,
                    offset,
                )] is MicroBlock),
            },
    {
        match self.database.get(Lsn(epoch, offset)) {
            Some(b) => match b {
                Block::MicroBlock(m) => Ok(m.clone()),
                Block::MacroBlock(_) => Err(StorageError::MissingBlock(epoch, offset)),
            },
            None => Err(StorageError::MissingBlock(epoch, offset)),
        }
    }

    /// The macro block that sealed the given epoch.
    pub fn macro_block(&self, epoch: u64) -> (r: Result<MacroBlock, StorageError>)
        requires
            self.wf_base(),
        ensures
            match r {
                Ok(b) => self.database@.contains_key(Lsn(epoch, MACRO_BLOCK_OFFSET))
                    && self.database@[Lsn(epoch, MACRO_BLOCK_OFFSET)] == BlockView::MacroBlock(b@),
                Err(_) => !self.database@.contains_key(Lsn(epoch, MACRO_BLOCK_OFFSET)) || !(
                self.database@[Lsn(epoch, MACRO_BLOCK_OFFSET)] is MacroBlock),
            },
    {
        match self.database.get(Lsn(epoch, MACRO_BLOCK_OFFSET)) {
            Some(b) => match b {
                Block::MacroBlock(m) => Ok(m.clone()),
                Block::MicroBlock(_) => Err(StorageError::MissingBlock(epoch, MACRO_BLOCK_OFFSET)),
            },
            None => Err(StorageError::MissingBlock(epoch, MACRO_BLOCK_OFFSET)),
        }
    }

    /// Every stored block, in log order.
    pub fn blocks(&self) -> (r: Vec<Block>)
        requires
            self.wf_base(),
        ensures
            r@.len() == self.database.log().len(),
            forall|i: int| 0 <= i < r@.len() ==> (#[trigger] r@[i])@ == self.database.log()[i].1@,
    {
        self.database.iter()
    }

    /// Every stored block at or after the given position, in log order.
    pub fn blocks_starting(&self, epoch: u64, offset: u32) -> (r: Vec<Block>)
        requires
            self.wf_base(),
        ensures
            r@.len() == self.database.log().len() - self.database.start_of(Lsn(epoch, offset)),
            forall|j: int|
                0 <= j < r@.len() ==> (#[trigger] r@[j])@ == self.database.log()[self.database.start_of(
                    Lsn(epoch, offset),
                ) + j].1@,
    {
        self.database.iter_starting(Lsn(epoch, offset))
    }

    /// The stakes of one validator.
    pub fn iter_validator_stakes(&self, validator_pkey: &NetworkKey) -> (r: Vec<
        (Digest, i64, AccountKey, u64),
    >)
        requires
            self.wf_base(),
        ensures
            r@ == crate::escrow::spec_stakes_of(self.escrow.entries(), *validator_pkey),
    {
        self.escrow.iter_validator_stakes(validator_pkey)
    }

    /// The account that owns the stakes of one validator.
    pub fn account_by_network_key(&self, validator_pkey: &NetworkKey) -> (r: Option<AccountKey>)
        requires
            self.wf_base(),
        ensures
            r == crate::escrow::spec_account_of(self.escrow.entries(), *validator_pkey),
    {
        self.escrow.account_by_network_key(validator_pkey)
    }

    /// Summary of the escrow.
    pub fn escrow_info(&self) -> (r: EscrowInfo)
        requires
            self.wf_base(),
        ensures
            crate::escrow::spec_stakers_ok(self.escrow.entries(), self.epoch, 0, r.validators@),
    {
        self.escrow.info(self.epoch)
    }

    /// Check that spending the given stake inputs, re-creating the given
    /// stake outputs, leaves every affected validator its locked balance.
    pub fn validate_stakes(&self, inputs: &Vec<Output>, outputs: &Vec<Output>) -> (r: Result<
        (),
        BlockchainError,
    >)
        requires
            self.wf_base(),
            inputs@.len() + outputs@.len() + self.escrow.entries().len() < 0x1000000000000000,
        ensures
            match r {
                Ok(_) => forall|i: int|
                    0 <= i < inputs@.len() ==> match #[trigger] inputs@[i] {
                        Output::StakeOutput(s) => crate::escrow::spec_validator_stake(
                            self.escrow.entries(),
                            s.validator,
                        ) - crate::escrow::spec_stake_delta(inputs@, s.validator)
                            + crate::escrow::spec_stake_delta(outputs@, s.validator)
                            >= crate::escrow::spec_validator_locked(
                            self.escrow.entries(),
                            s.validator,
                            self.epoch,
                        ),
                        _ => true,
                    },
                Err(e) => {
                    &&& e is StakeIsLocked
                    &&& exists|i: int|
                        0 <= i < inputs@.len() && match #[trigger] inputs@[i] {
                            Output::StakeOutput(s) => crate::escrow::spec_validator_stake(
                                self.escrow.entries(),
                                s.validator,
                            ) - crate::escrow::spec_stake_delta(inputs@, s.validator)
                                + crate::escrow::spec_stake_delta(outputs@, s.validator)
                                < crate::escrow::spec_validator_locked(
                                self.escrow.entries(),
                                s.validator,
                                self.epoch,
                            ),
                            _ => false,
                        }
                },
            },
    {
        let r = self.escrow.validate_stakes(inputs, outputs, self.epoch);
        match r {
            Ok(_) => Ok(()),
            Err(e) => Err(e),
        }
    }

    /// The current service-award engine.
    pub fn service_awards(&self) -> (r: &Awards)
        ensures
            r == self.awards,
    {
        &self.awards
    }

    /// The recorded in-epoch activity, one entry per leader seen.
    pub fn epoch_activity(&self) -> (r: &Vec<(NetworkKey, ValidatorAwardState)>)
        requires
            self.wf_base(),
        ensures
            r@ == self.epoch_activity.entries(),
    {
        self.epoch_activity.live_entries()
    }

    /// Raise the view-change counter at the current offset, keeping the
    /// supplied evidence.
    pub fn set_view_change(&mut self, new_view_change: u32, evidence: ViewChangeProof)
        requires
            old(self).wf(),
            old(self).election_result@[UnitKey].view_change < new_view_change,
        ensures
            final(self).wf(),
            final(self).election_result@[UnitKey].view_change == new_view_change,
            final(self).election_result@[UnitKey].validators == old(
                self,
            ).election_result@[UnitKey].validators,
            final(self).election_result@[UnitKey].slots == old(self).election_result@[UnitKey].slots,
            final(self).election_result@[UnitKey].random == old(self).election_result@[UnitKey].random,
            final(self).view_change_proof == Some(evidence),
            final(self).epoch == old(self).epoch,
            final(self).offset == old(self).offset,
            final(self).cfg == old(self).cfg,
            final(self).difficulty == old(self).difficulty,
            final(self).database == old(self).database,
            final(self).block_by_hash == old(self).block_by_hash,
            final(self).output_by_hash == old(self).output_by_hash,
            final(self).balance == old(self).balance,
            final(self).escrow == old(self).escrow,
            final(self).epoch_activity == old(self).epoch_activity,
            final(self).awards == old(self).awards,
            final(self).last_block_hash == old(self).last_block_hash,
            final(self).last_block_timestamp == old(self).last_block_timestamp,
            final(self).last_macro_block_hash == old(self).last_macro_block_hash,
            final(self).last_macro_block_timestamp == old(self).last_macro_block_timestamp,
            final(self).last_macro_block_random == old(self).last_macro_block_random,
    {
        let e = self.current_election();
        let updated = ElectionResult {
            validators: e.validators,
            slots: e.slots,
            facilitator: e.facilitator,
            random: e.random,
            view_change: new_view_change,
        };
        let lsn = Lsn(self.epoch, self.offset);
        let ghost pre = *self;
        let _ = self.election_result.insert(lsn, UnitKey, updated);
        self.view_change_proof = Some(evidence);
        proof {
            assert forall|t: Lsn|
                (#[trigger] self.election_result.state_at(t)).contains_key(UnitKey)
                    && self.election_result.state_at(t)[UnitKey].slots.len()
                    == self.cfg.max_slot_count by {
                if lsn_lt(t, lsn) {
                    assert(self.election_result.state_at(t) == pre.election_result.state_at(t));
                } else {
                    crate::mvm::lemma_replay_noop(
                        self.election_result@,
                        self.election_result.undo@,
                        t,
                    );
                    assert(self.election_result.state_at(t) == self.election_result@);
                }
            }
        }
    }

    /// Reset the view-change counter at the current offset and drop the
    /// evidence.
    pub fn reset_view_change(&mut self)
        requires
            old(self).wf(),
        ensures
            final(self).wf(),
            final(self).election_result@[UnitKey].view_change == 0,
            final(self).election_result@[UnitKey].validators == old(
                self,
            ).election_result@[UnitKey].validators,
            final(self).view_change_proof is None,
            final(self).epoch == old(self).epoch,
            final(self).offset == old(self).offset,
            final(self).cfg == old(self).cfg,
            final(self).difficulty == old(self).difficulty,
            final(self).database == old(self).database,
            final(self).block_by_hash == old(self).block_by_hash,
            final(self).output_by_hash == old(self).output_by_hash,
            final(self).balance == old(self).balance,
            final(self).escrow == old(self).escrow,
            final(self).epoch_activity == old(self).epoch_activity,
            final(self).awards == old(self).awards,
            final(self).last_block_hash == old(self).last_block_hash,
            final(self).last_block_timestamp == old(self).last_block_timestamp,
            final(self).last_macro_block_hash == old(self).last_macro_block_hash,
            final(self).last_macro_block_timestamp == old(self).last_macro_block_timestamp,
            final(self).last_macro_block_random == old(self).last_macro_block_random,
    {
        let e = self.current_election();
        let updated = ElectionResult {
            validators: e.validators,
            slots: e.slots,
            facilitator: e.facilitator,
            random: e.random,
            view_change: 0,
        };
        let lsn = Lsn(self.epoch, self.offset);
        let ghost pre = *self;
        let _ = self.election_result.insert(lsn, UnitKey, updated);
        self.view_change_proof = None;
        proof {
            assert forall|t: Lsn|
                (#[trigger] self.election_result.state_at(t)).contains_key(UnitKey)
                    && self.election_result.state_at(t)[UnitKey].slots.len()
                    == self.cfg.max_slot_count by {
                if lsn_lt(t, lsn) {
                    assert(self.election_result.state_at(t) == pre.election_result.state_at(t));
                } else {
                    crate::mvm::lemma_replay_noop(
                        self.election_result@,
                        self.election_result.undo@,
                        t,
                    );
                    assert(self.election_result.state_at(t) == self.election_result@);
                }
            }
        }
    }

    /// Summary of the election state.
    pub fn election_info(&self) -> (r: ElectionInfo)
        requires
            self.wf(),
        ensures
            r.epoch == self.epoch,
            r.offset == self.offset,
            r.view_change == self.election_result@[UnitKey].view_change,
            r.slots_count == self.cfg.max_slot_count,
            r.current_leader == spec_select_leader(
                self.election_result@[UnitKey],
                self.election_result@[UnitKey].view_change,
            ),
            r.next_leader == spec_select_leader(
                self.election_result@[UnitKey],
                self.election_result@[UnitKey].view_change.wrapping_add(1),
            ),
    {
        let vc = self.view_change();
        let current_leader = self.select_leader(vc);
        let next_leader = self.select_leader(vc.wrapping_add(1));
        ElectionInfo {
            epoch: self.epoch,
            offset: self.offset,
            view_change: vc,
            slots_count: self.cfg.max_slot_count,
            current_leader,
            next_leader,
        }
    }

    /// Scan the whole chain for the live outputs each listed account can
    /// open, with the epoch, finality and timestamp of the block that
    /// created each.
    #[verifier::loop_isolation(false)]
    #[verifier::rlimit(100)]
    pub fn recover_accounts(&self, accounts: &Vec<(AccountSecret, AccountKey)>) -> (r: Result<
        Vec<AccountRecoveryState>,
        BlockchainError,
    >)
        requires
            self.wf_base(),
        ensures
            match r {
                Ok(v) => {
                    &&& v@.len() == accounts@.len()
                    &&& (forall|a: int|
                        0 <= a < v@.len() ==> (#[trigger] v@[a])@ == spec_scan(
                            *self,
                            spec_log_views(self.database.log()),
                            accounts@[a].0,
                            accounts@[a].1,
                        ).0)
                },
                Err(_) => false,
            },
    {
        let blocks = self.blocks();
        let ghost dv = blocks.deep_view();
        proof {
            assert(dv =~= spec_log_views(self.database.log()));
        }
        let mut states: Vec<AccountRecoveryState> = Vec::new();
        let mut a: usize = 0;
        while a < accounts.len()
            invariant
                a <= accounts@.len(),
                states@.len() == a,
                forall|x: int|
                    0 <= x < a ==> (#[trigger] states@[x])@ == spec_scan(
                        *self,
                        dv,
                        accounts@[x].0,
                        accounts@[x].1,
                    ).0,
            decreases accounts@.len() - a,
        {
            let skey = accounts[a].0;
            let pkey = accounts[a].1;
            let mut list: AccountRecoveryState = Vec::new();
            let mut epoch: u64 = 0;
            let mut i: usize = 0;
            proof {
                assert(dv.take(0) =~= Seq::<BlockView>::empty());
            }
            while i < blocks.len()
                invariant
                    i <= blocks@.len(),
                    list@ == spec_scan(*self, dv.take(i as int), skey, pkey).0,
                    epoch as int == spec_scan(*self, dv.take(i as int), skey, pkey).1,
                    epoch <= i,
                decreases blocks@.len() - i,
            {
                proof {
                    assert(dv.take(i + 1 as int).drop_last() =~= dv.take(i as int));
                    assert(dv.take(i + 1 as int).last() == dv[i as int]);
                    assert(dv[i as int] == blocks@[i as int]@);
                }
                let ghost base = list@;
                match &blocks[i] {
                    Block::MacroBlock(b) => {
                        let mut j: usize = 0;
                        while j < b.outputs.len()
                            invariant
                                j <= b.outputs@.len(),
                                list@ == base + spec_scan_outputs(
                                    *self,
                                    b.outputs@.take(j as int),
                                    epoch,
                                    true,
                                    b.header.timestamp,
                                    skey,
                                    pkey,
                                ),
                            decreases b.outputs@.len() - j,
                        {
                            proof {
                                assert(b.outputs@.take(j + 1 as int).drop_last() =~= b.outputs@.take(
                                    j as int,
                                ));
                                assert(b.outputs@.take(j + 1 as int).last() == b.outputs@[j as int]);
                            }
                            let o = b.outputs[j];
                            let h = o.digest();
                            if self.contains_output(&h) && o.is_my_utxo(&skey, &pkey) {
                                list.push(
                                    OutputRecovery {
                                        output: o,
                                        epoch,
                                        is_final: true,
                                        timestamp: b.header.timestamp,
                                    },
                                );
                            }
                            j = j + 1;
                        }
                        proof {
                            assert(b.outputs@.take(b.outputs@.len() as int) =~= b.outputs@);
                        }
                        epoch = epoch + 1;
                    },
                    Block::MicroBlock(b) => {
                        let ghost tdv = b.transactions.deep_view();
                        let mut t: usize = 0;
                        proof {
                            assert(tdv.take(0) =~= Seq::<TransactionView>::empty());
                        }
                        while t < b.transactions.len()
                            invariant
                                t <= b.transactions@.len(),
                                tdv == b.transactions.deep_view(),
                                tdv.len() == b.transactions@.len(),
                                list@ == base + spec_scan_txs(
                                    *self,
                                    tdv.take(t as int),
                                    epoch,
                                    b.header.timestamp,
                                    skey,
                                    pkey,
                                ),
                            decreases b.transactions@.len() - t,
                        {
                            proof {
                                assert(tdv.take(t + 1 as int).drop_last() =~= tdv.take(t as int));
                                assert(tdv.take(t + 1 as int).last() == tdv[t as int]);
                                assert(tdv[t as int] == b.transactions@[t as int]@);
                            }
                            let ghost base2 = list@;
                            let outs = b.transactions[t].txouts();
                            let mut j: usize = 0;
                            while j < outs.len()
                                invariant
                                    j <= outs@.len(),
                                    outs@ == spec_txouts(tdv[t as int]),
                                    list@ == base2 + spec_scan_outputs(
                                        *self,
                                        outs@.take(j as int),
                                        epoch,
                                        false,
                                        b.header.timestamp,
                                        skey,
                                        pkey,
                                    ),
                                decreases outs@.len() - j,
                            {
                                proof {
                                    assert(outs@.take(j + 1 as int).drop_last() =~= outs@.take(
                                        j as int,
                                    ));
                                    assert(outs@.take(j + 1 as int).last() == outs@[j as int]);
                                }
                                let o = outs[j];
                                let h = o.digest();
                                if self.contains_output(&h) && o.is_my_utxo(&skey, &pkey) {
                                    list.push(
                                        OutputRecovery {
                                            output: o,
                                            epoch,
                                            is_final: false,
                                            timestamp: b.header.timestamp,
                                        },
                                    );
                                }
                                j = j + 1;
                            }
                            proof {
                                assert(outs@.take(outs@.len() as int) =~= outs@);
                            }
                            t = t + 1;
                        }
                        proof {
                            assert(tdv.take(tdv.len() as int) =~= tdv);
                        }
                    },
                }
                i = i + 1;
            }
            proof {
                assert(dv.take(dv.len() as int) =~= dv);
            }
            states.push(list);
            a = a + 1;
        }
        Ok(states)
    }
}

/// Whether bit `i` of the producer's activity map stands: epoch-start
/// validator `i` is still a validator and is not recorded as failed.
pub open spec fn spec_epoch_bit(c: Blockchain, i: int) -> bool {
    &&& (exists|j: int|
        0 <= j < c.election_result@[UnitKey].validators.len() && (
        #[trigger] c.election_result@[UnitKey].validators[j]).0 == c.spec_vals0()[i].0)
    &&& !(c.epoch_activity@.contains_key(c.spec_vals0()[i].0)
        && c.epoch_activity@[c.spec_vals0()[i].0] is FailedAt)
}

impl Blockchain {
    /// The activity bitmap and award winner the current epoch would produce
    /// if it were sealed with the given randomness.  The bitmap marks the
    /// epoch-start validators that survived the epoch and stand active; the
    /// winner is what applying a macro block carrying exactly this bitmap
    /// would select, so producer and receivers agree by construction.
    #[verifier::loop_isolation(false)]
    #[verifier::rlimit(100)]
    pub fn awards_from_active_epoch(&self, random: &Vrf) -> (r: (
        ActivityMap,
        Option<(AccountKey, i64)>,
    ))
        requires
            self.wf(),
        ensures
            r.0@.len() == self.spec_vals0().len(),
            forall|i: int| 0 <= i < r.0@.len() ==> r.0@[i] == spec_epoch_bit(*self, i),
            spec_accounts_ok(self.spec_vals0(), self.escrow.entries()) ==> r.1 == spec_winner(
                spec_finalize_activity(
                    self.awards.activity@,
                    spec_activity_build(
                        self.spec_vals0(),
                        r.0@,
                        self.escrow.entries(),
                        self.epoch,
                        self.offset,
                        self.spec_vals0().len() as int,
                    ),
                ),
                crate::escrow::spec_clamp_i64(
                    self.awards.budget + self.cfg.service_award_per_epoch,
                ),
                self.cfg.awards_difficulty,
                random.rand,
            ),
            !spec_accounts_ok(self.spec_vals0(), self.escrow.entries()) ==> r.1 is None,
    {
        let validators = self.validators();
        let vals0 = self.validators_at_epoch_start();
        let mut bitmap = ActivityMap::ones(vals0.len());
        let mut j: usize = 0;
        while j < vals0.len()
            invariant
                j <= vals0@.len(),
                bitmap@.len() == vals0@.len(),
                forall|m: int| 0 <= m < j ==> bitmap@[m] == spec_epoch_bit(*self, m),
                forall|m: int| j <= m < bitmap@.len() ==> bitmap@[m],
            decreases vals0@.len() - j,
        {
            let v = vals0[j].0;
            let mut surviving = false;
            let mut k: usize = 0;
            while k < validators.len()
                invariant
                    k <= validators@.len(),
                    surviving == exists|j2: int|
                        0 <= j2 < k && (#[trigger] validators@[j2]).0 == v,
                decreases validators@.len() - k,
            {
                if validators[k].0.value == v.value {
                    proof {
                        assert((#[trigger] validators@[k as int]).0 == v);
                    }
                    surviving = true;
                }
                k = k + 1;
            }
            let failed = match self.epoch_activity.get(&v) {
                Some(ValidatorAwardState::FailedAt(_, _)) => true,
                _ => false,
            };
            let ghost pre_bits = bitmap@;
            if !surviving || failed {
                bitmap.remove(j);
            }
            proof {
                assert(bitmap@[j as int] == spec_epoch_bit(*self, j as int));
            }
            j = j + 1;
        }
        // Draw the winner exactly as applying this bitmap would.
        let acts = match self.epoch_activity_from_macro_block(&bitmap) {
            Ok(v) => v,
            Err(_) => {
                return (bitmap, None);
            },
        };
        let mut awards = self.awards.clone();
        proof {
            assert(awards.activity@ == self.awards.activity@);
        }
        awards.finalize_epoch(self.cfg.service_award_per_epoch, &acts);
        let winner = awards.check_winners(random.rand);
        (bitmap, winner)
    }
}

/// The spent hashes that leave the epoch: those not created inside it.
pub open spec fn spec_external_inputs(ins: Seq<Digest>, outd: Seq<Digest>) -> Seq<Digest>
    decreases ins.len(),
{
    if ins.len() == 0 {
        Seq::empty()
    } else {
        let prev = spec_external_inputs(ins.drop_last(), outd);
        if outd.contains(ins.last()) {
            prev
        } else {
            prev.push(ins.last())
        }
    }
}

/// The created outputs that survive the epoch: those not spent inside it.
pub open spec fn spec_surviving_outputs(outs: Seq<Output>, ins: Seq<Digest>) -> Seq<Output>
    decreases outs.len(),
{
    if outs.len() == 0 {
        Seq::empty()
    } else {
        let prev = spec_surviving_outputs(outs.drop_last(), ins);
        if ins.contains(spec_output_digest(outs.last())) {
            prev
        } else {
            prev.push(outs.last())
        }
    }
}

/// The transactions of the first `n` micro blocks of the current epoch, in
/// log order; a missing or non-micro record contributes nothing.
pub open spec fn spec_epoch_txs(c: Blockchain, n: int) -> Seq<TransactionView>
    decreases n,
{
    if n <= 0 {
        Seq::empty()
    } else {
        spec_epoch_txs(c, n - 1) + (if c.database@.contains_key(Lsn(c.epoch, (n - 1) as u32)) {
            match c.database@[Lsn(c.epoch, (n - 1) as u32)] {
                BlockView::MicroBlock(m) => m.transactions,
                _ => Seq::empty(),
            }
        } else {
            Seq::empty()
        })
    }
}

/// Whether a vector of digests holds `h`.
fn digest_in(v: &Vec<Digest>, h: Digest) -> (r: bool)
    ensures
        r == v@.contains(h),
{
    let mut i: usize = 0;
    while i < v.len()
        invariant
            i <= v@.len(),
            forall|j: int| 0 <= j < i ==> v@[j] != h,
        decreases v@.len() - i,
    {
        if v[i].value == h.value {
            return true;
        }
        i = i + 1;
    }
    false
}

/// The spent hashes that leave the epoch.
fn filter_external_inputs(ins: &Vec<Digest>, outd: &Vec<Digest>) -> (r: Vec<Digest>)
    ensures
        r@ == spec_external_inputs(ins@, outd@),
{
    let mut r: Vec<Digest> = Vec::new();
    let mut i: usize = 0;
    while i < ins.len()
        invariant
            i <= ins@.len(),
            r@ == spec_external_inputs(ins@.take(i as int), outd@),
        decreases ins@.len() - i,
    {
        proof {
            assert(ins@.take(i + 1 as int).drop_last() =~= ins@.take(i as int));
            assert(ins@.take(i + 1 as int).last() == ins@[i as int]);
        }
        if !digest_in(outd, ins[i]) {
            r.push(ins[i]);
        }
        i = i + 1;
    }
    proof {
        assert(ins@.take(ins@.len() as int) =~= ins@);
    }
    r
}

/// The created outputs that survive the epoch.
fn filter_surviving_outputs(outs: &Vec<Output>, ins: &Vec<Digest>) -> (r: Vec<Output>)
    ensures
        r@ == spec_surviving_outputs(outs@, ins@),
{
    let mut r: Vec<Output> = Vec::new();
    let mut i: usize = 0;
    while i < outs.len()
        invariant
            i <= outs@.len(),
            r@ == spec_surviving_outputs(outs@.take(i as int), ins@),
        decreases outs@.len() - i,
    {
        proof {
            assert(outs@.take(i + 1 as int).drop_last() =~= outs@.take(i as int));
            assert(outs@.take(i + 1 as int).last() == outs@[i as int]);
        }
        let h = outs[i].digest();
        if !digest_in(ins, h) {
            r.push(outs[i]);
        }
        i = i + 1;
    }
    proof {
        assert(outs@.take(outs@.len() as int) =~= outs@);
    }
    r
}

impl Blockchain {
    /// Assemble the macro block that seals the current epoch: a coinbase for
    /// the full reward, the service award if one is drawn, and the epoch's
    /// micro transactions folded flat, with internally settled outputs
    /// pruned.  Returns the block and the freshly minted extra transactions.
    #[verifier::loop_isolation(false)]
    #[verifier::rlimit(100)]
    pub fn create_macro_block(
        &self,
        view_change: u32,
        beneficiary_pkey: &AccountKey,
        network_pkey: NetworkKey,
        random: Vrf,
        timestamp: Timestamp,
    ) -> (r: Result<(MacroBlock, Vec<Transaction>), BlockchainError>)
        requires
            self.wf(),
            self.offset >= self.cfg.micro_blocks_in_epoch,
        ensures
            match r {
                Ok((block, extra)) => {
                    &&& block@.header.version == VERSION
                    &&& block@.header.epoch == self.epoch
                    &&& block@.header.previous == self.last_macro_block_hash
                    &&& block@.header.view_change == view_change
                    &&& block@.header.pkey == network_pkey
                    &&& block@.header.random == random
                    &&& block@.header.difficulty == self.difficulty
                    &&& block@.header.timestamp == timestamp
                    &&& block@.header.activity_map.len() == self.spec_vals0().len()
                    &&& (forall|i: int|
                        0 <= i < block@.header.activity_map.len()
                            ==> block@.header.activity_map[i] == spec_epoch_bit(*self, i))
                    &&& (spec_accounts_ok(self.spec_vals0(), self.escrow.entries())
                        ==> block@.header.block_reward as int == self.cfg.block_reward as int * (
                        self.cfg.micro_blocks_in_epoch as int + 1) + self.spec_macro_award_amount(
                            block@,
                        ))
                    &&& block@.header.gamma == spec_txs_gamma(
                        extra.deep_view() + spec_epoch_txs(
                            *self,
                            self.cfg.micro_blocks_in_epoch as int,
                        ),
                    )
                    &&& block@.inputs == spec_external_inputs(
                        spec_txs_inputs(
                            extra.deep_view() + spec_epoch_txs(
                                *self,
                                self.cfg.micro_blocks_in_epoch as int,
                            ),
                        ),
                        spec_output_digests(
                            spec_txs_outputs(
                                extra.deep_view() + spec_epoch_txs(
                                    *self,
                                    self.cfg.micro_blocks_in_epoch as int,
                                ),
                            ),
                        ),
                    )
                    &&& block@.outputs == spec_surviving_outputs(
                        spec_txs_outputs(
                            extra.deep_view() + spec_epoch_txs(
                                *self,
                                self.cfg.micro_blocks_in_epoch as int,
                            ),
                        ),
                        spec_txs_inputs(
                            extra.deep_view() + spec_epoch_txs(
                                *self,
                                self.cfg.micro_blocks_in_epoch as int,
                            ),
                        ),
                    )
                    &&& extra.deep_view().len() >= 1
                    &&& (extra.deep_view()[0] matches TransactionView::Coinbase {
                        block_reward,
                        ..
                    } && block_reward == self.cfg.block_reward)
                },
                Err(_) => true,
            },
    {
        let (activity_map, winner) = self.awards_from_active_epoch(&random);
        let wamount: i128 = match winner {
            Some((_, a)) => a as i128,
            None => 0,
        };
        let br: i128 = self.cfg.block_reward as i128;
        let m: i128 = self.cfg.micro_blocks_in_epoch as i128 + 1;
        proof {
            assert(br * m <= 0x7fffffffffffffffi128 * 0x100000000i128 && br * m >= 0)
                by (nonlinear_arith)
                requires
                    0 <= br <= 0x7fffffffffffffffi128,
                    1 <= m <= 0x100000000i128,
            ;
        }
        let full_wide: i128 = br * m + wamount;
        if full_wide > i64::MAX as i128 {
            return Err(
                BlockchainError::BlockError(BlockError::InvalidBlockReward(self.epoch, 0, 0)),
            );
        }
        let full = full_wide as i64;
        // The freshly minted transactions.
        let cb_gamma = Fr { value: crate::crypto::mix64_exec(random.rand.value, 12) };
        let cb_out = Output::PaymentOutput(
            crate::output::PaymentOutput::new(*beneficiary_pkey, self.cfg.block_reward, cb_gamma),
        );
        let coinbase = Transaction::CoinbaseTransaction(
            crate::block::CoinbaseTransaction {
                block_reward: self.cfg.block_reward,
                block_fee: 0,
                gamma: cb_gamma.neg(),
                txouts: vec![cb_out],
            },
        );
        let mut extra: Vec<Transaction> = Vec::new();
        extra.push(coinbase);
        match winner {
            Some((w, amount)) => {
                let award_out = Output::PublicPaymentOutput(
                    crate::output::PublicPaymentOutput { recipient: w, amount },
                );
                extra.push(
                    Transaction::ServiceAwardTransaction(
                        crate::block::ServiceAwardTransaction { winner_reward: vec![award_out] },
                    ),
                );
            },
            None => {},
        }
        let ghost edv = extra.deep_view();
        // Collect the epoch's micro transactions behind the extras.
        let mut txs: Vec<Transaction> = Vec::new();
        let mut o: usize = 0;
        let count = self.cfg.micro_blocks_in_epoch;
        while o < count as usize
            invariant
                o <= count as usize,
                txs.deep_view() == spec_epoch_txs(*self, o as int),
            decreases count as usize - o,
        {
            match self.database.get(Lsn(self.epoch, o as u32)) {
                Some(b) => match b {
                    Block::MicroBlock(mb) => {
                        let copy = mb.clone();
                        let ghost pre = txs.deep_view();
                        let mut part = copy.transactions;
                        let ghost partdv = part.deep_view();
                        txs.append(&mut part);
                        proof {
                            assert(txs.deep_view() =~= pre + partdv);
                        }
                    },
                    Block::MacroBlock(_) => {
                        return Err(
                            BlockchainError::StorageError(
                                StorageError::MissingBlock(self.epoch, o as u32),
                            ),
                        );
                    },
                },
                None => {
                    return Err(
                        BlockchainError::StorageError(
                            StorageError::MissingBlock(self.epoch, o as u32),
                        ),
                    );
                },
            }
            o = o + 1;
        }
        // All transactions of the sealed epoch, extras first.
        let mut all_txs: Vec<Transaction> = Vec::new();
        let mut part = extra_copy(&extra);
        all_txs.append(&mut part);
        let ghost txsdv = txs.deep_view();
        let mut micro_txs = txs;
        all_txs.append(&mut micro_txs);
        proof {
            assert(all_txs.deep_view() =~= edv + txsdv);
        }
        let ins = collect_tx_inputs(&all_txs);
        let outs = collect_tx_outputs(&all_txs);
        let outd = collect_output_digests(&outs);
        let inputs = filter_external_inputs(&ins, &outd);
        let outputs = filter_surviving_outputs(&outs, &ins);
        let gamma = collect_txs_gamma(&all_txs);
        let block = MacroBlock {
            header: crate::block::MacroBlockHeader {
                version: VERSION,
                epoch: self.epoch,
                previous: self.last_macro_block_hash,
                view_change,
                pkey: network_pkey,
                random,
                difficulty: self.difficulty,
                timestamp,
                block_reward: full,
                gamma,
                activity_map,
            },
            inputs,
            outputs,
        };
        proof {
            assert(block@.header.activity_map == block.header.activity_map@);
        }
        Ok((block, extra))
    }
}


/// A copy of freshly minted transactions, view for view.
fn extra_copy(txs: &Vec<Transaction>) -> (r: Vec<Transaction>)
    ensures
        r.deep_view() == txs.deep_view(),
{
    let mut r: Vec<Transaction> = Vec::new();
    let mut i: usize = 0;
    while i < txs.len()
        invariant
            i <= txs@.len(),
            r@.len() == i,
            forall|j: int| 0 <= j < i ==> (#[trigger] r@[j])@ == txs@[j]@,
        decreases txs@.len() - i,
    {
        let tx = txs[i].clone();
        r.push(tx);
        i = i + 1;
    }
    proof {
        assert forall|j: int|
            0 <= j < r@.len() implies r.deep_view()[j] == txs.deep_view()[j] by {
            assert(r@[j]@ == txs@[j]@);
        }
        assert(r.deep_view() =~= txs.deep_view());
    }
    r
}

} // verus!
