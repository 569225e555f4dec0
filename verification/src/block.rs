//! Blocks and transactions.
//!
//! An epoch consists of a number of reversible micro blocks followed by one
//! irreversible macro block.  Digests of blocks and outputs are computed by
//! folding every field through the mixing step of [`crate::crypto`].
//!
//! Types that hold vectors have mathematical views (`TransactionView`,
//! `BlockView`, ...) over which all contracts are stated.

use vstd::prelude::*;

use crate::crypto::fr_add;
use crate::crypto::mix64;
use crate::crypto::mix64_exec;
use crate::crypto::Digest;
use crate::crypto::Fr;
use crate::crypto::NetworkKey;
use crate::crypto::Vrf;
use crate::crypto::MIX_SEED;
use crate::output::spec_output_digest;
use crate::output::Output;
use crate::timestamp::Timestamp;

verus! {

/// The version word carried by every block this crate produces.
pub const VERSION: u64 = 1;

/// Copy a vector of copyable values.
pub fn copy_vec<T: Copy>(v: &Vec<T>) -> (r: Vec<T>)
    ensures
        r@ == v@,
{
    let mut r: Vec<T> = Vec::new();
    let mut i: usize = 0;
    while i < v.len()
        invariant
            i <= v@.len(),
            r@ == v@.take(i as int),
        decreases v@.len() - i,
    {
        r.push(v[i]);
        proof {
            assert(v@.take(i + 1 as int) =~= v@.take(i as int).push(v@[i as int]));
        }
        i = i + 1;
    }
    proof {
        assert(v@.take(v@.len() as int) =~= v@);
    }
    r
}

/// Fold a sequence of words into a digest accumulator.
pub open spec fn fold_words(acc: u64, ws: Seq<u64>) -> u64
    decreases ws.len(),
{
    if ws.len() == 0 {
        acc
    } else {
        mix64(fold_words(acc, ws.drop_last()), ws.last())
    }
}

/// Mints a new transaction that pays the block reward and the collected fees.
#[derive(PartialEq, Eq, Debug)]
pub struct CoinbaseTransaction {
    pub block_reward: i64,
    pub block_fee: i64,
    pub gamma: Fr,
    pub txouts: Vec<Output>,
}

/// An ordinary confidential payment.
#[derive(PartialEq, Eq, Debug)]
pub struct PaymentTransaction {
    pub txins: Vec<Digest>,
    pub txouts: Vec<Output>,
    pub gamma: Fr,
    pub fee: i64,
}

/// Re-creation of stake outputs, allowed while the stake is still locked.
#[derive(PartialEq, Eq, Debug)]
pub struct RestakeTransaction {
    pub txins: Vec<Digest>,
    pub txouts: Vec<Output>,
}

/// Punishes a cheating validator: spends outputs of the cheater and pays
/// compensation outputs.
#[derive(PartialEq, Eq, Debug)]
pub struct SlashingTransaction {
    pub cheater: NetworkKey,
    pub txins: Vec<Digest>,
    pub txouts: Vec<Output>,
}

/// Pays the service award to the epoch's winner; macro blocks only.
#[derive(PartialEq, Eq, Debug)]
pub struct ServiceAwardTransaction {
    pub winner_reward: Vec<Output>,
}

/// Any transaction.
#[derive(PartialEq, Eq, Debug)]
pub enum Transaction {
    CoinbaseTransaction(CoinbaseTransaction),
    PaymentTransaction(PaymentTransaction),
    RestakeTransaction(RestakeTransaction),
    SlashingTransaction(SlashingTransaction),
    ServiceAwardTransaction(ServiceAwardTransaction),
}

/// The mathematical content of a transaction.
pub enum TransactionView {
    Coinbase { block_reward: i64, block_fee: i64, gamma: Fr, txouts: Seq<Output> },
    Payment { txins: Seq<Digest>, txouts: Seq<Output>, gamma: Fr, fee: i64 },
    Restake { txins: Seq<Digest>, txouts: Seq<Output> },
    Slashing { cheater: NetworkKey, txins: Seq<Digest>, txouts: Seq<Output> },
    ServiceAward { winner_reward: Seq<Output> },
}

impl View for Transaction {
    type V = TransactionView;

    open spec fn view(&self) -> TransactionView {
        match self {
            Transaction::CoinbaseTransaction(t) => TransactionView::Coinbase {
                block_reward: t.block_reward,
                block_fee: t.block_fee,
                gamma: t.gamma,
                txouts: t.txouts@,
            },
            Transaction::PaymentTransaction(t) => TransactionView::Payment {
                txins: t.txins@,
                txouts: t.txouts@,
                gamma: t.gamma,
                fee: t.fee,
            },
            Transaction::RestakeTransaction(t) => TransactionView::Restake {
                txins: t.txins@,
                txouts: t.txouts@,
            },
            Transaction::SlashingTransaction(t) => TransactionView::Slashing {
                cheater: t.cheater,
                txins: t.txins@,
                txouts: t.txouts@,
            },
            Transaction::ServiceAwardTransaction(t) => TransactionView::ServiceAward {
                winner_reward: t.winner_reward@,
            },
        }
    }
}

impl DeepView for Transaction {
    type V = TransactionView;

    open spec fn deep_view(&self) -> TransactionView {
        self.view()
    }
}

/// The hashes of the outputs a transaction spends.
pub open spec fn spec_txins(tx: TransactionView) -> Seq<Digest> {
    match tx {
        TransactionView::Coinbase { .. } => Seq::empty(),
        TransactionView::Payment { txins, .. } => txins,
        TransactionView::Restake { txins, .. } => txins,
        TransactionView::Slashing { txins, .. } => txins,
        TransactionView::ServiceAward { .. } => Seq::empty(),
    }
}

/// The outputs a transaction creates.
pub open spec fn spec_txouts(tx: TransactionView) -> Seq<Output> {
    match tx {
        TransactionView::Coinbase { txouts, .. } => txouts,
        TransactionView::Payment { txouts, .. } => txouts,
        TransactionView::Restake { txouts, .. } => txouts,
        TransactionView::Slashing { txouts, .. } => txouts,
        TransactionView::ServiceAward { winner_reward } => winner_reward,
    }
}

/// The blinding-factor delta a transaction contributes to its block.
pub open spec fn spec_tx_gamma(tx: TransactionView) -> Fr {
    match tx {
        TransactionView::Coinbase { gamma, .. } => gamma,
        TransactionView::Payment { gamma, .. } => gamma,
        _ => Fr { value: 0 },
    }
}

/// The reward a transaction mints (coinbase transactions only).
pub open spec fn spec_tx_reward(tx: TransactionView) -> i64 {
    match tx {
        TransactionView::Coinbase { block_reward, .. } => block_reward,
        _ => 0,
    }
}

/// The digests of a sequence of outputs.
pub open spec fn spec_output_digests(s: Seq<Output>) -> Seq<Digest> {
    s.map_values(|o: Output| spec_output_digest(o))
}

/// Digest words of a sequence of digests.
pub open spec fn digest_words(s: Seq<Digest>) -> Seq<u64> {
    s.map_values(|h: Digest| h.value)
}

/// Digest words of a sequence of outputs.
pub open spec fn output_words(s: Seq<Output>) -> Seq<u64> {
    s.map_values(|o: Output| spec_output_digest(o).value)
}

/// Digest words of an activity bitmap.
pub open spec fn bool_words(s: Seq<bool>) -> Seq<u64> {
    s.map_values(|b: bool| if b { 1u64 } else { 0u64 })
}

/// The digest of a transaction.
pub open spec fn spec_tx_digest(tx: TransactionView) -> Digest {
    match tx {
        TransactionView::Coinbase { block_reward, block_fee, gamma, txouts } => Digest {
            value: fold_words(
                mix64(
                    mix64(mix64(mix64(MIX_SEED, 21), block_reward as u64), block_fee as u64),
                    gamma.value,
                ),
                output_words(txouts),
            ),
        },
        TransactionView::Payment { txins, txouts, gamma, fee } => Digest {
            value: fold_words(
                fold_words(
                    mix64(mix64(mix64(MIX_SEED, 22), gamma.value), fee as u64),
                    digest_words(txins),
                ),
                output_words(txouts),
            ),
        },
        TransactionView::Restake { txins, txouts } => Digest {
            value: fold_words(
                fold_words(mix64(MIX_SEED, 23), digest_words(txins)),
                output_words(txouts),
            ),
        },
        TransactionView::Slashing { cheater, txins, txouts } => Digest {
            value: fold_words(
                fold_words(mix64(mix64(MIX_SEED, 24), cheater.value), digest_words(txins)),
                output_words(txouts),
            ),
        },
        TransactionView::ServiceAward { winner_reward } => Digest {
            value: fold_words(mix64(MIX_SEED, 25), output_words(winner_reward)),
        },
    }
}

/// Digest words of a sequence of transactions.
pub open spec fn tx_words(s: Seq<TransactionView>) -> Seq<u64> {
    s.map_values(|t: TransactionView| spec_tx_digest(t).value)
}

/// Fold a vector of words into a digest accumulator, first word first.
pub fn fold_words_exec(acc: u64, ws: &Vec<u64>) -> (r: u64)
    ensures
        r == fold_words(acc, ws@),
{
    let mut r = acc;
    let mut i: usize = 0;
    while i < ws.len()
        invariant
            i <= ws@.len(),
            r == fold_words(acc, ws@.take(i as int)),
        decreases ws@.len() - i,
    {
        proof {
            assert(ws@.take(i + 1 as int).drop_last() =~= ws@.take(i as int));
            assert(ws@.take(i + 1 as int).last() == ws@[i as int]);
        }
        r = mix64_exec(r, ws[i]);
        i = i + 1;
    }
    proof {
        assert(ws@.take(ws@.len() as int) =~= ws@);
    }
    r
}

/// The digest words of a vector of digests.
pub fn digest_words_exec(v: &Vec<Digest>) -> (r: Vec<u64>)
    ensures
        r@ == digest_words(v@),
{
    let mut r: Vec<u64> = Vec::new();
    let mut i: usize = 0;
    while i < v.len()
        invariant
            i <= v@.len(),
            r@.len() == i,
            forall|j: int| 0 <= j < i ==> r@[j] == (#[trigger] v@[j]).value,
        decreases v@.len() - i,
    {
        r.push(v[i].value);
        i = i + 1;
    }
    proof {
        assert(r@ =~= digest_words(v@));
    }
    r
}

/// The digest words of a vector of outputs.
pub fn output_words_exec(v: &Vec<Output>) -> (r: Vec<u64>)
    ensures
        r@ == output_words(v@),
{
    let mut r: Vec<u64> = Vec::new();
    let mut i: usize = 0;
    while i < v.len()
        invariant
            i <= v@.len(),
            r@.len() == i,
            forall|j: int| 0 <= j < i ==> r@[j] == spec_output_digest(#[trigger] v@[j]).value,
        decreases v@.len() - i,
    {
        let h = v[i].digest();
        r.push(h.value);
        i = i + 1;
    }
    proof {
        assert(r@ =~= output_words(v@));
    }
    r
}

/// The digest words of an activity bitmap.
pub fn bool_words_exec(v: &Vec<bool>) -> (r: Vec<u64>)
    ensures
        r@ == bool_words(v@),
{
    let mut r: Vec<u64> = Vec::new();
    let mut i: usize = 0;
    while i < v.len()
        invariant
            i <= v@.len(),
            r@.len() == i,
            forall|j: int| 0 <= j < i ==> r@[j] == (if v@[j] { 1u64 } else { 0u64 }),
        decreases v@.len() - i,
    {
        let w: u64 = if v[i] { 1 } else { 0 };
        r.push(w);
        i = i + 1;
    }
    proof {
        assert(r@ =~= bool_words(v@));
    }
    r
}

impl Transaction {
    /// The hashes of the outputs this transaction spends.
    pub fn txins(&self) -> (r: Vec<Digest>)
        ensures
            r@ == spec_txins(self@),
    {
        let r = match self {
            Transaction::CoinbaseTransaction(_) => Vec::new(),
            Transaction::PaymentTransaction(t) => copy_vec(&t.txins),
            Transaction::RestakeTransaction(t) => copy_vec(&t.txins),
            Transaction::SlashingTransaction(t) => copy_vec(&t.txins),
            Transaction::ServiceAwardTransaction(_) => Vec::new(),
        };
        proof {
            assert(r@ =~= spec_txins(self@));
        }
        r
    }

    /// The outputs this transaction creates.
    pub fn txouts(&self) -> (r: &Vec<Output>)
        ensures
            r@ == spec_txouts(self@),
    {
        match self {
            Transaction::CoinbaseTransaction(t) => &t.txouts,
            Transaction::PaymentTransaction(t) => &t.txouts,
            Transaction::RestakeTransaction(t) => &t.txouts,
            Transaction::SlashingTransaction(t) => &t.txouts,
            Transaction::ServiceAwardTransaction(t) => &t.winner_reward,
        }
    }

    /// The blinding-factor delta this transaction contributes.
    pub fn gamma(&self) -> (r: Fr)
        ensures
            r == spec_tx_gamma(self@),
    {
        match self {
            Transaction::CoinbaseTransaction(t) => t.gamma,
            Transaction::PaymentTransaction(t) => t.gamma,
            _ => Fr { value: 0 },
        }
    }

    /// The reward this transaction mints.
    pub fn reward(&self) -> (r: i64)
        ensures
            r == spec_tx_reward(self@),
    {
        match self {
            Transaction::CoinbaseTransaction(t) => t.block_reward,
            _ => 0,
        }
    }

    /// The digest of this transaction.
    pub fn digest(&self) -> (r: Digest)
        ensures
            r == spec_tx_digest(self@),
    {
        match self {
            Transaction::CoinbaseTransaction(t) => {
                let a = mix64_exec(MIX_SEED, 21);
                let b = mix64_exec(a, t.block_reward as u64);
                let c = mix64_exec(b, t.block_fee as u64);
                let d = mix64_exec(c, t.gamma.value);
                let ows = output_words_exec(&t.txouts);
                Digest { value: fold_words_exec(d, &ows) }
            },
            Transaction::PaymentTransaction(t) => {
                let a = mix64_exec(MIX_SEED, 22);
                let b = mix64_exec(a, t.gamma.value);
                let c = mix64_exec(b, t.fee as u64);
                let iws = digest_words_exec(&t.txins);
                let d = fold_words_exec(c, &iws);
                let ows = output_words_exec(&t.txouts);
                Digest { value: fold_words_exec(d, &ows) }
            },
            Transaction::RestakeTransaction(t) => {
                let a = mix64_exec(MIX_SEED, 23);
                let iws = digest_words_exec(&t.txins);
                let b = fold_words_exec(a, &iws);
                let ows = output_words_exec(&t.txouts);
                Digest { value: fold_words_exec(b, &ows) }
            },
            Transaction::SlashingTransaction(t) => {
                let a = mix64_exec(MIX_SEED, 24);
                let b = mix64_exec(a, t.cheater.value);
                let iws = digest_words_exec(&t.txins);
                let c = fold_words_exec(b, &iws);
                let ows = output_words_exec(&t.txouts);
                Digest { value: fold_words_exec(c, &ows) }
            },
            Transaction::ServiceAwardTransaction(t) => {
                let a = mix64_exec(MIX_SEED, 25);
                let ows = output_words_exec(&t.winner_reward);
                Digest { value: fold_words_exec(a, &ows) }
            },
        }
    }
}

impl Clone for Transaction {
    /// A copy with the same view.
    fn clone(&self) -> (r: Self)
        ensures
            r@ == self@,
    {
        match self {
            Transaction::CoinbaseTransaction(t) => Transaction::CoinbaseTransaction(
                CoinbaseTransaction {
                    block_reward: t.block_reward,
                    block_fee: t.block_fee,
                    gamma: t.gamma,
                    txouts: copy_vec(&t.txouts),
                },
            ),
            Transaction::PaymentTransaction(t) => Transaction::PaymentTransaction(
                PaymentTransaction {
                    txins: copy_vec(&t.txins),
                    txouts: copy_vec(&t.txouts),
                    gamma: t.gamma,
                    fee: t.fee,
                },
            ),
            Transaction::RestakeTransaction(t) => Transaction::RestakeTransaction(
                RestakeTransaction { txins: copy_vec(&t.txins), txouts: copy_vec(&t.txouts) },
            ),
            Transaction::SlashingTransaction(t) => Transaction::SlashingTransaction(
                SlashingTransaction {
                    cheater: t.cheater,
                    txins: copy_vec(&t.txins),
                    txouts: copy_vec(&t.txouts),
                },
            ),
            Transaction::ServiceAwardTransaction(t) => Transaction::ServiceAwardTransaction(
                ServiceAwardTransaction { winner_reward: copy_vec(&t.winner_reward) },
            ),
        }
    }
}

/// Bitmap of validator activity over an epoch, indexed by validator slot.
#[derive(PartialEq, Eq, Debug)]
pub struct ActivityMap {
    pub bits: Vec<bool>,
}

impl View for ActivityMap {
    type V = Seq<bool>;

    open spec fn view(&self) -> Seq<bool> {
        self.bits@
    }
}

impl ActivityMap {
    /// A bitmap of `n` set bits.
    pub fn ones(n: usize) -> (r: ActivityMap)
        ensures
            r@.len() == n,
            forall|i: int| 0 <= i < n ==> r@[i],
    {
        let mut bits: Vec<bool> = Vec::new();
        let mut i: usize = 0;
        while i < n
            invariant
                i <= n,
                bits@.len() == i,
                forall|j: int| 0 <= j < i ==> bits@[j],
            decreases n - i,
        {
            bits.push(true);
            i = i + 1;
        }
        ActivityMap { bits }
    }

    /// A bitmap of `n` cleared bits.
    pub fn zeros(n: usize) -> (r: ActivityMap)
        ensures
            r@.len() == n,
            forall|i: int| 0 <= i < n ==> !r@[i],
    {
        let mut bits: Vec<bool> = Vec::new();
        let mut i: usize = 0;
        while i < n
            invariant
                i <= n,
                bits@.len() == i,
                forall|j: int| 0 <= j < i ==> !bits@[j],
            decreases n - i,
        {
            bits.push(false);
            i = i + 1;
        }
        ActivityMap { bits }
    }

    /// Whether bit `i` is set; out-of-range bits read as cleared.
    pub fn contains(&self, i: usize) -> (r: bool)
        ensures
            r == (i < self@.len() && self@[i as int]),
    {
        i < self.bits.len() && self.bits[i]
    }

    /// Clear bit `i`.
    pub fn remove(&mut self, i: usize)
        requires
            i < old(self)@.len(),
        ensures
            final(self)@ == old(self)@.update(i as int, false),
    {
        self.bits.set(i, false);
    }

    /// Number of bits.
    pub fn len(&self) -> (r: usize)
        ensures
            r == self@.len(),
    {
        self.bits.len()
    }
}

impl Clone for ActivityMap {
    /// A copy with the same view.
    fn clone(&self) -> (r: Self)
        ensures
            r@ == self@,
    {
        ActivityMap { bits: copy_vec(&self.bits) }
    }
}

/// Header of a macro block.
#[derive(PartialEq, Eq, Debug)]
pub struct MacroBlockHeader {
    pub version: u64,
    pub epoch: u64,
    pub previous: Digest,
    pub view_change: u32,
    pub pkey: NetworkKey,
    pub random: Vrf,
    pub difficulty: u64,
    pub timestamp: Timestamp,
    pub block_reward: i64,
    pub gamma: Fr,
    pub activity_map: ActivityMap,
}

/// The mathematical content of a macro-block header.
pub struct MacroBlockHeaderView {
    pub version: u64,
    pub epoch: u64,
    pub previous: Digest,
    pub view_change: u32,
    pub pkey: NetworkKey,
    pub random: Vrf,
    pub difficulty: u64,
    pub timestamp: Timestamp,
    pub block_reward: i64,
    pub gamma: Fr,
    pub activity_map: Seq<bool>,
}

impl View for MacroBlockHeader {
    type V = MacroBlockHeaderView;

    open spec fn view(&self) -> MacroBlockHeaderView {
        MacroBlockHeaderView {
            version: self.version,
            epoch: self.epoch,
            previous: self.previous,
            view_change: self.view_change,
            pkey: self.pkey,
            random: self.random,
            difficulty: self.difficulty,
            timestamp: self.timestamp,
            block_reward: self.block_reward,
            gamma: self.gamma,
            activity_map: self.activity_map@,
        }
    }
}

impl Clone for MacroBlockHeader {
    /// A copy with the same view.
    fn clone(&self) -> (r: Self)
        ensures
            r@ == self@,
    {
        MacroBlockHeader {
            version: self.version,
            epoch: self.epoch,
            previous: self.previous,
            view_change: self.view_change,
            pkey: self.pkey,
            random: self.random,
            difficulty: self.difficulty,
            timestamp: self.timestamp,
            block_reward: self.block_reward,
            gamma: self.gamma,
            activity_map: self.activity_map.clone(),
        }
    }
}

/// An irreversible block that closes an epoch: flat spent hashes and created
/// outputs, aggregated over the whole epoch.
#[derive(PartialEq, Eq, Debug)]
pub struct MacroBlock {
    pub header: MacroBlockHeader,
    pub inputs: Vec<Digest>,
    pub outputs: Vec<Output>,
}

/// The mathematical content of a macro block.
pub struct MacroBlockView {
    pub header: MacroBlockHeaderView,
    pub inputs: Seq<Digest>,
    pub outputs: Seq<Output>,
}

impl View for MacroBlock {
    type V = MacroBlockView;

    open spec fn view(&self) -> MacroBlockView {
        MacroBlockView { header: self.header@, inputs: self.inputs@, outputs: self.outputs@ }
    }
}

impl Clone for MacroBlock {
    /// A copy with the same view.
    fn clone(&self) -> (r: Self)
        ensures
            r@ == self@,
    {
        MacroBlock {
            header: self.header.clone(),
            inputs: copy_vec(&self.inputs),
            outputs: copy_vec(&self.outputs),
        }
    }
}

/// Header of a micro block.
#[derive(Clone, Copy, PartialEq, Eq, Structural, Debug)]
pub struct MicroBlockHeader {
    pub version: u64,
    pub epoch: u64,
    pub offset: u32,
    pub previous: Digest,
    pub view_change: u32,
    pub pkey: NetworkKey,
    pub random: Vrf,
    pub timestamp: Timestamp,
}

/// A reversible block inside an epoch: a list of transactions.
#[derive(PartialEq, Eq, Debug)]
pub struct MicroBlock {
    pub header: MicroBlockHeader,
    pub transactions: Vec<Transaction>,
}

/// The mathematical content of a micro block.
pub struct MicroBlockView {
    pub header: MicroBlockHeader,
    pub transactions: Seq<TransactionView>,
}

impl View for MicroBlock {
    type V = MicroBlockView;

    open spec fn view(&self) -> MicroBlockView {
        MicroBlockView { header: self.header, transactions: self.transactions.deep_view() }
    }
}

impl Clone for MicroBlock {
    /// A copy with the same view.
    fn clone(&self) -> (r: Self)
        ensures
            r@ == self@,
    {
        let mut txs: Vec<Transaction> = Vec::new();
        let mut i: usize = 0;
        while i < self.transactions.len()
            invariant
                i <= self.transactions@.len(),
                txs@.len() == i,
                forall|j: int| 0 <= j < i ==> (#[trigger] txs@[j])@ == self.transactions@[j]@,
            decreases self.transactions@.len() - i,
        {
            let tx = self.transactions[i].clone();
            txs.push(tx);
            i = i + 1;
        }
        let r = MicroBlock { header: self.header, transactions: txs };
        proof {
            assert forall|j: int|
                0 <= j < txs@.len() implies txs.deep_view()[j]
                == self.transactions.deep_view()[j] by {
                assert(txs@[j]@ == self.transactions@[j]@);
            }
            assert(txs.deep_view() =~= self.transactions.deep_view());
        }
        r
    }
}

/// Any block.
#[derive(PartialEq, Eq, Debug)]
pub enum Block {
    MacroBlock(MacroBlock),
    MicroBlock(MicroBlock),
}

/// The mathematical content of any block.
pub enum BlockView {
    MacroBlock(MacroBlockView),
    MicroBlock(MicroBlockView),
}

impl View for Block {
    type V = BlockView;

    open spec fn view(&self) -> BlockView {
        match self {
            Block::MacroBlock(b) => BlockView::MacroBlock(b@),
            Block::MicroBlock(b) => BlockView::MicroBlock(b@),
        }
    }
}

impl Clone for Block {
    /// A copy with the same view.
    fn clone(&self) -> (r: Self)
        ensures
            r@ == self@,
    {
        match self {
            Block::MacroBlock(b) => Block::MacroBlock(b.clone()),
            Block::MicroBlock(b) => Block::MicroBlock(b.clone()),
        }
    }
}

impl DeepView for Block {
    type V = BlockView;

    open spec fn deep_view(&self) -> BlockView {
        self.view()
    }
}

/// The scalar words of a macro-block header, in digest order.
pub open spec fn macro_header_words(h: MacroBlockHeaderView) -> Seq<u64> {
    seq![
        h.version,
        h.epoch,
        h.previous.value,
        h.view_change as u64,
        h.pkey.value,
        h.random.rand.value,
        h.difficulty,
        h.timestamp.millis,
        h.block_reward as u64,
        h.gamma.value,
    ]
}

/// The digest of a macro block.
pub open spec fn spec_macro_digest(b: MacroBlockView) -> Digest {
    Digest {
        value: fold_words(
            fold_words(
                fold_words(
                    fold_words(mix64(MIX_SEED, 10), macro_header_words(b.header)),
                    bool_words(b.header.activity_map),
                ),
                digest_words(b.inputs),
            ),
            output_words(b.outputs),
        ),
    }
}

/// The scalar words of a micro-block header, in digest order.
pub open spec fn micro_header_words(h: MicroBlockHeader) -> Seq<u64> {
    seq![
        h.version,
        h.epoch,
        h.offset as u64,
        h.previous.value,
        h.view_change as u64,
        h.pkey.value,
        h.random.rand.value,
        h.timestamp.millis,
    ]
}

/// The digest of a micro block.
pub open spec fn spec_micro_digest(b: MicroBlockView) -> Digest {
    Digest {
        value: fold_words(
            fold_words(mix64(MIX_SEED, 11), micro_header_words(b.header)),
            tx_words(b.transactions),
        ),
    }
}

/// The digest of any block.
pub open spec fn spec_block_digest(b: BlockView) -> Digest {
    match b {
        BlockView::MacroBlock(m) => spec_macro_digest(m),
        BlockView::MicroBlock(m) => spec_micro_digest(m),
    }
}

/// The epoch a block belongs to.
pub open spec fn spec_block_epoch(b: BlockView) -> u64 {
    match b {
        BlockView::MacroBlock(m) => m.header.epoch,
        BlockView::MicroBlock(m) => m.header.epoch,
    }
}

impl MacroBlock {
    /// The digest of this block.
    pub fn digest(&self) -> (r: Digest)
        ensures
            r == spec_macro_digest(self@),
    {
        let h = &self.header;
        let mut ws: Vec<u64> = Vec::new();
        ws.push(h.version);
        ws.push(h.epoch);
        ws.push(h.previous.value);
        ws.push(h.view_change as u64);
        ws.push(h.pkey.value);
        ws.push(h.random.rand.value);
        ws.push(h.difficulty);
        ws.push(h.timestamp.millis);
        ws.push(h.block_reward as u64);
        ws.push(h.gamma.value);
        proof {
            assert(ws@ =~= macro_header_words(self.header@));
        }
        let a = mix64_exec(MIX_SEED, 10);
        let b = fold_words_exec(a, &ws);
        let bw = bool_words_exec(&h.activity_map.bits);
        let c = fold_words_exec(b, &bw);
        let iw = digest_words_exec(&self.inputs);
        let d = fold_words_exec(c, &iw);
        let ow = output_words_exec(&self.outputs);
        Digest { value: fold_words_exec(d, &ow) }
    }

    /// An empty macro block: no inputs, no outputs, zero aggregates.
    pub fn empty(
        previous: Digest,
        epoch: u64,
        view_change: u32,
        pkey: NetworkKey,
        random: Vrf,
        timestamp: Timestamp,
        block_reward: i64,
        activity_map: ActivityMap,
    ) -> (r: MacroBlock)
        ensures
            r@.header.version == VERSION,
            r@.header.epoch == epoch,
            r@.header.previous == previous,
            r@.header.view_change == view_change,
            r@.header.pkey == pkey,
            r@.header.random == random,
            r@.header.difficulty == 0,
            r@.header.timestamp == timestamp,
            r@.header.block_reward == block_reward,
            r@.header.gamma == (Fr { value: 0u64 }),
            r@.header.activity_map == activity_map@,
            r@.inputs == Seq::<Digest>::empty(),
            r@.outputs == Seq::<Output>::empty(),
    {
        let r = MacroBlock {
            header: MacroBlockHeader {
                version: VERSION,
                epoch,
                previous,
                view_change,
                pkey,
                random,
                difficulty: 0,
                timestamp,
                block_reward,
                gamma: Fr { value: 0 },
                activity_map,
            },
            inputs: Vec::new(),
            outputs: Vec::new(),
        };
        proof {
            assert(r.inputs@ =~= Seq::<Digest>::empty());
            assert(r.outputs@ =~= Seq::<Output>::empty());
        }
        r
    }
}

impl MicroBlock {
    /// The digest of this block.
    pub fn digest(&self) -> (r: Digest)
        ensures
            r == spec_micro_digest(self@),
    {
        let h = &self.header;
        let mut ws: Vec<u64> = Vec::new();
        ws.push(h.version);
        ws.push(h.epoch);
        ws.push(h.offset as u64);
        ws.push(h.previous.value);
        ws.push(h.view_change as u64);
        ws.push(h.pkey.value);
        ws.push(h.random.rand.value);
        ws.push(h.timestamp.millis);
        proof {
            assert(ws@ =~= micro_header_words(self.header));
        }
        let a = mix64_exec(MIX_SEED, 11);
        let b = fold_words_exec(a, &ws);
        let mut tw: Vec<u64> = Vec::new();
        let mut i: usize = 0;
        while i < self.transactions.len()
            invariant
                i <= self.transactions@.len(),
                tw@.len() == i,
                forall|j: int|
                    0 <= j < i ==> tw@[j] == spec_tx_digest(
                        #[trigger] self.transactions.deep_view()[j],
                    ).value,
            decreases self.transactions@.len() - i,
        {
            let d = self.transactions[i].digest();
            proof {
                assert(self.transactions.deep_view()[i as int] == self.transactions@[i as int]@);
            }
            tw.push(d.value);
            i = i + 1;
        }
        proof {
            assert(tw@ =~= tx_words(self.transactions.deep_view()));
        }
        Digest { value: fold_words_exec(b, &tw) }
    }
}

impl Block {
    /// The digest of this block.
    pub fn digest(&self) -> (r: Digest)
        ensures
            r == spec_block_digest(self@),
    {
        match self {
            Block::MacroBlock(b) => b.digest(),
            Block::MicroBlock(b) => b.digest(),
        }
    }

    /// The epoch this block belongs to.
    pub fn epoch(&self) -> (r: u64)
        ensures
            r == spec_block_epoch(self@),
    {
        match self {
            Block::MacroBlock(b) => b.header.epoch,
            Block::MicroBlock(b) => b.header.epoch,
        }
    }

    /// This block as a micro block.
    pub fn unwrap_micro(self) -> (r: MicroBlock)
        requires
            self@ is MicroBlock,
        ensures
            self@ == BlockView::MicroBlock(r@),
    {
        match self {
            Block::MicroBlock(b) => b,
            Block::MacroBlock(_) => unreached(),
        }
    }

    /// This block as a macro block.
    pub fn unwrap_macro(self) -> (r: MacroBlock)
        requires
            self@ is MacroBlock,
        ensures
            self@ == BlockView::MacroBlock(r@),
    {
        match self {
            Block::MacroBlock(b) => b,
            Block::MicroBlock(_) => unreached(),
        }
    }
}

} // verus!
