//! End-to-end tests of the ledger core.

use ledger_core::block::ActivityMap;
use ledger_core::block::Block;
use ledger_core::block::CoinbaseTransaction;
use ledger_core::block::MacroBlock;
use ledger_core::block::MacroBlockHeader;
use ledger_core::block::MicroBlock;
use ledger_core::block::MicroBlockHeader;
use ledger_core::block::PaymentTransaction;
use ledger_core::block::Transaction;
use ledger_core::block::VERSION;
use ledger_core::blockchain::Blockchain;
use ledger_core::config::ChainConfig;
use ledger_core::crypto::AccountKey;
use ledger_core::crypto::AccountSecret;
use ledger_core::crypto::Digest;
use ledger_core::crypto::Fr;
use ledger_core::crypto::NetworkKey;
use ledger_core::crypto::Vrf;
use ledger_core::output::Output;
use ledger_core::output::PaymentOutput;
use ledger_core::output::StakeOutput;
use ledger_core::storage::ListDb;
use ledger_core::timestamp::Timestamp;

pub struct KeyChain {
    pub skey: AccountSecret,
    pub pkey: AccountKey,
    pub network_pkey: NetworkKey,
}

pub fn fake_genesis(
    min_stake: i64,
    total: i64,
    n: usize,
    ts: Timestamp,
) -> (Vec<KeyChain>, MacroBlock) {
    let mut keychains = Vec::new();
    let mut outputs = Vec::new();
    for i in 0..n {
        let kc = KeyChain {
            skey: AccountSecret { value: 1000 + i as u64 },
            pkey: AccountKey { value: 1000 + i as u64 },
            network_pkey: NetworkKey { value: 2000 + i as u64 },
        };
        outputs.push(Output::StakeOutput(StakeOutput {
            validator: kc.network_pkey,
            recipient: kc.pkey,
            amount: min_stake,
        }));
        keychains.push(kc);
    }
    let g: u64 = 987_654_321;
    let payment = total - min_stake * n as i64;
    outputs.push(Output::PaymentOutput(PaymentOutput::new(
        keychains[0].pkey,
        payment,
        Fr { value: g },
    )));
    let header = MacroBlockHeader {
        version: VERSION,
        epoch: 0,
        previous: Digest::genesis_seed(),
        view_change: 0,
        pkey: keychains[0].network_pkey,
        random: Vrf { rand: Digest::digest_u64(7) },
        difficulty: 0,
        timestamp: ts,
        block_reward: total,
        gamma: Fr { value: g.wrapping_neg() },
        activity_map: ActivityMap::zeros(0),
    };
    (keychains, MacroBlock { header, inputs: Vec::new(), outputs })
}

/// A payment output the test knows how to spend: digest, amount, gamma word.
pub type Spendable = (Digest, i64, u64);

pub fn genesis_payment(genesis: &MacroBlock) -> Spendable {
    let last = genesis.outputs.last().unwrap();
    match last {
        Output::PaymentOutput(p) => (last.digest(), p.amount, p.payload_gamma.value),
        _ => panic!("genesis ends with a payment output"),
    }
}

pub fn coinbase_micro(chain: &Blockchain, kc: &KeyChain, ts: Timestamp, salt: u64) -> MicroBlock {
    let r0: i64 = chain.cfg().block_reward;
    let g1: u64 = 5_000_000u64.wrapping_add(salt.wrapping_mul(7919));
    let out = Output::PaymentOutput(PaymentOutput::new(kc.pkey, r0, Fr { value: g1 }));
    let tx = Transaction::CoinbaseTransaction(CoinbaseTransaction {
        block_reward: r0,
        block_fee: 0,
        gamma: Fr { value: g1.wrapping_neg() },
        txouts: vec![out],
    });
    MicroBlock {
        header: MicroBlockHeader {
            version: VERSION,
            epoch: chain.epoch(),
            offset: chain.offset(),
            previous: chain.last_block_hash(),
            view_change: 0,
            pkey: kc.network_pkey,
            random: Vrf { rand: Digest::digest_u64(900u64.wrapping_add(salt)) },
            timestamp: ts,
        },
        transactions: vec![tx],
    }
}

/// A micro block with the usual coinbase that also spends `spend` into a
/// fresh payment output.
pub fn payment_micro(
    chain: &Blockchain,
    kc: &KeyChain,
    ts: Timestamp,
    spend: Spendable,
    salt: u64,
) -> (MicroBlock, Vec<Digest>, Vec<Digest>, Spendable) {
    let r0: i64 = chain.cfg().block_reward;
    let g1: u64 = 9_000_000u64.wrapping_add(salt.wrapping_mul(7919));
    let cb_out = Output::PaymentOutput(PaymentOutput::new(kc.pkey, r0, Fr { value: g1 }));
    let cb_hash = cb_out.digest();
    let coinbase = Transaction::CoinbaseTransaction(CoinbaseTransaction {
        block_reward: r0,
        block_fee: 0,
        gamma: Fr { value: g1.wrapping_neg() },
        txouts: vec![cb_out],
    });
    let g2: u64 = 7_000_000u64.wrapping_add(salt.wrapping_mul(104729));
    let out = PaymentOutput::new(kc.pkey, spend.1, Fr { value: g2 });
    let out = Output::PaymentOutput(out);
    let new_spend = (out.digest(), spend.1, g2);
    let tx = Transaction::PaymentTransaction(PaymentTransaction {
        txins: vec![spend.0],
        txouts: vec![out],
        gamma: Fr { value: spend.2.wrapping_sub(g2) },
        fee: 0,
    });
    let block = MicroBlock {
        header: MicroBlockHeader {
            version: VERSION,
            epoch: chain.epoch(),
            offset: chain.offset(),
            previous: chain.last_block_hash(),
            view_change: 0,
            pkey: kc.network_pkey,
            random: Vrf { rand: Digest::digest_u64(1700u64.wrapping_add(salt)) },
            timestamp: ts,
        },
        transactions: vec![coinbase, tx],
    };
    (block, vec![spend.0], vec![cb_hash, new_spend.0], new_spend)
}

#[test]
fn basic() {
    let timestamp = Timestamp::from_millis(10);
    let cfg: ChainConfig = Default::default();
    let (keychains, block1) = fake_genesis(cfg.min_stake_amount, 10 * cfg.min_stake_amount, 3, timestamp);
    let blockchain = Blockchain::new(cfg, ListDb::new(), false, block1.clone(), timestamp)
        .expect("Failed to create blockchain");
    let outputs: Vec<Output> = block1.outputs.clone();
    let mut unspent: Vec<Digest> = outputs.iter().map(|o| o.digest()).collect();
    unspent.sort();
    let mut unspent2: Vec<Digest> = blockchain.unspent();
    unspent2.sort();
    assert_eq!(unspent, unspent2);

    let validators = blockchain
        .escrow
        .get_stakers_majority(blockchain.epoch(), cfg.min_stake_amount);
    assert_eq!(validators.len(), keychains.len());
    for keychain in &keychains {
        let stake = validators
            .iter()
            .find(|(k, _)| *k == keychain.network_pkey)
            .expect("exists")
            .1;
        assert_eq!(stake, cfg.min_stake_amount);
    }
    assert_eq!(blockchain.last_block_hash(), block1.digest());

    let blocks2: Vec<Block> = blockchain.blocks();
    assert_eq!(blocks2.len(), 1);
    assert_eq!(blocks2[0].digest(), block1.digest());

    assert!(blockchain.contains_block(&block1.digest()));
    assert!(!blockchain.contains_block(&Digest::digest_u64(999)));

    assert_eq!(blockchain.macro_block(0).unwrap().digest(), block1.digest());

    assert!(!blockchain.contains_output(&Digest::digest_u64(999)));
    assert!(blockchain
        .output_by_hash(&Digest::digest_u64(999))
        .expect("no disk errors")
        .is_none());
    for output in block1.outputs.iter() {
        let output_hash = output.digest();
        let output2 = blockchain
            .output_by_hash(&output_hash)
            .expect("no disk errors")
            .expect("exists");
        assert_eq!(output2.digest(), output_hash);
        assert!(blockchain.contains_output(&output_hash));
    }
}

#[test]
fn iterate() {
    const NUM_NODES: usize = 32;
    const STAKE_EPOCHS: u64 = 2;
    const EPOCHS: u64 = 10;

    let mut cfg: ChainConfig = Default::default();
    cfg.stake_epochs = STAKE_EPOCHS;
    cfg.micro_blocks_in_epoch = 2;
    let mut timestamp = Timestamp::from_millis(10);
    let (keychains, genesis) = fake_genesis(
        cfg.min_stake_amount,
        (NUM_NODES as i64) * cfg.min_stake_amount + 100,
        NUM_NODES,
        timestamp,
    );
    let mut chain = Blockchain::new(cfg.clone(), ListDb::new(), true, genesis.clone(), timestamp)
        .expect("Failed to create blockchain");
    let mut spend = genesis_payment(&genesis);
    let mut salt: u64 = 0;

    for _epoch in 0..EPOCHS {
        let epoch = chain.epoch();
        let mut payments: Vec<Spendable> = Vec::new();

        // Non-empty block.
        timestamp = timestamp.add_millis(7_000);
        salt += 1;
        let (block, input_hashes, output_hashes, next) =
            payment_micro(&chain, &keychains[0], timestamp, spend, salt);
        payments.push(next);
        let hash = block.digest();
        let offset = chain.offset();
        chain.push_micro_block(block, timestamp).expect("no I/O errors");
        assert_eq!(hash, chain.last_block_hash());
        assert_eq!(offset + 1, chain.offset());
        for input_hash in &input_hashes {
            assert!(!chain.contains_output(input_hash));
        }
        for output_hash in &output_hashes {
            assert!(chain.contains_output(output_hash));
        }

        for offset in 1..cfg.micro_blocks_in_epoch {
            // Empty block.
            timestamp = timestamp.add_millis(6_000);
            salt += 1;
            let block = coinbase_micro(&chain, &keychains[0], timestamp, salt);
            let hash = block.digest();
            chain.push_micro_block(block, timestamp).expect("no I/O errors");
            assert_eq!(hash, chain.last_block_hash());
            assert_eq!(offset + 1, chain.offset());
        }

        // Create the sealing macro block from the epoch's transactions,
        // remove all micro blocks, then push it.
        timestamp = timestamp.add_millis(9_000);
        salt += 1;
        let (block, extra_transactions) = chain
            .create_macro_block(
                0,
                &keychains[0].pkey,
                keychains[0].network_pkey,
                Vrf { rand: Digest::digest_u64(40_000 + salt) },
                timestamp,
            )
            .expect("create_macro_block");
        let hash = block.digest();

        // Collect unspent outputs: everything live now plus the extras.
        let mut unspent: Vec<Digest> = chain.unspent();
        for tx in &extra_transactions {
            assert_eq!(tx.txins().len(), 0);
            for output in tx.txouts() {
                unspent.push(output.digest());
            }
        }
        unspent.sort();

        while chain.offset() > 0 {
            chain.pop_micro_block().expect("Should be ok");
        }
        chain.push_macro_block(block, timestamp).expect("Invalid block");
        let mut unspent2: Vec<Digest> = chain.unspent();
        unspent2.sort();
        assert_eq!(unspent, unspent2);
        assert_eq!(hash, chain.last_block_hash());
        assert_eq!(epoch + 1, chain.epoch());
        assert_eq!(0, chain.offset());
        spend = genesis_payment(&genesis);
        assert!(!chain.contains_output(&spend.0));
        // The payment travelled through the epoch: its latest incarnation is
        // the surviving output of the last payment micro block.
        spend = *payments.last().unwrap();
        assert!(chain.contains_output(&spend.0));
    }

    // Recovery.
    let epoch = chain.epoch();
    let offset = chain.offset();
    let block_count = chain.blocks().len();
    let block_hash = chain.last_block_hash();
    let balance = chain.balance();
    let db = chain.into_log();
    let chain = Blockchain::new(cfg, db, true, genesis, timestamp)
        .expect("Failed to create blockchain");
    assert_eq!(epoch, chain.epoch());
    assert_eq!(offset, chain.offset());
    assert_eq!(block_hash, chain.last_block_hash());
    assert_eq!(block_count, chain.blocks().len());
    assert_eq!(balance, chain.balance());
}

#[test]
fn rollback() {
    let mut timestamp = Timestamp::from_millis(10);
    let block_timestamp0 = timestamp;
    let cfg: ChainConfig = Default::default();
    let (keychains, genesis) =
        fake_genesis(cfg.min_stake_amount, 10 * cfg.min_stake_amount, 1, block_timestamp0);
    let block_hash0 = genesis.digest();
    timestamp = timestamp.add_millis(1);
    let mut chain = Blockchain::new(cfg.clone(), ListDb::new(), true, genesis.clone(), timestamp)
        .expect("Failed to create blockchain");
    assert_eq!(1, chain.epoch());
    assert_eq!(0, chain.offset());
    assert_eq!(1, chain.blocks().len());
    assert_eq!(0, chain.view_change());
    assert_eq!(block_hash0, chain.last_block_hash());
    assert_eq!(block_hash0, chain.last_macro_block_hash());
    assert_eq!(block_timestamp0, chain.last_block_timestamp());
    assert_eq!(block_timestamp0, chain.last_macro_block_timestamp());
    let epoch0 = chain.epoch();
    let offset0 = chain.offset();
    let count0 = chain.blocks().len();
    let balance0 = chain.balance();
    let escrow0 = chain.escrow_info();

    // Register a micro block with a payment.
    let spend0 = genesis_payment(&genesis);
    timestamp = timestamp.add_millis(1);
    let block_timestamp1 = timestamp;
    let (block1, input_hashes1, output_hashes1, spend1) =
        payment_micro(&chain, &keychains[0], block_timestamp1, spend0, 1);
    let block_hash1 = block1.digest();
    timestamp = timestamp.add_millis(1);
    chain.push_micro_block(block1, timestamp).expect("no I/O errors");
    assert_eq!(2, chain.blocks().len());
    assert_eq!(1, chain.offset());
    assert_eq!(0, chain.view_change());
    assert_eq!(block_hash1, chain.last_block_hash());
    assert_eq!(block_timestamp1, chain.last_block_timestamp());
    assert_eq!(block_hash0, chain.last_macro_block_hash());
    assert_eq!(block_timestamp0, chain.last_macro_block_timestamp());
    assert_ne!(balance0, chain.balance());
    for input_hash in &input_hashes1 {
        assert!(!chain.contains_output(input_hash));
    }
    for output_hash in &output_hashes1 {
        assert!(chain.contains_output(output_hash));
    }
    let count1 = chain.blocks().len();
    let offset1 = chain.offset();
    let balance1 = chain.balance();
    let escrow1 = chain.escrow_info();

    // Register a second micro block spending the first one's output.
    timestamp = timestamp.add_millis(1);
    let block_timestamp2 = timestamp;
    let (block2, input_hashes2, output_hashes2, _spend2) =
        payment_micro(&chain, &keychains[0], block_timestamp2, spend1, 2);
    let block_hash2 = block2.digest();
    timestamp = timestamp.add_millis(1);
    chain.push_micro_block(block2, timestamp).expect("no I/O errors");
    assert_eq!(1, chain.epoch());
    assert_eq!(2, chain.offset());
    assert_eq!(0, chain.view_change());
    assert_eq!(3, chain.blocks().len());
    assert_eq!(block_hash2, chain.last_block_hash());
    assert_eq!(block_timestamp2, chain.last_block_timestamp());
    assert_eq!(block_hash0, chain.last_macro_block_hash());
    assert_eq!(block_timestamp0, chain.last_macro_block_timestamp());
    assert_ne!(balance1, chain.balance());
    for input_hash in &input_hashes2 {
        assert!(!chain.contains_output(input_hash));
    }
    for output_hash in &output_hashes2 {
        assert!(chain.contains_output(output_hash));
    }

    // Pop micro block #2.
    chain.pop_micro_block().expect("no disk errors");
    assert_eq!(epoch0, chain.epoch());
    assert_eq!(offset1, chain.offset());
    assert_eq!(0, chain.view_change());
    assert_eq!(count1, chain.blocks().len());
    assert_eq!(block_hash1, chain.last_block_hash());
    assert_eq!(block_timestamp1, chain.last_block_timestamp());
    assert_eq!(balance1, chain.balance());
    assert_eq!(escrow1, chain.escrow_info());
    for input_hash in &input_hashes2 {
        assert!(chain.contains_output(input_hash));
    }
    for output_hash in &output_hashes2 {
        assert!(!chain.contains_output(output_hash));
    }

    // Recover after popping micro block #2.
    let db = chain.into_log();
    timestamp = timestamp.add_millis(86_400_000);
    let mut chain = Blockchain::new(cfg.clone(), db, true, genesis.clone(), timestamp)
        .expect("Failed to create blockchain");
    assert_eq!(epoch0, chain.epoch());
    assert_eq!(offset1, chain.offset());
    assert_eq!(0, chain.view_change());
    assert_eq!(count1, chain.blocks().len());
    assert_eq!(block_hash1, chain.last_block_hash());
    assert_eq!(block_timestamp1, chain.last_block_timestamp());
    assert_eq!(balance1, chain.balance());
    assert_eq!(escrow1, chain.escrow_info());

    // Pop micro block #1.
    chain.pop_micro_block().expect("no disk errors");
    assert_eq!(epoch0, chain.epoch());
    assert_eq!(offset0, chain.offset());
    assert_eq!(0, chain.view_change());
    assert_eq!(count0, chain.blocks().len());
    assert_eq!(block_hash0, chain.last_block_hash());
    assert_eq!(block_timestamp0, chain.last_block_timestamp());
    assert_eq!(block_hash0, chain.last_macro_block_hash());
    assert_eq!(block_timestamp0, chain.last_macro_block_timestamp());
    assert_eq!(balance0, chain.balance());
    assert_eq!(escrow0, chain.escrow_info());
    for input_hash in &input_hashes1 {
        assert!(chain.contains_output(input_hash));
    }
    for output_hash in &output_hashes1 {
        assert!(!chain.contains_output(output_hash));
    }

    // Recover after popping micro block #1.
    let db = chain.into_log();
    timestamp = timestamp.add_millis(86_400_000);
    let chain = Blockchain::new(cfg.clone(), db, true, genesis.clone(), timestamp)
        .expect("Failed to create blockchain");
    assert_eq!(epoch0, chain.epoch());
    assert_eq!(offset0, chain.offset());
    assert_eq!(0, chain.view_change());
    assert_eq!(count0, chain.blocks().len());
    assert_eq!(block_hash0, chain.last_block_hash());
    assert_eq!(block_timestamp0, chain.last_block_timestamp());
    assert_eq!(balance0, chain.balance());
    assert_eq!(escrow0, chain.escrow_info());
}

#[test]
fn block_iter_limit() {
    let mut timestamp = Timestamp::from_millis(10);
    let mut cfg: ChainConfig = Default::default();
    cfg.micro_blocks_in_epoch = 100_500;
    let stake = cfg.min_stake_amount;
    let (keychains, blocks) = fake_genesis(stake, 10 * cfg.min_stake_amount, 1, timestamp);
    let mut blockchain = Blockchain::new(cfg, ListDb::new(), true, blocks, timestamp)
        .expect("Failed to create blockchain");
    let epoch = blockchain.epoch();
    let starting_offset = blockchain.offset();
    assert!(blockchain.epoch() > 0);
    for offset in 2..12 {
        timestamp = timestamp.add_millis(1);
        let block = coinbase_micro(&blockchain, &keychains[0], timestamp, offset);
        blockchain.push_micro_block(block, timestamp).expect("Invalid block");
    }

    assert_eq!(
        blockchain.blocks_starting(epoch, starting_offset).iter().take(1).count(),
        1
    );
    assert_eq!(
        blockchain.blocks_starting(epoch, starting_offset).iter().take(4).count(),
        4
    );
    // limit
    assert_eq!(
        blockchain.blocks_starting(epoch, starting_offset).iter().take(20).count(),
        10
    );
    // empty
    assert_eq!(
        blockchain
            .blocks_starting(epoch, blockchain.offset())
            .iter()
            .take(1)
            .count(),
        0
    );
}
