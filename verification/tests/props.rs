//! Scenario tests for the stated properties of the ledger.

use ledger_core::block::ActivityMap;
use ledger_core::block::MacroBlock;
use ledger_core::block::MacroBlockHeader;
use ledger_core::block::MicroBlock;
use ledger_core::block::MicroBlockHeader;
use ledger_core::block::SlashingTransaction;
use ledger_core::block::Transaction;
use ledger_core::block::VERSION;
use ledger_core::blockchain::Blockchain;
use ledger_core::blockchain::ViewChangeProof;
use ledger_core::config::ChainConfig;
use ledger_core::crypto::AccountKey;
use ledger_core::crypto::AccountSecret;
use ledger_core::crypto::Digest;
use ledger_core::crypto::Fr;
use ledger_core::crypto::NetworkKey;
use ledger_core::crypto::Vrf;
use ledger_core::election::select_validators_slots;
use ledger_core::error::BlockchainError;
use ledger_core::output::Output;
use ledger_core::output::PaymentOutput;
use ledger_core::output::StakeOutput;
use ledger_core::storage::ListDb;
use ledger_core::timestamp::Timestamp;

fn make_genesis(min_stake: i64, total: i64, n: usize, ts: Timestamp) -> (Vec<(AccountSecret, AccountKey, NetworkKey)>, MacroBlock) {
    let mut keychains = Vec::new();
    let mut outputs = Vec::new();
    for i in 0..n {
        let skey = AccountSecret { value: 1000 + i as u64 };
        let pkey = AccountKey { value: 1000 + i as u64 };
        let network = NetworkKey { value: 2000 + i as u64 };
        outputs.push(Output::StakeOutput(StakeOutput {
            validator: network,
            recipient: pkey,
            amount: min_stake,
        }));
        keychains.push((skey, pkey, network));
    }
    let g: u64 = 424_242;
    let payment = total - min_stake * n as i64;
    outputs.push(Output::PaymentOutput(PaymentOutput::new(
        keychains[0].1,
        payment,
        Fr { value: g },
    )));
    let header = MacroBlockHeader {
        version: VERSION,
        epoch: 0,
        previous: Digest::genesis_seed(),
        view_change: 0,
        pkey: keychains[0].2,
        random: Vrf { rand: Digest::digest_u64(7) },
        difficulty: 0,
        timestamp: ts,
        block_reward: total,
        gamma: Fr { value: g.wrapping_neg() },
        activity_map: ActivityMap::zeros(0),
    };
    (keychains, MacroBlock { header, inputs: Vec::new(), outputs })
}

/// Seal the current epoch, optionally spending `input` into the given
/// outputs; retries the randomness until the award draw stays empty.
fn seal_with(
    chain: &mut Blockchain,
    leader: NetworkKey,
    ts: Timestamp,
    inputs: Vec<Digest>,
    outputs: Vec<Output>,
    gamma: Fr,
    extra_reward_output: bool,
) -> MacroBlock {
    let full: i64 = chain.cfg().block_reward * (chain.cfg().micro_blocks_in_epoch as i64 + 1);
    let vals0 = chain.validators_at_epoch_start().len();
    let mut salt: u64 = 0;
    loop {
        let mut outs = outputs.clone();
        let mut g = gamma;
        if extra_reward_output {
            let g3: u64 = 555u64.wrapping_add(salt.wrapping_mul(6151));
            outs.push(Output::PaymentOutput(PaymentOutput::new(
                AccountKey { value: 1 },
                full,
                Fr { value: g3 },
            )));
            g = Fr { value: g.value.wrapping_sub(g3) };
        }
        let header = MacroBlockHeader {
            version: VERSION,
            epoch: chain.epoch(),
            previous: chain.last_macro_block_hash(),
            view_change: 0,
            pkey: leader,
            random: Vrf { rand: Digest::digest_u64(91_000u64.wrapping_add(salt)) },
            difficulty: 0,
            timestamp: ts,
            block_reward: full,
            gamma: g,
            activity_map: ActivityMap::ones(vals0),
        };
        let block = MacroBlock { header, inputs: inputs.clone(), outputs: outs };
        match chain.push_macro_block(block.clone(), ts) {
            Ok(_) => return block,
            Err(_) => {
                salt += 1;
                assert!(salt < 512, "no sealing randomness found");
            }
        }
    }
}

#[test]
fn escrow_lock() {
    // Stake at epoch 1 with a two-epoch maturity: unstaking at epoch 2 is
    // refused with the locked balance, at epoch 3 it is allowed.
    let ts0 = Timestamp::from_millis(10);
    let mut cfg: ChainConfig = Default::default();
    cfg.stake_epochs = 2;
    let (keychains, genesis) = make_genesis(cfg.min_stake_amount, 10 * cfg.min_stake_amount, 1, ts0);
    let mut chain = Blockchain::new(cfg.clone(), ListDb::new(), true, genesis.clone(), ts0)
        .expect("Failed to create blockchain");
    assert_eq!(1, chain.epoch());

    // Seal epoch 1 with a macro block that turns the genesis payment into a
    // fresh stake for a second validator.
    let pay = genesis.outputs.last().unwrap();
    let (pay_hash, pay_amount, pay_gamma) = match pay {
        Output::PaymentOutput(p) => (pay.digest(), p.amount, p.payload_gamma.value),
        _ => panic!("expected payment"),
    };
    let v2 = NetworkKey { value: 7777 };
    let stake_amount: i64 = cfg.min_stake_amount;
    let change: i64 = pay_amount - stake_amount;
    let g_ch: u64 = 313;
    let stake_out = Output::StakeOutput(StakeOutput {
        validator: v2,
        recipient: keychains[0].1,
        amount: stake_amount,
    });
    let change_out = Output::PaymentOutput(PaymentOutput::new(
        keychains[0].1,
        change,
        Fr { value: g_ch },
    ));
    let full: i64 = cfg.block_reward * (cfg.micro_blocks_in_epoch as i64 + 1);
    let reward_gamma: u64 = 717;
    let reward_out = Output::PaymentOutput(PaymentOutput::new(
        keychains[0].1,
        full,
        Fr { value: reward_gamma },
    ));
    let gamma = Fr {
        value: pay_gamma.wrapping_sub(g_ch).wrapping_sub(reward_gamma),
    };
    let mut salt: u64 = 0;
    loop {
        let header = MacroBlockHeader {
            version: VERSION,
            epoch: chain.epoch(),
            previous: chain.last_macro_block_hash(),
            view_change: 0,
            pkey: keychains[0].2,
            random: Vrf { rand: Digest::digest_u64(55_000 + salt) },
            difficulty: 0,
            timestamp: ts0.add_millis(1000 + salt),
            block_reward: full,
            gamma,
            activity_map: ActivityMap::ones(chain.validators_at_epoch_start().len()),
        };
        let block = MacroBlock {
            header,
            inputs: vec![pay_hash],
            outputs: vec![stake_out, change_out, reward_out],
        };
        match chain.push_macro_block(block, ts0) {
            Ok(_) => break,
            Err(_) => {
                salt += 1;
                assert!(salt < 512);
            }
        }
    }
    assert_eq!(2, chain.epoch());

    // The stake was recorded at epoch 1, so it unlocks at epoch 3.
    let spend_stake = vec![stake_out];
    let r = chain.validate_stakes(&spend_stake, &Vec::new());
    match r {
        Err(BlockchainError::StakeIsLocked(v, balance, min)) => {
            assert_eq!(v, v2);
            assert_eq!(balance, 0);
            assert_eq!(min, stake_amount);
        }
        _ => panic!("expected StakeIsLocked"),
    }

    // Seal epoch 2; at epoch 3 the stake is mature.
    seal_with(
        &mut chain,
        keychains[0].2,
        ts0.add_millis(10_000),
        Vec::new(),
        Vec::new(),
        Fr { value: 0 },
        true,
    );
    assert_eq!(3, chain.epoch());
    chain
        .validate_stakes(&spend_stake, &Vec::new())
        .expect("stake is mature");
}

#[test]
fn slashing_removes_leader() {
    let ts0 = Timestamp::from_millis(10);
    let cfg: ChainConfig = Default::default();
    let (keychains, genesis) = make_genesis(cfg.min_stake_amount, 10 * cfg.min_stake_amount, 3, ts0);
    let mut chain = Blockchain::new(cfg, ListDb::new(), true, genesis, ts0)
        .expect("Failed to create blockchain");
    let cheater = keychains[1].2;
    assert!(chain.is_validator(&cheater));
    let escrow_before = chain.escrow_info();

    let tx = Transaction::SlashingTransaction(SlashingTransaction {
        cheater,
        txins: Vec::new(),
        txouts: Vec::new(),
    });
    let block = MicroBlock {
        header: MicroBlockHeader {
            version: VERSION,
            epoch: chain.epoch(),
            offset: chain.offset(),
            previous: chain.last_block_hash(),
            view_change: 0,
            pkey: keychains[0].2,
            random: Vrf { rand: Digest::digest_u64(3_100) },
            timestamp: ts0.add_millis(5),
        },
        transactions: vec![tx],
    };
    chain.push_micro_block(block, ts0).expect("valid block");
    assert!(!chain.is_validator(&cheater));
    assert!(chain.is_validator(&keychains[0].2));
    assert_eq!(escrow_before, chain.escrow_info());
}

#[test]
fn deterministic_election() {
    // Identical stakes, randomness and slot count give the identical result.
    let stakes = vec![
        (NetworkKey { value: 1 }, 100i64),
        (NetworkKey { value: 2 }, 250i64),
        (NetworkKey { value: 3 }, 50i64),
    ];
    let random = Vrf { rand: Digest::digest_u64(4711) };
    let a = select_validators_slots(stakes.clone(), random, 64);
    let b = select_validators_slots(stakes.clone(), random, 64);
    assert_eq!(a.slots, b.slots);
    assert_eq!(a.validators, b.validators);
    assert_eq!(a.facilitator, b.facilitator);
    assert_eq!(a.slots.len(), 64);
    // Every drawn slot belongs to a staker.
    for s in &a.slots {
        assert!(stakes.iter().any(|(k, _)| k == s));
    }
}

#[test]
fn incompatible_genesis() {
    // Re-opening a non-empty log with another genesis is refused.
    let ts0 = Timestamp::from_millis(10);
    let cfg: ChainConfig = Default::default();
    let (_keychains, genesis) = make_genesis(cfg.min_stake_amount, 10 * cfg.min_stake_amount, 1, ts0);
    let chain = Blockchain::new(cfg.clone(), ListDb::new(), true, genesis, ts0)
        .expect("Failed to create blockchain");
    let db = chain.into_log();
    let (_k2, other_genesis) =
        make_genesis(cfg.min_stake_amount, 20 * cfg.min_stake_amount, 2, ts0);
    let r = Blockchain::new(cfg, db, true, other_genesis, ts0);
    match r {
        Err(BlockchainError::IncompatibleGenesis(_, _)) => {}
        _ => panic!("expected IncompatibleGenesis"),
    }
}

#[test]
fn view_change_round_trip() {
    let ts0 = Timestamp::from_millis(10);
    let cfg: ChainConfig = Default::default();
    let (_keychains, genesis) = make_genesis(cfg.min_stake_amount, 10 * cfg.min_stake_amount, 2, ts0);
    let mut chain = Blockchain::new(cfg, ListDb::new(), true, genesis, ts0)
        .expect("Failed to create blockchain");
    assert_eq!(0, chain.view_change());
    chain.set_view_change(3, ViewChangeProof { token: 99 });
    assert_eq!(3, chain.view_change());
    assert_eq!(&Some(ViewChangeProof { token: 99 }), chain.view_change_proof());
    chain.reset_view_change();
    assert_eq!(0, chain.view_change());
    assert!(chain.view_change_proof().is_none());
}

#[test]
fn balance_tracks_blocks() {
    // Per-block and global balance: the recorded totals change by exactly
    // the block's aggregates and keep satisfying the balance equation.
    let ts0 = Timestamp::from_millis(10);
    let cfg: ChainConfig = Default::default();
    let (keychains, genesis) = make_genesis(cfg.min_stake_amount, 10 * cfg.min_stake_amount, 1, ts0);
    let total = 10 * cfg.min_stake_amount;
    let mut chain = Blockchain::new(cfg, ListDb::new(), true, genesis, ts0)
        .expect("Failed to create blockchain");
    let b0 = chain.balance();
    assert_eq!(b0.block_reward, total);
    // The global equation over 64-bit words.
    let lhs = (b0.block_reward as u64)
        .wrapping_add(b0.burned.value.wrapping_sub(b0.created.value));
    assert_eq!(lhs, b0.gamma.value);

    let r0: i64 = 1_000;
    let g1: u64 = 5_000_000;
    let out = Output::PaymentOutput(PaymentOutput::new(keychains[0].1, r0, Fr { value: g1 }));
    let tx = Transaction::CoinbaseTransaction(ledger_core::block::CoinbaseTransaction {
        block_reward: r0,
        block_fee: 0,
        gamma: Fr { value: g1.wrapping_neg() },
        txouts: vec![out],
    });
    let block = MicroBlock {
        header: MicroBlockHeader {
            version: VERSION,
            epoch: chain.epoch(),
            offset: chain.offset(),
            previous: chain.last_block_hash(),
            view_change: 0,
            pkey: keychains[0].2,
            random: Vrf { rand: Digest::digest_u64(1) },
            timestamp: ts0.add_millis(5),
        },
        transactions: vec![tx],
    };
    chain.push_micro_block(block, ts0).expect("valid block");
    let b1 = chain.balance();
    assert_eq!(b1.block_reward, total + r0);
    let lhs = (b1.block_reward as u64)
        .wrapping_add(b1.burned.value.wrapping_sub(b1.created.value));
    assert_eq!(lhs, b1.gamma.value);
    // Rollback restores the exact totals.
    chain.pop_micro_block().expect("no disk errors");
    assert_eq!(b0, chain.balance());
}

#[test]
fn digest_is_deterministic() {
    let a = Digest::digest_u64(12345);
    let b = Digest::digest_u64(12345);
    assert_eq!(a, b);
    assert_ne!(a, Digest::digest_u64(12346));
    let m1 = ledger_core::crypto::mix(a, 4);
    let m2 = ledger_core::crypto::mix(b, 4);
    assert_eq!(m1, m2);
    assert_ne!(m1, ledger_core::crypto::mix(a, 5));
}
