//! Tests of the ordered block log.

use ledger_core::block::ActivityMap;
use ledger_core::block::Block;
use ledger_core::block::MacroBlock;
use ledger_core::crypto::Digest;
use ledger_core::crypto::NetworkKey;
use ledger_core::crypto::Vrf;
use ledger_core::mvm::Lsn;
use ledger_core::storage::ListDb;
use ledger_core::timestamp::Timestamp;

fn create_block(previous: Digest) -> Block {
    let pkey0 = NetworkKey { value: 17 };
    let epoch: u64 = 1;
    let timestamp = Timestamp::from_millis(1_000_000);
    let random = Vrf { rand: Digest::digest_u64(4242) };
    let activity_map = ActivityMap::zeros(0);
    let block_reward = 0;
    let block = MacroBlock::empty(
        previous,
        epoch,
        0,
        pkey0,
        random,
        timestamp,
        block_reward,
        activity_map,
    );
    Block::MacroBlock(block)
}

#[test]
fn push_iter() {
    let previous = Digest::digest_u64(1);
    let block1 = create_block(previous);
    let block2 = create_block(block1.digest());
    let block3 = create_block(block2.digest());
    let blocks = vec![block1, block2, block3];

    let mut db = ListDb::testing();
    for (epoch, block) in blocks.iter().enumerate() {
        db.insert(Lsn(epoch as u64, 0), block.clone());
    }

    for (block, saved) in blocks.iter().zip(db.iter().iter()) {
        match (block, saved) {
            (Block::MacroBlock(b1), Block::MacroBlock(b2)) => {
                assert_eq!(b1.digest(), b2.digest());
            }
            _ => panic!("different blocks found in database and generated."),
        }
    }
}

#[test]
fn iter_starting() {
    let previous = Digest::digest_u64(1);
    let block1 = create_block(previous);
    let block2 = create_block(block1.digest());
    let block3 = create_block(block2.digest());
    let blocks = vec![block1, block2, block3];

    let mut db = ListDb::testing();
    for (epoch, block) in blocks.iter().enumerate() {
        db.insert(Lsn(epoch as u64, 0), block.clone());
    }
    let tail = db.iter_starting(Lsn(2, 0));
    assert_eq!(tail.len(), 1);
    for (block, saved) in blocks.iter().skip(2).zip(tail.iter()) {
        assert_eq!(block.digest(), saved.digest());
    }
}

#[test]
fn iter_order() {
    let previous = Digest::digest_u64(1);
    let block1 = create_block(previous);

    let mut blocks = vec![block1];
    for _i in 0..257 {
        let block = create_block(blocks.last().unwrap().digest());
        blocks.push(block);
    }

    let mut db = ListDb::testing();
    for (epoch, block) in blocks.iter().enumerate() {
        db.insert(Lsn(epoch as u64, 0), block.clone());
    }

    assert_eq!(db.iter().len(), blocks.len());
    for (block, saved) in blocks.iter().zip(db.iter().iter()) {
        assert_eq!(block.digest(), saved.digest());
    }
}
