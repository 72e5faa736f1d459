use std::str::FromStr;
use alloy_primitives::keccak256;
use privacy_providers::cache_syncer::{CacheSyncer, RawDeposit, RawWithdrawal};
use privacy_providers::events::{
    commitments_from_logs, commitments_with_topic, decode_deposit, nullifiers_with_topic, decode_withdrawal, deposit_topic, nullifiers_from_logs,
    withdrawal_topic, RawLog, SyncerError,
};
use privacy_providers::primitives::{Address, B256};
use privacy_providers::sync_plan::{
    chained_latest_block, plan_chained_ranges, BatchCursor, ChainedSyncPlan, RpcSyncer, SyncRange,
};

fn range(i: usize, from: u64, to: u64) -> SyncRange {
    SyncRange { syncer_index: i, from_block: from, to_block: to }
}

#[test]
fn chained_ranges_hand_over_between_syncers() {
    // A cache up to block 100, then an RPC node up to block 500.
    let ranges = plan_chained_ranges(&vec![100, 500], 0, 300);
    assert_eq!(ranges, vec![range(0, 0, 100), range(1, 101, 300)]);
    // A syncer behind the start of the request is skipped.
    let ranges = plan_chained_ranges(&vec![10, 500], 50, 300);
    assert_eq!(ranges, vec![range(1, 50, 300)]);
    // The first syncer covers everything: the second is not asked.
    let ranges = plan_chained_ranges(&vec![1000, 500], 0, 300);
    assert_eq!(ranges, vec![range(0, 0, 300)]);
    // Nothing reaches the start.
    assert!(plan_chained_ranges(&vec![1, 2], 10, 20).is_empty());
    // An empty request.
    assert!(plan_chained_ranges(&vec![100], 20, 10).is_empty());
}

#[test]
fn chained_plan_step_by_step() {
    let mut plan = ChainedSyncPlan::new(3, 5, 50);
    assert_eq!(plan.next_syncer(), Some(0));
    assert_eq!(plan.on_latest_block(20), Some(range(0, 5, 20)));
    assert_eq!(plan.next_syncer(), Some(1));
    assert_eq!(plan.on_latest_block(10), None);
    assert_eq!(plan.next_syncer(), Some(2));
    assert_eq!(plan.on_latest_block(60), Some(range(2, 21, 50)));
    assert_eq!(plan.next_syncer(), None);
    let mut failed = ChainedSyncPlan::new(2, 0, 10);
    failed.abort();
    assert_eq!(failed.next_syncer(), None);
}

#[test]
fn chained_latest_block_is_the_largest_report() {
    assert_eq!(chained_latest_block(&vec![Some(5), None, Some(9), Some(7)]), 9);
    assert_eq!(chained_latest_block(&vec![None, None]), 0);
    assert_eq!(chained_latest_block(&vec![]), 0);
}

#[test]
fn batches_cover_the_range() {
    let mut cursor = BatchCursor::new(0, 25, 10);
    assert_eq!(cursor.next_batch(), Some((0, 9)));
    assert_eq!(cursor.next_batch(), Some((10, 19)));
    assert_eq!(cursor.next_batch(), Some((20, 25)));
    assert_eq!(cursor.next_batch(), None);
    assert_eq!(cursor.next_batch(), None);
    let mut single = BatchCursor::new(7, 7, 100_000);
    assert_eq!(single.next_batch(), Some((7, 7)));
    assert_eq!(single.next_batch(), None);
    let mut failing = BatchCursor::new(0, 100, 10);
    assert_eq!(failing.next_batch(), Some((0, 9)));
    failing.fail();
    assert_eq!(failing.next_batch(), None);
    let mut zero = BatchCursor::new(3, 4, 0);
    assert_eq!(zero.next_batch(), Some((3, 3)));
    assert_eq!(zero.next_batch(), Some((4, 4)));
    assert_eq!(zero.next_batch(), None);
}

fn word_u64(v: u64) -> [u8; 32] {
    let mut w = [0u8; 32];
    w[24..].copy_from_slice(&v.to_be_bytes());
    w
}

fn deposit_log(block: u64, commitment: [u8; 32], leaf_index: u32, timestamp: u64) -> RawLog {
    let mut data = word_u64(leaf_index as u64).to_vec();
    data.extend_from_slice(&word_u64(timestamp));
    RawLog {
        block_number: Some(block),
        block_timestamp: None,
        transaction_hash: Some(B256::new([0xee; 32])),
        address: Address::new([0x8c; 20]),
        topics: vec![B256::new(keccak256(b"Deposit(bytes32,uint32,uint256)").0), B256::new(commitment)],
        data,
    }
}

fn withdrawal_log(block: u64, to: [u8; 20], nullifier: [u8; 32], fee: u64) -> RawLog {
    let mut data = vec![0u8; 12];
    data.extend_from_slice(&to);
    data.extend_from_slice(&nullifier);
    data.extend_from_slice(&word_u64(fee));
    RawLog {
        block_number: Some(block),
        block_timestamp: None,
        transaction_hash: None,
        address: Address::new([0x8c; 20]),
        topics: vec![
            B256::new(keccak256(b"Withdrawal(address,bytes32,address,uint256)").0),
            B256::new([0x44; 32]),
        ],
        data,
    }
}

#[test]
fn event_topics_are_signature_hashes() {
    assert_eq!(deposit_topic().bytes, keccak256(b"Deposit(bytes32,uint32,uint256)").0);
    assert_eq!(withdrawal_topic().bytes, keccak256(b"Withdrawal(address,bytes32,address,uint256)").0);
}

#[test]
fn decode_deposit_log() {
    let log = deposit_log(12, [0x21; 32], 7, 1_700_000_000);
    let c = decode_deposit(&log, &deposit_topic()).expect("a deposit");
    assert_eq!(c.block_number, 12);
    assert_eq!(c.tx_hash, B256::new([0xee; 32]));
    assert_eq!(c.commitment, B256::new([0x21; 32]));
    assert_eq!(c.leaf_index, 7);
    assert_eq!(c.timestamp, 1_700_000_000);
    let mut short = log.clone();
    short.data.truncate(63);
    assert!(decode_deposit(&short, &deposit_topic()).is_none());
    let mut extra_topic = log.clone();
    extra_topic.topics.push(B256::new([0; 32]));
    assert!(decode_deposit(&extra_topic, &deposit_topic()).is_none());
    let other = withdrawal_log(1, [1; 20], [2; 32], 3);
    assert!(decode_deposit(&other, &deposit_topic()).is_none());
}

#[test]
fn decode_withdrawal_log() {
    let log = withdrawal_log(30, [0x55; 20], [0x66; 32], 1234);
    let n = decode_withdrawal(&log, &withdrawal_topic()).expect("a withdrawal");
    assert_eq!(n.block_number, 30);
    assert_eq!(n.tx_hash, B256::new([0; 32]));
    assert_eq!(n.to, Address::new([0x55; 20]));
    assert_eq!(n.nullifier, B256::new([0x66; 32]));
    assert_eq!(n.fee, 1234);
    assert_eq!(n.timestamp, 0);
}

#[test]
fn logs_are_filtered_in_order() {
    let logs = vec![
        deposit_log(1, [1; 32], 0, 10),
        withdrawal_log(2, [2; 20], [2; 32], 0),
        deposit_log(3, [3; 32], 1, 30),
    ];
    let commitments = commitments_from_logs(&logs);
    assert_eq!(commitments.len(), 2);
    assert_eq!(commitments[0].commitment, B256::new([1; 32]));
    assert_eq!(commitments[1].commitment, B256::new([3; 32]));
    let nullifiers = nullifiers_from_logs(&logs);
    assert_eq!(nullifiers.len(), 1);
    assert_eq!(nullifiers[0].nullifier, B256::new([2; 32]));
}

fn cache() -> CacheSyncer {
    let deposits = vec![
        RawDeposit { block_number: 10, transaction_hash: B256::new([1; 32]), commitment: B256::new([11; 32]), leaf_index: 0 },
        RawDeposit { block_number: 20, transaction_hash: B256::new([2; 32]), commitment: B256::new([12; 32]), leaf_index: 1 },
        RawDeposit { block_number: 30, transaction_hash: B256::new([3; 32]), commitment: B256::new([13; 32]), leaf_index: 2 },
    ];
    let withdrawals = vec![
        RawWithdrawal {
            block_number: 25,
            transaction_hash: B256::new([4; 32]),
            nullifier_hash: B256::new([21; 32]),
            to: Address::new([9; 20]),
            fee: "1500".to_string(),
        },
        RawWithdrawal {
            block_number: 35,
            transaction_hash: B256::new([5; 32]),
            nullifier_hash: B256::new([22; 32]),
            to: Address::new([9; 20]),
            fee: "not a number".to_string(),
        },
    ];
    match CacheSyncer::from_raw(deposits, withdrawals) {
        Ok(c) => c,
        Err(_) => panic!("a cache always loads from records"),
    }
}

#[test]
fn cache_syncer_ranges() {
    let cache = cache();
    assert_eq!(cache.latest_block(), 35);
    let commitments = cache.sync_commitments(15, 30);
    assert_eq!(commitments.len(), 2);
    assert_eq!(commitments[0].leaf_index, 1);
    assert_eq!(commitments[1].leaf_index, 2);
    assert_eq!(commitments[0].timestamp, 0);
    let nullifiers = cache.sync_nullifiers(0, 100);
    assert_eq!(nullifiers.len(), 2);
    assert_eq!(nullifiers[0].fee, 1500);
    assert_eq!(nullifiers[1].fee, 0);
    assert!(cache.sync_nullifiers(26, 34).is_empty());
    assert_eq!(cache.sync_commitments(0, u64::MAX).len(), 3);
}

#[test]
fn rpc_syncer_settings_and_batches() {
    let syncer = RpcSyncer::new(Address::new([1; 20]));
    assert_eq!(syncer.batch_size, 2000);
    let syncer = syncer.with_batch_size(100_000);
    assert_eq!(syncer.batch_size, 100_000);
    let mut cursor = syncer.batches(5, 250_000);
    assert_eq!(cursor.next_batch(), Some((5, 100_004)));
    assert_eq!(cursor.next_batch(), Some((100_005, 200_004)));
    assert_eq!(cursor.next_batch(), Some((200_005, 250_000)));
    assert_eq!(cursor.next_batch(), None);
}

#[test]
fn logs_with_another_topic() {
    let log = deposit_log(1, [1; 32], 0, 10);
    let other_topic = B256::new([0x77; 32]);
    assert!(commitments_with_topic(&vec![log.clone()], &other_topic).is_empty());
    assert_eq!(commitments_with_topic(&vec![log], &deposit_topic()).len(), 1);
    let w = withdrawal_log(2, [2; 20], [2; 32], 0);
    assert_eq!(nullifiers_with_topic(&vec![w.clone()], &withdrawal_topic()).len(), 1);
    assert!(nullifiers_with_topic(&vec![w], &other_topic).is_empty());
}

#[test]
fn chained_cache_then_split_ranges_lose_nothing() {
    // A cache that ends at block 25 and a second copy that goes further,
    // chained: the commitments gathered are those of the whole range.
    let c = cache();
    let ranges = plan_chained_ranges(&vec![25, 40], 0, 40);
    let mut gathered = Vec::new();
    for r in &ranges {
        gathered.extend(c.sync_commitments(r.from_block, r.to_block));
    }
    let whole = c.sync_commitments(0, 40);
    assert_eq!(gathered.len(), whole.len());
    for (g, w) in gathered.iter().zip(whole.iter()) {
        assert_eq!(g.leaf_index, w.leaf_index);
    }
}

#[test]
fn syncer_error_messages() {
    assert_eq!(SyncerError::Syncer("timeout".to_string()).to_string(), "Syncer error: timeout");
    let contract = alloy_primitives::Address::from_str("0xa160cdab225685da1d56aa342ad8841c3b53f291").unwrap();
    let e = SyncerError::InvalidContract { contract: Address::new(contract.0 .0), reason: "not a pool".to_string() };
    assert_eq!(e.to_string(), format!("Invalid contract {}: not a pool", contract));
    assert_eq!(e.to_string(), "Invalid contract 0xA160cdAB225685dA1d56aa342Ad8841c3b53f291: not a pool");
}

#[test]
fn batched_sync_loses_nothing() {
    let c = cache();
    for batch_size in [0u64, 1, 3, 7, 100] {
        let mut cursor = BatchCursor::new(0, 40, batch_size);
        let mut gathered = Vec::new();
        while let Some((a, b)) = cursor.next_batch() {
            gathered.extend(c.sync_nullifiers(a, b));
        }
        let whole = c.sync_nullifiers(0, 40);
        assert_eq!(gathered.len(), whole.len());
        for (g, w) in gathered.iter().zip(whole.iter()) {
            assert_eq!(g.nullifier, w.nullifier);
        }
    }
}
