//! The Tornado Cash contract events, read from raw logs: a `Deposit` gives
//! a commitment (a new leaf of the Merkle tree), a `Withdrawal` gives a spent
//! nullifier.
//!
//! ```solidity
//! event Deposit(bytes32 indexed commitment, uint32 leafIndex, uint256 timestamp);
//! event Withdrawal(address to, bytes32 nullifierHash, address indexed relayer, uint256 fee);
//! ```

use crate::abi::{be_value, saturating_u128, saturating_u64, word_saturating_u128, word_saturating_u64, word_u32};
use crate::primitives::{checksum_text, to_checksum, Address, B256};
use vstd::prelude::*;
use vstd::string::{StringExecFns, StringSliceAdditionalSpecFns};

verus! {

/// A log as an RPC node returns it.
#[derive(Clone, Debug)]
pub struct RawLog {
    pub block_number: Option<u64>,
    pub block_timestamp: Option<u64>,
    pub transaction_hash: Option<B256>,
    pub address: Address,
    pub topics: Vec<B256>,
    pub data: Vec<u8>,
}

/// A deposit into a pool: a new leaf of its Merkle tree.
#[derive(Clone, Copy, Debug)]
pub struct Commitment {
    pub block_number: u64,
    pub tx_hash: B256,
    pub commitment: B256,
    pub leaf_index: u32,
    pub timestamp: u64,
}

/// A withdrawal from a pool: a spent nullifier.
#[derive(Clone, Copy, Debug)]
pub struct Nullifier {
    pub block_number: u64,
    pub tx_hash: B256,
    pub nullifier: B256,
    pub to: Address,
    pub fee: u128,
    pub timestamp: u64,
}

/// Why a syncer failed.
#[derive(Debug)]
pub enum SyncerError {
    /// The syncer's source failed, with the underlying error's message.
    Syncer(String),
    /// The contract asked for is not one the syncer can read.
    InvalidContract { contract: Address, reason: String },
}

impl SyncerError {
    /// The error's message; a contract is written as its checksummed text.
    pub fn to_string(&self) -> (r: String)
        ensures
            r@ == (match self {
                SyncerError::Syncer(m) => "Syncer error: "@ + m@,
                SyncerError::InvalidContract { contract, reason } => "Invalid contract "@ + checksum_text(
                    contract.bytes@,
                ) + ": "@ + reason@,
            }),
    {
        match self {
            SyncerError::Syncer(m) => String::from_str("Syncer error: ").concat(m.as_str()),
            SyncerError::InvalidContract { contract, reason } => {
                let text = to_checksum(contract);
                String::from_str("Invalid contract ").concat(text.as_str()).concat(": ").concat(
                    reason.as_str(),
                )
            },
        }
    }
}

/// The Keccak-256 hash of `data`, as `alloy_primitives::keccak256` computes it.
pub uninterp spec fn keccak256_of(data: Seq<u8>) -> Seq<u8>;

/// Calls `alloy_primitives::keccak256`. Claimed: the 32 bytes it returns are
/// `keccak256_of(data)`, a function of `data` alone.
#[verifier::external_body]
pub(crate) fn keccak256(data: &[u8]) -> (r: B256)
    ensures
        r.bytes@ == keccak256_of(data@),
{
    B256 { bytes: alloy_primitives::keccak256(data).0 }
}

/// The first topic of a `Deposit` log: the hash of the event's signature.
pub open spec fn deposit_topic_spec() -> Seq<u8> {
    keccak256_of("Deposit(bytes32,uint32,uint256)".spec_bytes())
}

/// The first topic of a `Withdrawal` log: the hash of the event's signature.
pub open spec fn withdrawal_topic_spec() -> Seq<u8> {
    keccak256_of("Withdrawal(address,bytes32,address,uint256)".spec_bytes())
}

/// The signature hash of the `Deposit` event.
pub fn deposit_topic() -> (r: B256)
    ensures
        r.bytes@ == deposit_topic_spec(),
{
    keccak256("Deposit(bytes32,uint32,uint256)".as_bytes())
}

/// The signature hash of the `Withdrawal` event.
pub fn withdrawal_topic() -> (r: B256)
    ensures
        r.bytes@ == withdrawal_topic_spec(),
{
    keccak256("Withdrawal(address,bytes32,address,uint256)".as_bytes())
}

/// The 32 zero bytes of a missing transaction hash.
pub open spec fn zero_word() -> Seq<u8> {
    Seq::new(32, |i: int| 0u8)
}

/// The block number of a log, 0 where the node gave none.
pub open spec fn log_block(log: RawLog) -> u64 {
    match log.block_number {
        Some(b) => b,
        None => 0,
    }
}

/// The transaction hash of a log, all zero where the node gave none.
pub open spec fn log_tx_hash(log: RawLog) -> Seq<u8> {
    match log.transaction_hash {
        Some(h) => h.bytes@,
        None => zero_word(),
    }
}

/// Whether `log` is a `Deposit` event that decodes: its first topic is the
/// event's signature hash, it has one indexed topic more, and two data words.
pub open spec fn is_deposit_log(log: RawLog) -> bool {
    is_deposit_log_for(log, deposit_topic_spec())
}

/// Whether `log` decodes as a `Deposit` event whose signature hash is
/// `topic`.
pub open spec fn is_deposit_log_for(log: RawLog, topic: Seq<u8>) -> bool {
    &&& log.topics@.len() == 2
    &&& log.topics@[0].bytes@ == topic
    &&& log.data@.len() >= 64
}

/// Whether `log` is a `Withdrawal` event that decodes: its first topic is the
/// event's signature hash, it has one indexed topic more, and three data words.
pub open spec fn is_withdrawal_log(log: RawLog) -> bool {
    is_withdrawal_log_for(log, withdrawal_topic_spec())
}

/// Whether `log` decodes as a `Withdrawal` event whose signature hash is
/// `topic`.
pub open spec fn is_withdrawal_log_for(log: RawLog, topic: Seq<u8>) -> bool {
    &&& log.topics@.len() == 2
    &&& log.topics@[0].bytes@ == topic
    &&& log.data@.len() >= 96
}

/// Whether `c` is the commitment that the `Deposit` log `log` carries.
pub open spec fn is_commitment_of(c: Commitment, log: RawLog) -> bool {
    &&& c.block_number == log_block(log)
    &&& c.tx_hash.bytes@ == log_tx_hash(log)
    &&& c.commitment == log.topics@[1]
    &&& c.leaf_index == be_value(log.data@.subrange(28, 32))
    &&& c.timestamp == saturating_u64(log.data@.subrange(32, 64))
}

/// Whether `n` is the nullifier that the `Withdrawal` log `log` carries.
pub open spec fn is_nullifier_of(n: Nullifier, log: RawLog) -> bool {
    &&& n.block_number == log_block(log)
    &&& n.tx_hash.bytes@ == log_tx_hash(log)
    &&& n.to.bytes@ == log.data@.subrange(12, 32)
    &&& n.nullifier.bytes@ == log.data@.subrange(32, 64)
    &&& n.fee == saturating_u128(log.data@.subrange(64, 96))
    &&& n.timestamp == 0
}

/// The `Deposit` logs among `logs`, in order.
pub open spec fn deposit_logs(logs: Seq<RawLog>) -> Seq<RawLog> {
    deposit_logs_for(logs, deposit_topic_spec())
}

/// The logs among `logs` that decode as `Deposit` events whose signature
/// hash is `topic`, in order.
pub open spec fn deposit_logs_for(logs: Seq<RawLog>, topic: Seq<u8>) -> Seq<RawLog>
    decreases logs.len(),
{
    if logs.len() == 0 {
        Seq::empty()
    } else if is_deposit_log_for(logs.last(), topic) {
        deposit_logs_for(logs.drop_last(), topic).push(logs.last())
    } else {
        deposit_logs_for(logs.drop_last(), topic)
    }
}

/// The `Withdrawal` logs among `logs`, in order.
pub open spec fn withdrawal_logs(logs: Seq<RawLog>) -> Seq<RawLog> {
    withdrawal_logs_for(logs, withdrawal_topic_spec())
}

/// The logs among `logs` that decode as `Withdrawal` events whose signature
/// hash is `topic`, in order.
pub open spec fn withdrawal_logs_for(logs: Seq<RawLog>, topic: Seq<u8>) -> Seq<RawLog>
    decreases logs.len(),
{
    if logs.len() == 0 {
        Seq::empty()
    } else if is_withdrawal_log_for(logs.last(), topic) {
        withdrawal_logs_for(logs.drop_last(), topic).push(logs.last())
    } else {
        withdrawal_logs_for(logs.drop_last(), topic)
    }
}

fn log_tx_hash_of(log: &RawLog) -> (r: B256)
    ensures
        r.bytes@ == log_tx_hash(*log),
{
    match log.transaction_hash {
        Some(h) => h,
        None => {
            let z = B256::zero();
            assert(z.bytes@ =~= zero_word());
            z
        },
    }
}

fn log_block_of(log: &RawLog) -> (r: u64)
    ensures
        r == log_block(*log),
{
    match log.block_number {
        Some(b) => b,
        None => 0,
    }
}

/// Decodes `log` as a `Deposit` event, given the event's signature hash.
pub fn decode_deposit(log: &RawLog, topic: &B256) -> (r: Option<Commitment>)
    ensures
        r is Some <==> is_deposit_log_for(*log, topic.bytes@),
        r matches Some(c) ==> is_commitment_of(c, *log),
{
    if log.topics.len() != 2 || !log.topics[0].same(topic) || log.data.len() < 64 {
        return None;
    }
    let data = log.data.as_slice();
    let leaf_index = word_u32(data, 0);
    let timestamp = word_saturating_u64(data, 32);
    Some(
        Commitment {
            block_number: log_block_of(log),
            tx_hash: log_tx_hash_of(log),
            commitment: log.topics[1],
            leaf_index,
            timestamp,
        },
    )
}

/// The 20 bytes `bytes[start..start + 20]` as an address.
fn address_at(bytes: &[u8], start: usize) -> (r: Address)
    requires
        start + 20 <= bytes@.len(),
    ensures
        r.bytes@ == bytes@.subrange(start as int, start + 20),
{
    let total = bytes.len();
    let mut out = [0u8; 20];
    let mut i: usize = 0;
    while i < 20
        invariant
            i <= 20,
            total == bytes@.len(),
            start + 20 <= total,
            forall|k: int| 0 <= k < i ==> out@[k] == bytes@[start + k],
        decreases 20 - i,
    {
        out[i] = bytes[start + i];
        i = i + 1;
    }
    assert(out@ =~= bytes@.subrange(start as int, start + 20));
    Address { bytes: out }
}

/// The 32 bytes `bytes[start..start + 32]` as a word.
fn word_at(bytes: &[u8], start: usize) -> (r: B256)
    requires
        start + 32 <= bytes@.len(),
    ensures
        r.bytes@ == bytes@.subrange(start as int, start + 32),
{
    let total = bytes.len();
    let mut out = [0u8; 32];
    let mut i: usize = 0;
    while i < 32
        invariant
            i <= 32,
            total == bytes@.len(),
            start + 32 <= total,
            forall|k: int| 0 <= k < i ==> out@[k] == bytes@[start + k],
        decreases 32 - i,
    {
        out[i] = bytes[start + i];
        i = i + 1;
    }
    assert(out@ =~= bytes@.subrange(start as int, start + 32));
    B256 { bytes: out }
}

/// Decodes `log` as a `Withdrawal` event, given the event's signature hash.
pub fn decode_withdrawal(log: &RawLog, topic: &B256) -> (r: Option<Nullifier>)
    ensures
        r is Some <==> is_withdrawal_log_for(*log, topic.bytes@),
        r matches Some(n) ==> is_nullifier_of(n, *log),
{
    if log.topics.len() != 2 || !log.topics[0].same(topic) || log.data.len() < 96 {
        return None;
    }
    let data = log.data.as_slice();
    let to = address_at(data, 12);
    let nullifier = word_at(data, 32);
    let fee = word_saturating_u128(data, 64);
    Some(
        Nullifier {
            block_number: log_block_of(log),
            tx_hash: log_tx_hash_of(log),
            nullifier,
            to,
            fee,
            timestamp: 0,
        },
    )
}

/// The commitments of the `Deposit` logs among `logs`, in order; other logs,
/// and logs that do not decode, are skipped.
pub fn commitments_from_logs(logs: &Vec<RawLog>) -> (r: Vec<Commitment>)
    ensures
        r@.len() == deposit_logs(logs@).len(),
        forall|k: int| 0 <= k < r@.len() ==> is_commitment_of(#[trigger] r@[k], deposit_logs(logs@)[k]),
{
    let topic = deposit_topic();
    commitments_with_topic(logs, &topic)
}

/// The commitments of the logs among `logs` that decode as `Deposit`
/// events whose signature hash is `topic`, in order.
pub fn commitments_with_topic(logs: &Vec<RawLog>, topic: &B256) -> (r: Vec<Commitment>)
    ensures
        r@.len() == deposit_logs_for(logs@, topic.bytes@).len(),
        forall|k: int|
            0 <= k < r@.len() ==> is_commitment_of(#[trigger] r@[k], deposit_logs_for(logs@, topic.bytes@)[k]),
{
    let mut out: Vec<Commitment> = Vec::new();
    let n = logs.len();
    let mut i: usize = 0;
    while i < n
        invariant
            i <= n == logs@.len(),
            out@.len() == deposit_logs_for(logs@.subrange(0, i as int), topic.bytes@).len(),
            forall|k: int|
                0 <= k < out@.len() ==> is_commitment_of(
                    #[trigger] out@[k],
                    deposit_logs_for(logs@.subrange(0, i as int), topic.bytes@)[k],
                ),
        decreases n - i,
    {
        let ghost prev = logs@.subrange(0, i as int);
        let ghost next = logs@.subrange(0, i + 1);
        proof {
            assert(next.drop_last() =~= prev);
            assert(next.last() == logs@[i as int]);
        }
        match decode_deposit(&logs[i], topic) {
            Some(c) => {
                out.push(c);
            },
            None => {},
        }
        i = i + 1;
    }
    assert(logs@.subrange(0, n as int) =~= logs@);
    out
}

/// The nullifiers of the `Withdrawal` logs among `logs`, in order; other
/// logs, and logs that do not decode, are skipped.
pub fn nullifiers_from_logs(logs: &Vec<RawLog>) -> (r: Vec<Nullifier>)
    ensures
        r@.len() == withdrawal_logs(logs@).len(),
        forall|k: int| 0 <= k < r@.len() ==> is_nullifier_of(#[trigger] r@[k], withdrawal_logs(logs@)[k]),
{
    let topic = withdrawal_topic();
    nullifiers_with_topic(logs, &topic)
}

/// The nullifiers of the logs among `logs` that decode as `Withdrawal`
/// events whose signature hash is `topic`, in order.
pub fn nullifiers_with_topic(logs: &Vec<RawLog>, topic: &B256) -> (r: Vec<Nullifier>)
    ensures
        r@.len() == withdrawal_logs_for(logs@, topic.bytes@).len(),
        forall|k: int|
            0 <= k < r@.len() ==> is_nullifier_of(#[trigger] r@[k], withdrawal_logs_for(logs@, topic.bytes@)[k]),
{
    let mut out: Vec<Nullifier> = Vec::new();
    let n = logs.len();
    let mut i: usize = 0;
    while i < n
        invariant
            i <= n == logs@.len(),
            out@.len() == withdrawal_logs_for(logs@.subrange(0, i as int), topic.bytes@).len(),
            forall|k: int|
                0 <= k < out@.len() ==> is_nullifier_of(
                    #[trigger] out@[k],
                    withdrawal_logs_for(logs@.subrange(0, i as int), topic.bytes@)[k],
                ),
        decreases n - i,
    {
        let ghost prev = logs@.subrange(0, i as int);
        let ghost next = logs@.subrange(0, i + 1);
        proof {
            assert(next.drop_last() =~= prev);
            assert(next.last() == logs@[i as int]);
        }
        match decode_withdrawal(&logs[i], topic) {
            Some(w) => {
                out.push(w);
            },
            None => {},
        }
        i = i + 1;
    }
    assert(logs@.subrange(0, n as int) =~= logs@);
    out
}

} // verus!
