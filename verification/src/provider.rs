//! The Tornado Cash provider: its persisted state, and the deposit and
//! withdrawal transactions it builds.
//!
//! ```solidity
//! function deposit(bytes32 _commitment) external payable;
//! function withdraw(bytes _proof, bytes32 _root, bytes32 _nullifierHash,
//!     address _recipient, address _relayer, uint256 _fee, uint256 _refund) external payable;
//! ```

use crate::abi::be_value;
use crate::events::{keccak256, keccak256_of};
use crate::groth16::{proof_to_solidity_inputs, push_u256_be, solidity_proof_elements, Proof, U256};
use crate::pool::{AssetView, Pool};
use crate::primitives::{Address, B256};
use crate::tx_data::TxData;
use vstd::prelude::*;
use vstd::string::StringExecFns;
use vstd::string::StringSliceAdditionalSpecFns;

verus! {

/// What the indexer of a provider keeps between sessions: the block it has
/// synced to, the commitments (the leaves of the Merkle tree, in leaf order)
/// and the spent nullifiers it has seen.
#[derive(Debug)]
pub struct IndexerState {
    pub synced_block: u64,
    pub commitments: Vec<B256>,
    pub nullifiers: Vec<B256>,
}

/// What an [`IndexerState`] holds.
pub struct IndexerStateView {
    pub synced_block: u64,
    pub commitments: Seq<B256>,
    pub nullifiers: Seq<B256>,
}

impl View for IndexerState {
    type V = IndexerStateView;

    open spec fn view(&self) -> IndexerStateView {
        IndexerStateView {
            synced_block: self.synced_block,
            commitments: self.commitments@,
            nullifiers: self.nullifiers@,
        }
    }
}

fn copy_words(v: &Vec<B256>) -> (r: Vec<B256>)
    ensures
        r@ == v@,
{
    let mut out: Vec<B256> = Vec::new();
    let n = v.len();
    let mut i: usize = 0;
    while i < n
        invariant
            i <= n == v@.len(),
            out@ == v@.subrange(0, i as int),
        decreases n - i,
    {
        out.push(v[i]);
        i = i + 1;
        assert(out@ =~= v@.subrange(0, i as int));
    }
    assert(v@.subrange(0, n as int) =~= v@);
    out
}

impl IndexerState {
    /// The state of an indexer that has synced nothing.
    pub fn new() -> (r: IndexerState)
        ensures
            r@.synced_block == 0,
            r@.commitments == Seq::<B256>::empty(),
            r@.nullifiers == Seq::<B256>::empty(),
    {
        IndexerState { synced_block: 0, commitments: Vec::new(), nullifiers: Vec::new() }
    }

    /// A copy of the state.
    pub fn copy(&self) -> (r: IndexerState)
        ensures
            r@ == self@,
    {
        IndexerState {
            synced_block: self.synced_block,
            commitments: copy_words(&self.commitments),
            nullifiers: copy_words(&self.nullifiers),
        }
    }
}

/// The indexer of deposits and withdrawals of a pool.
#[derive(Debug)]
pub struct Indexer {
    state: IndexerState,
}

impl View for Indexer {
    type V = IndexerStateView;

    closed spec fn view(&self) -> IndexerStateView {
        self.state@
    }
}

impl Indexer {
    /// An indexer that has synced nothing.
    pub fn new() -> (r: Indexer)
        ensures
            r@.synced_block == 0,
            r@.commitments == Seq::<B256>::empty(),
            r@.nullifiers == Seq::<B256>::empty(),
    {
        Indexer { state: IndexerState::new() }
    }

    /// An indexer that resumes from `state`.
    pub fn from_state(state: IndexerState) -> (r: Indexer)
        ensures
            r@ == state@,
    {
        Indexer { state }
    }

    /// The indexer's state.
    pub fn state(&self) -> (r: IndexerState)
        ensures
            r@ == self@,
    {
        self.state.copy()
    }

    /// Replaces the indexer's state with `state`.
    pub fn set_state(&mut self, state: IndexerState)
        ensures
            final(self)@ == state@,
    {
        self.state = state;
    }
}

/// What a Tornado Cash provider keeps between sessions.
#[derive(Debug)]
pub struct TornadoProviderState {
    pub chain_id: u64,
    pub indexer_state: IndexerState,
}

/// Why a provider operation failed, with the underlying error's message.
#[derive(Debug)]
pub enum TornadoProviderError {
    Indexer(String),
    WithdrawCircuitInputs(String),
    Prover(String),
}

impl TornadoProviderError {
    /// The error's message, naming the step that failed.
    pub fn to_string(&self) -> (r: String)
        ensures
            r@ == (match self {
                TornadoProviderError::Indexer(m) => "Indexer error: "@ + m@,
                TornadoProviderError::WithdrawCircuitInputs(m) => "Withdraw circuit inputs error: "@ + m@,
                TornadoProviderError::Prover(m) => "Prover error: "@ + m@,
            }),
    {
        match self {
            TornadoProviderError::Indexer(m) => String::from_str("Indexer error: ").concat(m.as_str()),
            TornadoProviderError::WithdrawCircuitInputs(m) => String::from_str(
                "Withdraw circuit inputs error: ",
            ).concat(m.as_str()),
            TornadoProviderError::Prover(m) => String::from_str("Prover error: ").concat(m.as_str()),
        }
    }
}

/// A Tornado Cash provider: the chain it works on, the indexer of its pool
/// and the prover that makes withdrawal proofs.
pub struct TornadoProvider<P> {
    chain_id: u64,
    pub indexer: Indexer,
    prover: P,
}

impl<P> TornadoProvider<P> {
    /// The chain the provider works on.
    pub closed spec fn spec_chain_id(self) -> u64 {
        self.chain_id
    }

    /// The state of the provider's indexer.
    pub closed spec fn spec_indexer(self) -> IndexerStateView {
        self.indexer@
    }

    /// The provider's public `indexer`, whose state `spec_indexer` is.
    pub fn indexer(&self) -> (r: &Indexer)
        ensures
            r@ == self.spec_indexer(),
    {
        &self.indexer
    }

    /// The provider's prover.
    pub closed spec fn spec_prover(self) -> P {
        self.prover
    }

    pub fn new(chain_id: u64, indexer: Indexer, prover: P) -> (r: TornadoProvider<P>)
        ensures
            r.spec_chain_id() == chain_id,
            r.spec_indexer() == indexer@,
            r.spec_prover() == prover,
    {
        TornadoProvider { chain_id, indexer, prover }
    }

    /// The provider's state: its chain and its indexer's state.
    pub fn state(&self) -> (r: TornadoProviderState)
        ensures
            r.chain_id == self.spec_chain_id(),
            r.indexer_state@ == self.spec_indexer(),
    {
        TornadoProviderState { chain_id: self.chain_id, indexer_state: self.indexer.state() }
    }

    /// Resumes from `state`: the chain and the indexer's state are replaced;
    /// the prover stays.
    pub fn set_state(&mut self, state: TornadoProviderState)
        ensures
            final(self).spec_chain_id() == state.chain_id,
            final(self).spec_indexer() == state.indexer_state@,
            final(self).spec_prover() == old(self).spec_prover(),
    {
        self.chain_id = state.chain_id;
        self.indexer.set_state(state.indexer_state);
    }
}

/// Whether `s` is the state of `p`: its chain and its indexer's state.
pub open spec fn is_state_of<P>(p: TornadoProvider<P>, s: TornadoProviderState) -> bool {
    s.chain_id == p.spec_chain_id() && s.indexer_state@ == p.spec_indexer()
}

/// Whether `after` is `before` resumed from `s`.
pub open spec fn is_resumed_from<P>(
    before: TornadoProvider<P>,
    after: TornadoProvider<P>,
    s: TornadoProviderState,
) -> bool {
    &&& after.spec_chain_id() == s.chain_id
    &&& after.spec_indexer() == s.indexer_state@
    &&& after.spec_prover() == before.spec_prover()
}

/// A provider resumed from a state gives that state back.
pub proof fn lemma_state_after_resume<P>(
    before: TornadoProvider<P>,
    after: TornadoProvider<P>,
    s: TornadoProviderState,
    read: TornadoProviderState,
)
    requires
        is_resumed_from(before, after, s),
        is_state_of(after, read),
    ensures
        read.chain_id == s.chain_id,
        read.indexer_state@ == s.indexer_state@,
{
}

/// Resuming a provider from its own state changes nothing that it holds.
pub proof fn lemma_resume_from_own_state<P>(
    p: TornadoProvider<P>,
    s: TornadoProviderState,
    after: TornadoProvider<P>,
)
    requires
        is_state_of(p, s),
        is_resumed_from(p, after, s),
    ensures
        after.spec_chain_id() == p.spec_chain_id(),
        after.spec_indexer() == p.spec_indexer(),
        after.spec_prover() == p.spec_prover(),
{
}

/// The four bytes that select the function with the signature `text`.
pub open spec fn selector(text: &str) -> Seq<u8> {
    keccak256_of(text.spec_bytes()).subrange(0, 4)
}

/// The selector of `deposit(bytes32)`.
pub open spec fn deposit_selector() -> Seq<u8> {
    selector("deposit(bytes32)")
}

/// The selector of the withdrawal function.
pub open spec fn withdraw_selector() -> Seq<u8> {
    selector("withdraw(bytes,bytes32,bytes32,address,address,uint256,uint256)")
}

/// Appends the first four bytes of `hash` to `out`.
fn push_selector(out: &mut Vec<u8>, hash: &B256)
    ensures
        final(out)@ == old(out)@ + hash.bytes@.subrange(0, 4),
{
    out.push(hash.bytes[0]);
    out.push(hash.bytes[1]);
    out.push(hash.bytes[2]);
    out.push(hash.bytes[3]);
    assert(final(out)@ =~= old(out)@ + hash.bytes@.subrange(0, 4));
}

/// Appends the 32 bytes of `word` to `out`.
fn push_word(out: &mut Vec<u8>, word: &B256)
    ensures
        final(out)@ == old(out)@ + word.bytes@,
{
    let mut i: usize = 0;
    while i < 32
        invariant
            i <= 32,
            out@ == old(out)@ + word.bytes@.subrange(0, i as int),
        decreases 32 - i,
    {
        out.push(word.bytes[i]);
        i = i + 1;
        assert(out@ =~= old(out)@ + word.bytes@.subrange(0, i as int));
    }
    assert(word.bytes@.subrange(0, 32) =~= word.bytes@);
}

/// An address as an ABI word: twelve zero bytes, then the address.
pub open spec fn address_word(a: Address) -> Seq<u8> {
    Seq::new(12, |i: int| 0u8) + a.bytes@
}

/// Appends `a` as an ABI word to `out`.
fn push_address_word(out: &mut Vec<u8>, a: &Address)
    ensures
        final(out)@ == old(out)@ + address_word(*a),
{
    let mut i: usize = 0;
    while i < 12
        invariant
            i <= 12,
            out@ == old(out)@ + Seq::new(i as nat, |k: int| 0u8),
        decreases 12 - i,
    {
        out.push(0u8);
        i = i + 1;
        assert(out@ =~= old(out)@ + Seq::new(i as nat, |k: int| 0u8));
    }
    let mut j: usize = 0;
    while j < 20
        invariant
            j <= 20,
            out@ == old(out)@ + Seq::new(12, |k: int| 0u8) + a.bytes@.subrange(0, j as int),
        decreases 20 - j,
    {
        out.push(a.bytes[j]);
        j = j + 1;
        assert(out@ =~= old(out)@ + Seq::new(12, |k: int| 0u8) + a.bytes@.subrange(0, j as int));
    }
    assert(a.bytes@.subrange(0, 20) =~= a.bytes@);
    assert(final(out)@ =~= old(out)@ + address_word(*a));
}

proof fn lemma_prefix_of_prefix(a: Seq<u8>, b: Seq<u8>, c: Seq<u8>)
    requires
        b.len() <= a.len(),
        c.len() <= b.len(),
        a.subrange(0, b.len() as int) == b,
        b.subrange(0, c.len() as int) == c,
    ensures
        a.subrange(0, c.len() as int) == c,
        forall|lo: int, hi: int|
            0 <= lo <= hi <= b.len() ==> #[trigger] a.subrange(lo, hi) == b.subrange(lo, hi),
{
    assert(a.subrange(0, c.len() as int) =~= b.subrange(0, c.len() as int));
    assert forall|lo: int, hi: int| 0 <= lo <= hi <= b.len() implies #[trigger] a.subrange(lo, hi)
        == b.subrange(lo, hi) by {
        assert(a.subrange(lo, hi) =~= b.subrange(lo, hi));
    }
}

/// The calldata of `deposit(commitment)`: the selector, then the commitment.
pub fn deposit_calldata(commitment: &B256) -> (r: Vec<u8>)
    ensures
        r@ == deposit_selector() + commitment.bytes@,
{
    let hash = keccak256("deposit(bytes32)".as_bytes());
    call_with_word(&hash, commitment)
}

/// The calldata of a call with one 32-byte argument `word`, whose selector
/// is the first four bytes of `selector_hash`.
pub fn call_with_word(selector_hash: &B256, word: &B256) -> (r: Vec<u8>)
    ensures
        r@ == selector_hash.bytes@.subrange(0, 4) + word.bytes@,
{
    let mut out: Vec<u8> = Vec::new();
    push_selector(&mut out, selector_hash);
    push_word(&mut out, word);
    assert(out@ =~= selector_hash.bytes@.subrange(0, 4) + word.bytes@);
    out
}

/// The calldata of a call without arguments, whose selector is the first
/// four bytes of `selector_hash`.
pub fn call_without_arguments(selector_hash: &B256) -> (r: Vec<u8>)
    ensures
        r@ == selector_hash.bytes@.subrange(0, 4),
{
    let mut out: Vec<u8> = Vec::new();
    push_selector(&mut out, selector_hash);
    assert(out@ =~= selector_hash.bytes@.subrange(0, 4));
    out
}

/// The selector of `isKnownRoot(bytes32)`.
pub open spec fn is_known_root_selector() -> Seq<u8> {
    selector("isKnownRoot(bytes32)")
}

/// The selector of `getLastRoot()`.
pub open spec fn get_last_root_selector() -> Seq<u8> {
    selector("getLastRoot()")
}

/// The calldata of `isKnownRoot(root)`, which asks the pool's Merkle tree
/// whether `root` is one of its recent roots.
pub fn is_known_root_calldata(root: &B256) -> (r: Vec<u8>)
    ensures
        r@ == is_known_root_selector() + root.bytes@,
{
    let hash = keccak256("isKnownRoot(bytes32)".as_bytes());
    call_with_word(&hash, root)
}

/// The calldata of `getLastRoot()`, which asks the pool's Merkle tree for
/// its latest root.
pub fn get_last_root_calldata() -> (r: Vec<u8>)
    ensures
        r@ == get_last_root_selector(),
{
    let hash = keccak256("getLastRoot()".as_bytes());
    call_without_arguments(&hash)
}

/// Why a Merkle root could not be verified.
#[derive(Debug)]
pub enum VerifierError {
    /// The pool's contract does not know the root.
    InvalidRoot { root: B256 },
    /// The contract could not be asked, with the underlying error's message.
    Other(String),
}

/// Reads the answer of `isKnownRoot`, a `bool` return value, as a
/// non-validating ABI decoder does: the first 32 bytes are the value's word,
/// true unless all of them are zero, and bytes after them are ignored; an
/// answer shorter than a word is an error.
pub fn decode_bool_answer(answer: &[u8]) -> (r: Result<bool, VerifierError>)
    ensures
        answer@.len() < 32 <==> r is Err,
        answer@.len() < 32 ==> (r matches Err(e) && e is Other),
        answer@.len() >= 32 ==> r == Ok::<bool, VerifierError>(
            exists|i: int| 0 <= i < 32 && #[trigger] answer@[i] != 0,
        ),
{
    if answer.len() < 32 {
        return Err(VerifierError::Other(String::from_str("the answer is shorter than an ABI word")));
    }
    let mut i: usize = 0;
    while i < 32
        invariant
            i <= 32 <= answer@.len(),
            forall|k: int| 0 <= k < i ==> answer@[k] == 0,
        decreases 32 - i,
    {
        if answer[i] != 0 {
            return Ok(true);
        }
        i = i + 1;
    }
    Ok(false)
}

/// The verdict on `root` once the pool's contract has answered whether it
/// knows it: a known root is verified, any other is invalid.
pub fn root_verdict(root: B256, known: bool) -> (r: Result<(), VerifierError>)
    ensures
        known <==> r is Ok,
        !known ==> (r matches Err(VerifierError::InvalidRoot { root: x }) && x == root),
{
    if known {
        Ok(())
    } else {
        Err(VerifierError::InvalidRoot { root })
    }
}

/// The `k`-th 32-byte word after the selector of some calldata.
pub open spec fn calldata_word(data: Seq<u8>, k: int) -> Seq<u8> {
    data.subrange(4 + 32 * k, 4 + 32 * k + 32)
}

/// Whether `r` is the calldata of a withdrawal with the proof `proof`: the
/// selector, the seven head words (the offset of the proof bytes, root,
/// nullifier hash, recipient, relayer, fee and refund), then the length of the
/// proof bytes and the 256 proof bytes themselves.
pub open spec fn is_withdraw_calldata(
    r: Seq<u8>,
    proof: Proof,
    root: B256,
    nullifier_hash: B256,
    recipient: Address,
    relayer: Address,
    fee: U256,
    refund: U256,
) -> bool {
    is_withdraw_calldata_with(r, withdraw_selector(), proof, root, nullifier_hash, recipient, relayer, fee, refund)
}

/// Whether `r` is the calldata of a withdrawal as [`is_withdraw_calldata`]
/// describes it, with `selector` as its first four bytes.
pub open spec fn is_withdraw_calldata_with(
    r: Seq<u8>,
    selector: Seq<u8>,
    proof: Proof,
    root: B256,
    nullifier_hash: B256,
    recipient: Address,
    relayer: Address,
    fee: U256,
    refund: U256,
) -> bool {
    &&& r.len() == 4 + 32 * 8 + 256
    &&& r.subrange(0, 4) == selector
    &&& be_value(calldata_word(r, 0)) == 7 * 32
    &&& calldata_word(r, 1) == root.bytes@
    &&& calldata_word(r, 2) == nullifier_hash.bytes@
    &&& calldata_word(r, 3) == address_word(recipient)
    &&& calldata_word(r, 4) == address_word(relayer)
    &&& be_value(calldata_word(r, 5)) == fee.value()
    &&& be_value(calldata_word(r, 6)) == refund.value()
    &&& be_value(calldata_word(r, 7)) == 256
    &&& forall|k: int|
        0 <= k < 8 ==> be_value(#[trigger] calldata_word(r, 8 + k))
            == solidity_proof_elements(proof)[k].value()
}

/// The calldata of a withdrawal with the proof `proof`: the selector, the
/// seven head words (the offset of the proof bytes, root, nullifier hash,
/// recipient, relayer, fee and refund), then the length of the proof bytes
/// and the 256 proof bytes themselves.
pub fn withdraw_calldata(
    proof: &Proof,
    root: &B256,
    nullifier_hash: &B256,
    recipient: &Address,
    relayer: &Address,
    fee: &U256,
    refund: &U256,
) -> (r: Vec<u8>)
    ensures
        is_withdraw_calldata(r@, *proof, *root, *nullifier_hash, *recipient, *relayer, *fee, *refund),
{
    let hash = keccak256("withdraw(bytes,bytes32,bytes32,address,address,uint256,uint256)".as_bytes());
    withdraw_calldata_with(&hash, proof, root, nullifier_hash, recipient, relayer, fee, refund)
}

/// The calldata of a withdrawal, whose selector is the first four bytes of
/// `selector_hash`, the hash of the withdrawal function's signature.
pub fn withdraw_calldata_with(
    selector_hash: &B256,
    proof: &Proof,
    root: &B256,
    nullifier_hash: &B256,
    recipient: &Address,
    relayer: &Address,
    fee: &U256,
    refund: &U256,
) -> (r: Vec<u8>)
    ensures
        is_withdraw_calldata_with(
            r@,
            selector_hash.bytes@.subrange(0, 4),
            *proof,
            *root,
            *nullifier_hash,
            *recipient,
            *relayer,
            *fee,
            *refund,
        ),
{
    let hash = selector_hash;
    let mut out: Vec<u8> = Vec::new();
    push_selector(&mut out, &hash);
    let ghost o0 = out@;
    push_u256_be(&mut out, &U256::from_u128(7 * 32));
    let ghost o1 = out@;
    push_word(&mut out, root);
    let ghost o2 = out@;
    push_word(&mut out, nullifier_hash);
    let ghost o3 = out@;
    push_address_word(&mut out, recipient);
    let ghost o4 = out@;
    push_address_word(&mut out, relayer);
    let ghost o5 = out@;
    push_u256_be(&mut out, fee);
    let ghost o6 = out@;
    push_u256_be(&mut out, refund);
    let ghost o7 = out@;
    push_u256_be(&mut out, &U256::from_u128(256));
    let ghost o8 = out@;
    let proof_bytes = proof_to_solidity_inputs(proof);
    let mut i: usize = 0;
    while i < 256
        invariant
            i <= 256,
            proof_bytes@.len() == 256,
            out@ == o8 + proof_bytes@.subrange(0, i as int),
        decreases 256 - i,
    {
        out.push(proof_bytes[i]);
        i = i + 1;
        assert(out@ =~= o8 + proof_bytes@.subrange(0, i as int));
    }
    proof {
        let r = out@;
        assert(proof_bytes@.subrange(0, 256) =~= proof_bytes@);
        assert(o0 =~= hash.bytes@.subrange(0, 4));
        assert(r.subrange(0, o8.len() as int) =~= o8);
        lemma_prefix_of_prefix(r, o8, o7);
        lemma_prefix_of_prefix(r, o7, o6);
        lemma_prefix_of_prefix(r, o6, o5);
        assert(o5.subrange(0, o4.len() as int) =~= o4);
        lemma_prefix_of_prefix(r, o5, o4);
        assert(o4.subrange(0, o3.len() as int) =~= o3);
        lemma_prefix_of_prefix(r, o4, o3);
        assert(o3.subrange(0, o2.len() as int) =~= o2);
        lemma_prefix_of_prefix(r, o3, o2);
        assert(o2.subrange(0, o1.len() as int) =~= o1);
        lemma_prefix_of_prefix(r, o2, o1);
        lemma_prefix_of_prefix(r, o1, o0);
        assert(r.subrange(0, 4) =~= o0);
        assert(calldata_word(r, 0) =~= o1.subrange(4, 36));
        assert(calldata_word(r, 1) =~= o2.subrange(36, 68));
        assert(calldata_word(r, 2) =~= o3.subrange(68, 100));
        assert(calldata_word(r, 3) =~= o4.subrange(100, 132));
        assert(calldata_word(r, 4) =~= o5.subrange(132, 164));
        assert(calldata_word(r, 5) =~= o6.subrange(164, 196));
        assert(calldata_word(r, 6) =~= o7.subrange(196, 228));
        assert(calldata_word(r, 7) =~= o8.subrange(228, 260));
        assert forall|k: int| 0 <= k < 8 implies be_value(#[trigger] calldata_word(r, 8 + k))
            == solidity_proof_elements(*proof)[k].value() by {
            assert(calldata_word(r, 8 + k) =~= proof_bytes@.subrange(32 * k, 32 * k + 32));
        }
        assert(r.len() == 4 + 32 * 8 + 256);
        assert(r.subrange(0, 4) == hash.bytes@.subrange(0, 4));
        assert(be_value(calldata_word(r, 0)) == 7 * 32);
        assert(calldata_word(r, 1) == root.bytes@);
        assert(calldata_word(r, 2) == nullifier_hash.bytes@);
        assert(calldata_word(r, 3) == address_word(*recipient));
        assert(calldata_word(r, 4) == address_word(*relayer));
        assert(be_value(calldata_word(r, 5)) == fee.value());
        assert(be_value(calldata_word(r, 6)) == refund.value());
        assert(be_value(calldata_word(r, 7)) == 256);
    }
    out
}

/// The value sent with a deposit into `pool`: the denomination for a pool of
/// the native coin, nothing for a token pool.
pub open spec fn deposit_value(asset: AssetView, amount_wei: u128) -> nat {
    match asset {
        AssetView::Native { .. } => amount_wei as nat,
        AssetView::Erc20 { .. } => 0,
    }
}

/// A deposit into a token pool sends no ether (the tokens are pulled by the
/// pool); a deposit into a pool of the native coin sends exactly its
/// denomination.
pub proof fn lemma_deposit_value(asset: AssetView, amount_wei: u128)
    ensures
        asset is Erc20 ==> deposit_value(asset, amount_wei) == 0,
        asset is Native ==> deposit_value(asset, amount_wei) == amount_wei,
{
}

impl<P> TornadoProvider<P> {
    /// The deposit transaction into `pool` for the note whose commitment is
    /// `commitment`: a call of `deposit(commitment)` on the pool, sending the
    /// denomination when the pool holds the native coin.
    pub fn deposit<Q: Pool>(&self, pool: &Q, commitment: &B256) -> (r: TxData)
        ensures
            r.to == pool.spec_address(),
            r.data@ == deposit_selector() + commitment.bytes@,
            r.value.value() == deposit_value(pool.spec_asset(), pool.spec_amount_wei()),
            pool.spec_asset() is Erc20 ==> r.value.value() == 0,
            pool.spec_asset() is Native ==> r.value.value() == pool.spec_amount_wei(),
    {
        let calldata = deposit_calldata(commitment);
        let asset = pool.asset();
        let value = match asset {
            crate::pool::Asset::Native { .. } => pool.amount_wei(),
            crate::pool::Asset::Erc20 { .. } => 0,
        };
        TxData { to: pool.address(), data: calldata, value: U256::from_u128(value) }
    }

    /// The withdrawal transaction from `pool` once the proof is made: a call
    /// of the withdrawal function on the pool, sending the refund.
    pub fn withdraw_tx<Q: Pool>(
        &self,
        pool: &Q,
        proof: &Proof,
        root: &B256,
        nullifier_hash: &B256,
        recipient: &Address,
        relayer: &Address,
        fee: &U256,
        refund: &U256,
    ) -> (r: TxData)
        ensures
            r.to == pool.spec_address(),
            is_withdraw_calldata(r.data@, *proof, *root, *nullifier_hash, *recipient, *relayer, *fee, *refund),
            r.value == *refund,
    {
        let data = withdraw_calldata(proof, root, nullifier_hash, recipient, relayer, fee, refund);
        TxData { to: pool.address(), data, value: *refund }
    }
}

} // verus!
