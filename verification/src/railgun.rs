//! The Railgun provider: the chain it works on, the UTXO indexer that tracks
//! the registered accounts and their balances, and the builders of shield and
//! transact transactions.
//!
//! Addresses (`0zk...`) and asset ids (e.g. `erc20:0x...`) are held as the
//! text they are written in; two are the same when their texts are.

use crate::primitives::Address;
use vstd::prelude::*;
use crate::decimal::{decimal_digits, push_decimal};
use vstd::string::StringExecFns;

verus! {

/// A Railgun address, as its `0zk...` text.
#[derive(Debug)]
pub struct RailgunAddress {
    pub text: String,
}

/// An asset id, as its CAIP-style text (e.g. `erc20:0x...`).
#[derive(Debug)]
pub struct AssetId {
    pub text: String,
}

impl RailgunAddress {
    pub fn new(text: String) -> (r: RailgunAddress)
        ensures
            r.text@ == text@,
    {
        RailgunAddress { text }
    }

    pub fn copy(&self) -> (r: RailgunAddress)
        ensures
            r.text@ == self.text@,
    {
        RailgunAddress { text: self.text.clone() }
    }
}

impl AssetId {
    pub fn new(text: String) -> (r: AssetId)
        ensures
            r.text@ == text@,
    {
        AssetId { text }
    }

    pub fn copy(&self) -> (r: AssetId)
        ensures
            r.text@ == self.text@,
    {
        AssetId { text: self.text.clone() }
    }
}

/// The configuration of a chain that Railgun is deployed on.
#[derive(Clone, Copy, Debug)]
pub struct ChainConfig {
    pub id: u64,
    pub railgun_smart_wallet: Address,
}

/// The balance of one account in one asset.
#[derive(Debug)]
pub struct BalanceEntry {
    pub owner: RailgunAddress,
    pub asset: AssetId,
    pub amount: u128,
}

/// What a [`BalanceEntry`] holds.
pub struct BalanceView {
    pub owner: Seq<char>,
    pub asset: Seq<char>,
    pub amount: u128,
}

impl View for BalanceEntry {
    type V = BalanceView;

    open spec fn view(&self) -> BalanceView {
        BalanceView { owner: self.owner.text@, asset: self.asset.text@, amount: self.amount }
    }
}

impl BalanceEntry {
    pub fn copy(&self) -> (r: BalanceEntry)
        ensures
            r@ == self@,
    {
        BalanceEntry { owner: self.owner.copy(), asset: self.asset.copy(), amount: self.amount }
    }
}

/// What a UTXO indexer keeps between sessions: the block it has synced to,
/// the registered accounts and their balances.
#[derive(Debug)]
pub struct UtxoIndexerState {
    pub synced_block: u64,
    pub accounts: Vec<RailgunAddress>,
    pub balances: Vec<BalanceEntry>,
}

/// What a [`UtxoIndexerState`] holds.
pub struct UtxoIndexerView {
    pub synced_block: u64,
    pub accounts: Seq<Seq<char>>,
    pub balances: Seq<BalanceView>,
}

impl View for UtxoIndexerState {
    type V = UtxoIndexerView;

    open spec fn view(&self) -> UtxoIndexerView {
        UtxoIndexerView {
            synced_block: self.synced_block,
            accounts: self.accounts@.map_values(|a: RailgunAddress| a.text@),
            balances: self.balances@.map_values(|b: BalanceEntry| b@),
        }
    }
}

fn copy_addresses(v: &Vec<RailgunAddress>) -> (r: Vec<RailgunAddress>)
    ensures
        r@.map_values(|a: RailgunAddress| a.text@) == v@.map_values(|a: RailgunAddress| a.text@),
{
    let mut out: Vec<RailgunAddress> = Vec::new();
    let n = v.len();
    let mut i: usize = 0;
    while i < n
        invariant
            i <= n == v@.len(),
            out@.len() == i,
            forall|k: int| 0 <= k < i ==> (#[trigger] out@[k]).text@ == v@[k].text@,
        decreases n - i,
    {
        out.push(v[i].copy());
        i = i + 1;
    }
    assert(out@.map_values(|a: RailgunAddress| a.text@) =~= v@.map_values(|a: RailgunAddress| a.text@));
    out
}

fn copy_balances(v: &Vec<BalanceEntry>) -> (r: Vec<BalanceEntry>)
    ensures
        r@.map_values(|b: BalanceEntry| b@) == v@.map_values(|b: BalanceEntry| b@),
{
    let mut out: Vec<BalanceEntry> = Vec::new();
    let n = v.len();
    let mut i: usize = 0;
    while i < n
        invariant
            i <= n == v@.len(),
            out@.len() == i,
            forall|k: int| 0 <= k < i ==> (#[trigger] out@[k])@ == v@[k]@,
        decreases n - i,
    {
        out.push(v[i].copy());
        i = i + 1;
    }
    assert(out@.map_values(|b: BalanceEntry| b@) =~= v@.map_values(|b: BalanceEntry| b@));
    out
}

impl UtxoIndexerState {
    pub fn copy(&self) -> (r: UtxoIndexerState)
        ensures
            r@ == self@,
    {
        UtxoIndexerState {
            synced_block: self.synced_block,
            accounts: copy_addresses(&self.accounts),
            balances: copy_balances(&self.balances),
        }
    }
}

/// The balances of `owner` among `balances`, in order, as (asset, amount).
pub open spec fn balances_of(balances: Seq<BalanceView>, owner: Seq<char>) -> Seq<(Seq<char>, u128)>
    decreases balances.len(),
{
    if balances.len() == 0 {
        Seq::empty()
    } else {
        let rest = balances_of(balances.drop_last(), owner);
        if balances.last().owner == owner {
            rest.push((balances.last().asset, balances.last().amount))
        } else {
            rest
        }
    }
}

/// The registered accounts once `account` is registered: unchanged when it is
/// already one of them, else with it added at the end.
pub open spec fn with_account(accounts: Seq<Seq<char>>, account: Seq<char>) -> Seq<Seq<char>> {
    if accounts.contains(account) {
        accounts
    } else {
        accounts.push(account)
    }
}

/// Registering an account: afterwards it is registered, every account that
/// was registered still is, no account is registered twice where none was
/// before, and registering it again changes nothing.
pub proof fn lemma_register(accounts: Seq<Seq<char>>, account: Seq<char>)
    ensures
        with_account(accounts, account).contains(account),
        forall|a: Seq<char>| accounts.contains(a) ==> #[trigger] with_account(accounts, account).contains(a),
        accounts.no_duplicates() ==> with_account(accounts, account).no_duplicates(),
        with_account(with_account(accounts, account), account) == with_account(accounts, account),
{
    let after = with_account(accounts, account);
    if !accounts.contains(account) {
        assert(after[accounts.len() as int] == account);
        assert forall|a: Seq<char>| accounts.contains(a) implies #[trigger] after.contains(a) by {
            let i = choose|i: int| 0 <= i < accounts.len() && accounts[i] == a;
            assert(after[i] == a);
        }
        if accounts.no_duplicates() {
            assert forall|i: int, j: int| 0 <= i < after.len() && 0 <= j < after.len() && i != j implies after[i]
                != after[j] by {
                if i < accounts.len() && j < accounts.len() {
                } else if i < accounts.len() {
                    assert(accounts.contains(after[i]));
                } else {
                    assert(accounts.contains(after[j]));
                }
            }
        }
    }
}

/// After the indexer is reset, no account holds anything.
pub proof fn lemma_no_balance_after_reset(owner: Seq<char>)
    ensures
        balances_of(Seq::<BalanceView>::empty(), owner) == Seq::<(Seq<char>, u128)>::empty(),
{
}

/// The balances of an account are its own entries, all of them, in order:
/// every (asset, amount) returned is an entry of that owner, and every entry
/// of that owner is returned; an entry of another owner never is. They are
/// the entries of that owner picked out of the whole list, in order.
pub proof fn lemma_balances_of(balances: Seq<BalanceView>, owner: Seq<char>)
    ensures
        forall|k: int|
            0 <= k < balances_of(balances, owner).len() ==> balances.contains(
                (BalanceView {
                    owner,
                    asset: (#[trigger] balances_of(balances, owner)[k]).0,
                    amount: balances_of(balances, owner)[k].1,
                }),
            ),
        forall|j: int|
            0 <= j < balances.len() && #[trigger] balances[j].owner == owner ==> balances_of(
                balances,
                owner,
            ).contains((balances[j].asset, balances[j].amount)),
        balances_of(balances, owner).len() <= balances.len(),
        balances_of(balances, owner) == balances.filter(|e: BalanceView| e.owner == owner).map_values(
            |e: BalanceView| (e.asset, e.amount),
        ),
    decreases balances.len(),
{
    reveal(Seq::filter);
    if balances.len() > 0 {
        let init = balances.drop_last();
        let last = balances.last();
        lemma_balances_of(init, owner);
        let mine = |e: BalanceView| e.owner == owner;
        let pair = |e: BalanceView| (e.asset, e.amount);
        assert(balances.filter(mine) == if mine(last) {
            init.filter(mine).push(last)
        } else {
            init.filter(mine)
        });
        if mine(last) {
            assert(init.filter(mine).push(last).map_values(pair) =~= init.filter(mine).map_values(pair).push(
                pair(last),
            ));
        }
        let rest = balances_of(init, owner);
        let all = balances_of(balances, owner);
        assert forall|k: int| 0 <= k < all.len() implies balances.contains(
            (BalanceView { owner, asset: (#[trigger] all[k]).0, amount: all[k].1 }),
        ) by {
            let e = BalanceView { owner, asset: all[k].0, amount: all[k].1 };
            if k < rest.len() {
                assert(all[k] == rest[k]);
                assert(init.contains(e));
                let i = choose|i: int| 0 <= i < init.len() && init[i] == e;
                assert(balances[i] == init[i]);
            } else {
                let i = balances.len() - 1;
                assert(last.owner == owner);
                assert(all == rest.push((last.asset, last.amount)));
                assert(balances[i] == last);
                assert(balances[i] == e);
            }
        }
        assert forall|j: int|
            0 <= j < balances.len() && #[trigger] balances[j].owner == owner implies all.contains(
                (balances[j].asset, balances[j].amount),
            ) by {
            if j < init.len() {
                assert(init[j] == balances[j]);
                assert(init[j].owner == owner);
                assert(rest.contains((init[j].asset, init[j].amount)));
                let k = choose|k: int| 0 <= k < rest.len() && rest[k] == (init[j].asset, init[j].amount);
                assert(all[k] == rest[k]);
            } else {
                assert(balances[j] == last);
                assert(all[all.len() - 1] == (last.asset, last.amount));
            }
        }
    }
}

/// The indexer of the notes of the registered accounts.
#[derive(Debug)]
pub struct UtxoIndexer {
    state: UtxoIndexerState,
}

impl View for UtxoIndexer {
    type V = UtxoIndexerView;

    closed spec fn view(&self) -> UtxoIndexerView {
        self.state@
    }
}

/// The view of a list of (asset, amount) pairs.
pub open spec fn asset_amounts_view(v: Seq<(AssetId, u128)>) -> Seq<(Seq<char>, u128)> {
    v.map_values(|e: (AssetId, u128)| (e.0.text@, e.1))
}

impl UtxoIndexer {
    /// An indexer with no account and nothing synced.
    pub fn new() -> (r: UtxoIndexer)
        ensures
            r@.synced_block == 0,
            r@.accounts == Seq::<Seq<char>>::empty(),
            r@.balances == Seq::<BalanceView>::empty(),
    {
        let r = UtxoIndexer { state: UtxoIndexerState { synced_block: 0, accounts: Vec::new(), balances: Vec::new() } };
        assert(r@.accounts =~= Seq::<Seq<char>>::empty());
        assert(r@.balances =~= Seq::<BalanceView>::empty());
        r
    }

    /// An indexer that resumes from `state`.
    pub fn from_state(state: UtxoIndexerState) -> (r: UtxoIndexer)
        ensures
            r@ == state@,
    {
        UtxoIndexer { state }
    }

    /// The indexer's state.
    pub fn state(&self) -> (r: UtxoIndexerState)
        ensures
            r@ == self@,
    {
        self.state.copy()
    }

    /// Registers `account`; an account already registered stays registered
    /// once.
    pub fn register(&mut self, account: RailgunAddress)
        ensures
            final(self)@.synced_block == old(self)@.synced_block,
            final(self)@.balances == old(self)@.balances,
            final(self)@.accounts == with_account(old(self)@.accounts, account.text@),
    {
        let n = self.state.accounts.len();
        let mut i: usize = 0;
        while i < n
            invariant
                i <= n == self.state.accounts@.len(),
                self.state@ == old(self).state@,
                forall|k: int| 0 <= k < i ==> self.state.accounts@[k].text@ != account.text@,
            decreases n - i,
        {
            if self.state.accounts[i].text == account.text {
                assert(self.state@.accounts[i as int] == account.text@);
                return;
            }
            i = i + 1;
        }
        proof {
            assert forall|k: int| 0 <= k < self@.accounts.len() implies self@.accounts[k] != account.text@ by {
                assert(self@.accounts[k] == self.state.accounts@[k].text@);
            }
        }
        let ghost t = account.text@;
        self.state.accounts.push(account);
        assert(self@.accounts =~= old(self)@.accounts.push(t));
    }

    /// The balances of `address`, as (asset, amount) pairs.
    pub fn balance(&self, address: &RailgunAddress) -> (r: Vec<(AssetId, u128)>)
        ensures
            asset_amounts_view(r@) == balances_of(self@.balances, address.text@),
            forall|k: int|
                0 <= k < r@.len() ==> self@.balances.contains(
                    (BalanceView {
                        owner: address.text@,
                        asset: (#[trigger] r@[k]).0.text@,
                        amount: r@[k].1,
                    }),
                ),
            forall|j: int|
                0 <= j < self@.balances.len() && #[trigger] self@.balances[j].owner == address.text@ ==> exists|k: int|
                    0 <= k < r@.len() && r@[k].0.text@ == self@.balances[j].asset && r@[k].1
                        == self@.balances[j].amount,
    {
        proof {
            lemma_balances_of(self@.balances, address.text@);
        }
        let mut out: Vec<(AssetId, u128)> = Vec::new();
        let n = self.state.balances.len();
        let mut i: usize = 0;
        while i < n
            invariant
                i <= n == self.state.balances@.len(),
                self@ == self.state@,
                asset_amounts_view(out@) == balances_of(
                    self@.balances.subrange(0, i as int),
                    address.text@,
                ),
            decreases n - i,
        {
            let entry = &self.state.balances[i];
            proof {
                let prev = self@.balances.subrange(0, i as int);
                let next = self@.balances.subrange(0, i + 1);
                assert(next.drop_last() =~= prev);
                assert(next.last() == entry@);
            }
            let ghost before = out@;
            if entry.owner.text == address.text {
                out.push((entry.asset.copy(), entry.amount));
                assert(asset_amounts_view(out@) =~= asset_amounts_view(before).push(
                    (entry.asset.text@, entry.amount),
                ));
            }
            i = i + 1;
        }
        assert(self@.balances.subrange(0, n as int) =~= self@.balances);
        assert forall|k: int| 0 <= k < out@.len() implies self@.balances.contains(
            (BalanceView { owner: address.text@, asset: (#[trigger] out@[k]).0.text@, amount: out@[k].1 }),
        ) by {
            assert(asset_amounts_view(out@)[k] == (out@[k].0.text@, out@[k].1));
        }
        out
    }

    /// Forgets what was synced: the synced block goes back to 0 and the
    /// balances are dropped; the registered accounts stay.
    pub fn reset(&mut self)
        ensures
            final(self)@.synced_block == 0,
            final(self)@.accounts == old(self)@.accounts,
            final(self)@.balances == Seq::<BalanceView>::empty(),
    {
        self.state.synced_block = 0;
        self.state.balances = Vec::new();
        assert(self@.balances =~= Seq::<BalanceView>::empty());
    }
}

/// A shield operation: `amount` of `asset` into the Railgun account `recipient`.
#[derive(Debug)]
pub struct ShieldOp {
    pub recipient: RailgunAddress,
    pub asset: AssetId,
    pub amount: u128,
}

/// A builder of shield transactions on a chain.
#[derive(Debug)]
pub struct ShieldBuilder {
    pub chain: ChainConfig,
    pub shields: Vec<ShieldOp>,
}

impl ShieldBuilder {
    /// A builder with no shield operation yet.
    pub fn new(chain: ChainConfig) -> (r: ShieldBuilder)
        ensures
            r.chain == chain,
            r.shields@ == Seq::<ShieldOp>::empty(),
    {
        ShieldBuilder { chain, shields: Vec::new() }
    }

    /// Adds the shield of `amount` of `asset` into `recipient`.
    pub fn shield(self, recipient: RailgunAddress, asset: AssetId, amount: u128) -> (r: ShieldBuilder)
        ensures
            r.chain == self.chain,
            r.shields@.len() == self.shields@.len() + 1,
            r.shields@.subrange(0, self.shields@.len() as int) == self.shields@,
            r.shields@.last().recipient.text@ == recipient.text@,
            r.shields@.last().asset.text@ == asset.text@,
            r.shields@.last().amount == amount,
    {
        let mut b = self;
        let ghost before = b.shields@;
        b.shields.push(ShieldOp { recipient, asset, amount });
        assert(b.shields@.subrange(0, before.len() as int) =~= before);
        b
    }
}

/// A transfer inside Railgun.
#[derive(Debug)]
pub struct TransferOp {
    pub from: RailgunAddress,
    pub to: RailgunAddress,
    pub asset: AssetId,
    pub value: u128,
    pub memo: String,
}

/// An unshield to an EVM address.
#[derive(Debug)]
pub struct UnshieldOp {
    pub from: RailgunAddress,
    pub to: Address,
    pub asset: AssetId,
    pub value: u128,
}

/// A builder of transact transactions: transfers and an unshield.
#[derive(Debug)]
pub struct TransactionBuilder {
    pub transfers: Vec<TransferOp>,
    pub unshield: Option<UnshieldOp>,
}

impl TransactionBuilder {
    /// A builder with no operation yet.
    pub fn new() -> (r: TransactionBuilder)
        ensures
            r.transfers@ == Seq::<TransferOp>::empty(),
            r.unshield is None,
    {
        TransactionBuilder { transfers: Vec::new(), unshield: None }
    }

    /// Adds a transfer of `value` of `asset` from `from` to `to`.
    pub fn transfer(self, from: RailgunAddress, to: RailgunAddress, asset: AssetId, value: u128, memo: String) -> (r: TransactionBuilder)
        ensures
            r.transfers@.len() == self.transfers@.len() + 1,
            r.transfers@.subrange(0, self.transfers@.len() as int) == self.transfers@,
            r.transfers@.last().from.text@ == from.text@,
            r.transfers@.last().to.text@ == to.text@,
            r.transfers@.last().asset.text@ == asset.text@,
            r.transfers@.last().value == value,
            r.transfers@.last().memo@ == memo@,
            r.unshield == self.unshield,
    {
        let mut b = self;
        let ghost before = b.transfers@;
        b.transfers.push(TransferOp { from, to, asset, value, memo });
        assert(b.transfers@.subrange(0, before.len() as int) =~= before);
        b
    }

    /// Sets the unshield of `value` of `asset` from `from` to the EVM address
    /// `to`, in place of any earlier one.
    pub fn set_unshield(self, from: RailgunAddress, to: Address, asset: AssetId, value: u128) -> (r: TransactionBuilder)
        ensures
            r.transfers == self.transfers,
            r.unshield matches Some(u) && u.from.text@ == from.text@ && u.to == to && u.asset.text@
                == asset.text@ && u.value == value,
    {
        let mut b = self;
        b.unshield = Some(UnshieldOp { from, to, asset, value });
        b
    }
}

/// What a Railgun provider keeps between sessions.
#[derive(Debug)]
pub struct RailgunProviderState {
    pub chain_id: u64,
    pub indexer: UtxoIndexerState,
}

/// Why a Railgun provider operation failed.
#[derive(Debug)]
pub enum RailgunProviderError {
    UnsupportedChainId(u64),
    UtxoIndexer(String),
    Build(String),
}

/// The message of a Railgun provider error: the unsupported chain's id, or
/// the step that failed.
pub open spec fn railgun_error_message(e: RailgunProviderError) -> Seq<char> {
    match e {
        RailgunProviderError::UnsupportedChainId(id) => "Unsupported chain ID: "@ + decimal_digits(id as nat),
        RailgunProviderError::UtxoIndexer(m) => "Utxo indexer error: "@ + m@,
        RailgunProviderError::Build(m) => "Build error: "@ + m@,
    }
}

impl RailgunProviderError {
    /// The error's message: the unsupported chain's id, or the step that
    /// failed.
    pub fn to_string(&self) -> (r: String)
        ensures
            r@ == railgun_error_message(*self),
    {
        match self {
            RailgunProviderError::UnsupportedChainId(id) => {
                let mut s = String::from_str("Unsupported chain ID: ");
                push_decimal(&mut s, *id as u128);
                s
            },
            RailgunProviderError::UtxoIndexer(m) => String::from_str("Utxo indexer error: ").concat(m.as_str()),
            RailgunProviderError::Build(m) => String::from_str("Build error: ").concat(m.as_str()),
        }
    }
}

/// Provides access to Railgun interactions
pub struct RailgunProvider<P> {
    pub chain: ChainConfig,
    pub(crate) utxo_indexer: UtxoIndexer,
    pub(crate) prover: P,
}

impl<P> RailgunProvider<P> {
    /// The state of the provider's UTXO indexer.
    pub closed spec fn spec_indexer(self) -> UtxoIndexerView {
        self.utxo_indexer@
    }

    /// The chain the provider works on.
    pub closed spec fn spec_chain(self) -> ChainConfig {
        self.chain
    }

    /// The provider's public `chain`, which `spec_chain` is.
    pub fn chain(&self) -> (r: ChainConfig)
        ensures
            r == self.spec_chain(),
    {
        self.chain
    }

    /// The provider's prover.
    pub closed spec fn spec_prover(self) -> P {
        self.prover
    }

    /// A provider on `chain` with a fresh UTXO indexer.
    pub fn new(chain: ChainConfig, prover: P) -> (r: RailgunProvider<P>)
        ensures
            r.spec_chain() == chain,
            r.spec_indexer().synced_block == 0,
            r.spec_indexer().accounts == Seq::<Seq<char>>::empty(),
            r.spec_indexer().balances == Seq::<BalanceView>::empty(),
            r.spec_prover() == prover,
    {
        RailgunProvider { chain, utxo_indexer: UtxoIndexer::new(), prover }
    }

    /// A provider that resumes from `state`, on `chain`: the configuration
    /// of the chain `state.chain_id`, where that chain is supported.
    pub fn from_state(state: RailgunProviderState, chain: Option<ChainConfig>, prover: P) -> (r: Result<
        RailgunProvider<P>,
        RailgunProviderError,
    >)
        requires
            chain matches Some(c) ==> c.id == state.chain_id,
        ensures
            chain is None ==> (r matches Err(RailgunProviderError::UnsupportedChainId(id)) && id
                == state.chain_id),
            chain matches Some(c) ==> (r matches Ok(p) && p.spec_chain() == c && p.spec_indexer()
                == state.indexer@ && p.spec_prover() == prover),
    {
        match chain {
            None => Err(RailgunProviderError::UnsupportedChainId(state.chain_id)),
            Some(c) => Ok(
                RailgunProvider { chain: c, utxo_indexer: UtxoIndexer::from_state(state.indexer), prover },
            ),
        }
    }

    /// The provider's state: its chain id and its indexer's state.
    pub fn state(&self) -> (r: RailgunProviderState)
        ensures
            r.chain_id == self.spec_chain().id,
            r.indexer@ == self.spec_indexer(),
    {
        RailgunProviderState { chain_id: self.chain.id, indexer: self.utxo_indexer.state() }
    }

    /// Registers an account with the provider. The provider will track the balance
    /// and transactions for this account as it syncs.
    pub fn register(&mut self, account: RailgunAddress)
        ensures
            final(self).spec_chain() == old(self).spec_chain(),
            final(self).spec_prover() == old(self).spec_prover(),
            final(self).spec_indexer().synced_block == old(self).spec_indexer().synced_block,
            final(self).spec_indexer().balances == old(self).spec_indexer().balances,
            final(self).spec_indexer().accounts == with_account(
                old(self).spec_indexer().accounts,
                account.text@,
            ),
    {
        self.utxo_indexer.register(account);
    }

    /// Raw railgun balance
    pub fn balance(&self, address: &RailgunAddress) -> (r: Vec<(AssetId, u128)>)
        ensures
            asset_amounts_view(r@) == balances_of(self.spec_indexer().balances, address.text@),
            forall|k: int|
                0 <= k < r@.len() ==> self.spec_indexer().balances.contains(
                    (BalanceView {
                        owner: address.text@,
                        asset: (#[trigger] r@[k]).0.text@,
                        amount: r@[k].1,
                    }),
                ),
            forall|j: int|
                0 <= j < self.spec_indexer().balances.len() && #[trigger] self.spec_indexer().balances[j].owner
                    == address.text@ ==> exists|k: int|
                    0 <= k < r@.len() && r@[k].0.text@ == self.spec_indexer().balances[j].asset && r@[k].1
                        == self.spec_indexer().balances[j].amount,
    {
        self.utxo_indexer.balance(address)
    }

    /// Returns a shield builder
    pub fn shield(&self) -> (r: ShieldBuilder)
        ensures
            r.chain == self.spec_chain(),
            r.shields@ == Seq::<ShieldOp>::empty(),
    {
        ShieldBuilder::new(self.chain)
    }

    /// Returns a transact builder
    pub fn transact(&self) -> (r: TransactionBuilder)
        ensures
            r.transfers@ == Seq::<TransferOp>::empty(),
            r.unshield is None,
    {
        TransactionBuilder::new()
    }

    /// Resets the provider's internal indexer state
    pub fn reset_indexer(&mut self)
        ensures
            final(self).spec_chain() == old(self).spec_chain(),
            final(self).spec_prover() == old(self).spec_prover(),
            final(self).spec_indexer().synced_block == 0,
            final(self).spec_indexer().accounts == old(self).spec_indexer().accounts,
            final(self).spec_indexer().balances == Seq::<BalanceView>::empty(),
    {
        self.utxo_indexer.reset();
    }
}

/// A provider resumed from the state of another, on the same chain, holds
/// what that one held: the state is all that a provider keeps between
/// sessions.
pub proof fn lemma_resume_from_state<P, Q>(
    p: RailgunProvider<P>,
    s: RailgunProviderState,
    resumed: RailgunProvider<Q>,
)
    requires
        s.chain_id == p.spec_chain().id,
        s.indexer@ == p.spec_indexer(),
        resumed.spec_chain() == p.spec_chain(),
        resumed.spec_indexer() == s.indexer@,
    ensures
        resumed.spec_chain() == p.spec_chain(),
        resumed.spec_indexer() == p.spec_indexer(),
{
}

} // verus!
