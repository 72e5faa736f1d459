//! The objects that the JavaScript bindings hand out: syncer choices, balance
//! maps, builders and providers. Each wraps a value of the library and checks
//! the text that a script passes in before it reaches that value.

use crate::decimal::{decimal_digits, parse_u128, parse_u128_spec, push_decimal};
use crate::primitives::{address_text_byte, is_address_text, parse_address, Address};
use crate::railgun::{
    asset_amounts_view, balances_of, with_account, AssetId, ChainConfig, RailgunAddress, RailgunProvider,
    ShieldBuilder, ShieldOp, TransactionBuilder, TransferOp,
};
use crate::provider::{Indexer, TornadoProvider, TornadoProviderState};
use std::sync::Arc;
use vstd::prelude::*;
use vstd::string::{StringExecFns, StringSliceAdditionalSpecFns};

verus! {

/// Where a Railgun provider reads notes from.
#[derive(Debug)]
pub enum NoteSyncerConfig {
    /// A Subsquid GraphQL endpoint.
    Subsquid { endpoint: String },
    /// An RPC node of `chain`, read `batch_size` blocks at a time.
    Rpc { rpc_url: String, chain: ChainConfig, batch_size: u64 },
    /// Several syncers, each taking over where the one before it stops.
    Chained(Vec<NoteSyncerConfig>),
}

/// A syncer handed to a script, until a provider takes it.
pub struct JsSyncer {
    pub inner: Option<NoteSyncerConfig>,
}

/// The values held by the `Some` entries of `s`, in order.
pub open spec fn somes<T>(s: Seq<Option<T>>) -> Seq<T>
    decreases s.len(),
{
    if s.len() == 0 {
        Seq::empty()
    } else {
        let rest = somes(s.drop_last());
        match s.last() {
            Some(v) => rest.push(v),
            None => rest,
        }
    }
}

impl JsSyncer {
    /// A syncer that reads from the Subsquid endpoint `endpoint`.
    pub fn with_subsquid(endpoint: &str) -> (r: JsSyncer)
        ensures
            r.inner matches Some(NoteSyncerConfig::Subsquid { endpoint: e }) && e@ == endpoint@,
    {
        JsSyncer { inner: Some(NoteSyncerConfig::Subsquid { endpoint: String::from_str(endpoint) }) }
    }

    /// A syncer that reads from the RPC node at `rpc_url`, `batch_size`
    /// blocks at a time.
    pub fn with_rpc(rpc_url: &str, chain: ChainConfig, batch_size: u64) -> (r: JsSyncer)
        ensures
            r.inner matches Some(NoteSyncerConfig::Rpc { rpc_url: u, chain: c, batch_size: b }) && u@
                == rpc_url@ && c == chain && b == batch_size,
    {
        JsSyncer {
            inner: Some(
                NoteSyncerConfig::Rpc { rpc_url: String::from_str(rpc_url), chain, batch_size },
            ),
        }
    }

    /// A syncer that chains the syncers of `syncers` that have not been
    /// taken, in their order.
    pub fn with_chained(syncers: Vec<JsSyncer>) -> (r: JsSyncer)
        ensures
            r.inner matches Some(NoteSyncerConfig::Chained(v)) && v@ == somes(
                syncers@.map_values(|j: JsSyncer| j.inner),
            ),
    {
        let ghost inners = syncers@.map_values(|j: JsSyncer| j.inner);
        let mut rest = syncers;
        let mut chained: Vec<NoteSyncerConfig> = Vec::new();
        let ghost mut done: int = 0;
        while rest.len() > 0
            invariant
                0 <= done <= inners.len(),
                rest@.len() == inners.len() - done,
                forall|k: int| 0 <= k < rest@.len() ==> (#[trigger] rest@[k]).inner == inners[done + k],
                chained@ == somes(inners.subrange(0, done)),
            decreases rest@.len(),
        {
            let first = rest.remove(0);
            proof {
                let next = inners.subrange(0, done + 1);
                assert(next.drop_last() =~= inners.subrange(0, done));
                assert(next.last() == first.inner);
            }
            match first.inner {
                Some(s) => {
                    chained.push(s);
                },
                None => {},
            }
            proof {
                done = done + 1;
            }
        }
        assert(inners.subrange(0, done) =~= inners);
        JsSyncer { inner: Some(NoteSyncerConfig::Chained(chained)) }
    }

    /// Takes the syncer out; a provider may take it once.
    pub fn take(self) -> (r: NoteSyncerConfig)
        requires
            self.inner is Some,
        ensures
            Some(r) == self.inner,
    {
        self.inner.unwrap()
    }
}

/// Whether no asset occurs twice among `entries`.
pub open spec fn distinct_assets(entries: Seq<(Seq<char>, u128)>) -> bool {
    forall|i: int, j: int| 0 <= i < j < entries.len() ==> #[trigger] entries[i].0 != #[trigger] entries[j].0
}

/// The map that `entries` give when they are inserted in order: a later
/// entry for an asset replaces an earlier one, as a hash map collects them.
pub open spec fn map_of(entries: Seq<(Seq<char>, u128)>) -> Map<Seq<char>, u128>
    decreases entries.len(),
{
    if entries.len() == 0 {
        Map::empty()
    } else {
        map_of(entries.drop_last()).insert(entries.last().0, entries.last().1)
    }
}

/// The assets of the map of `entries` are those that the entries list; where
/// no asset is listed twice, each is mapped to the amount beside it.
pub proof fn lemma_map_of(entries: Seq<(Seq<char>, u128)>)
    ensures
        forall|k: Seq<char>|
            map_of(entries).dom().contains(k) <==> exists|i: int| 0 <= i < entries.len() && #[trigger] entries[i].0
                == k,
        distinct_assets(entries) ==> forall|i: int|
            0 <= i < entries.len() ==> map_of(entries)[#[trigger] entries[i].0] == entries[i].1,
    decreases entries.len(),
{
    if entries.len() > 0 {
        let init = entries.drop_last();
        lemma_map_of(init);
        assert forall|k: Seq<char>|
            map_of(entries).dom().contains(k) <==> exists|i: int| 0 <= i < entries.len() && #[trigger] entries[i].0
                == k by {
            if map_of(entries).dom().contains(k) {
                if k == entries.last().0 {
                    assert(entries[entries.len() - 1].0 == k);
                } else {
                    assert(map_of(init).dom().contains(k));
                    assert(exists|i: int| 0 <= i < init.len() && #[trigger] init[i].0 == k);
                    let i = choose|i: int| 0 <= i < init.len() && #[trigger] init[i].0 == k;
                    assert(entries[i] == init[i]);
                }
            }
            if exists|i: int| 0 <= i < entries.len() && #[trigger] entries[i].0 == k {
                let i = choose|i: int| 0 <= i < entries.len() && #[trigger] entries[i].0 == k;
                if i < init.len() {
                    assert(init[i] == entries[i]);
                    assert(init[i].0 == k);
                    assert(map_of(init).dom().contains(k));
                } else {
                    assert(entries.last().0 == k);
                }
                assert(map_of(entries) == map_of(init).insert(entries.last().0, entries.last().1));
                assert(map_of(entries).dom().contains(k));
            }
        }
        if distinct_assets(entries) {
            assert(distinct_assets(init)) by {
                assert forall|i: int, j: int| 0 <= i < j < init.len() implies #[trigger] init[i].0
                    != #[trigger] init[j].0 by {
                    assert(init[i] == entries[i] && init[j] == entries[j]);
                }
            }
            assert forall|i: int| 0 <= i < entries.len() implies map_of(entries)[#[trigger] entries[i].0]
                == entries[i].1 by {
                if i < init.len() {
                    assert(init[i] == entries[i]);
                    assert(entries[i].0 != entries[entries.len() - 1].0);
                }
            }
        }
    }
}

proof fn lemma_map_of_update(entries: Seq<(Seq<char>, u128)>, j: int, amount: u128)
    requires
        distinct_assets(entries),
        0 <= j < entries.len(),
    ensures
        map_of(entries.update(j, (entries[j].0, amount))) == map_of(entries).insert(entries[j].0, amount),
    decreases entries.len(),
{
    let k = entries[j].0;
    let updated = entries.update(j, (k, amount));
    let init = entries.drop_last();
    if j == entries.len() - 1 {
        assert(updated.drop_last() =~= init);
        assert(map_of(updated) =~= map_of(entries).insert(k, amount));
    } else {
        assert(distinct_assets(init)) by {
            assert forall|a: int, b: int| 0 <= a < b < init.len() implies #[trigger] init[a].0
                != #[trigger] init[b].0 by {
                assert(init[a] == entries[a] && init[b] == entries[b]);
            }
        }
        assert(init[j] == entries[j]);
        lemma_map_of_update(init, j, amount);
        assert(updated.drop_last() =~= init.update(j, (k, amount)));
        assert(updated.last() == entries.last());
        assert(entries[j].0 != entries[entries.len() - 1].0);
        assert(map_of(updated) =~= map_of(entries).insert(k, amount));
    }
}

/// The balances of an account: the amount held of each asset, each asset
/// held once.
pub struct JsBalanceMap {
    inner: Vec<(AssetId, u128)>,
}

impl View for JsBalanceMap {
    type V = Map<Seq<char>, u128>;

    closed spec fn view(&self) -> Map<Seq<char>, u128> {
        map_of(asset_amounts_view(self.inner@))
    }
}

impl JsBalanceMap {
    /// No asset is held twice.
    #[verifier::type_invariant]
    spec fn assets_distinct(self) -> bool {
        distinct_assets(asset_amounts_view(self.inner@))
    }

    /// The map of the entries of `entries`, taken in order: a later entry for
    /// an asset replaces an earlier one.
    pub fn new(entries: Vec<(AssetId, u128)>) -> (r: JsBalanceMap)
        ensures
            r@ == map_of(asset_amounts_view(entries@)),
    {
        let mut out: Vec<(AssetId, u128)> = Vec::new();
        let n = entries.len();
        let mut i: usize = 0;
        while i < n
            invariant
                i <= n == entries@.len(),
                distinct_assets(asset_amounts_view(out@)),
                map_of(asset_amounts_view(out@)) == map_of(asset_amounts_view(entries@.subrange(0, i as int))),
            decreases n - i,
        {
            let key = entries[i].0.copy();
            let amount = entries[i].1;
            let ghost before = asset_amounts_view(out@);
            proof {
                let next = asset_amounts_view(entries@.subrange(0, i + 1));
                assert(next.drop_last() =~= asset_amounts_view(entries@.subrange(0, i as int)));
                assert(next.last() == (key.text@, amount));
            }
            let m = out.len();
            let mut j: usize = 0;
            while j < m && !(out[j].0.text == key.text)
                invariant
                    j <= m == out@.len(),
                    forall|k: int| 0 <= k < j ==> (#[trigger] out@[k]).0.text@ != key.text@,
                decreases m - j,
            {
                j = j + 1;
            }
            if j < m {
                let ghost old_out = out@;
                proof {
                    assert(before[j as int].0 == key.text@);
                    lemma_map_of_update(before, j as int, amount);
                }
                out.set(j, (key, amount));
                proof {
                    assert(asset_amounts_view(out@) =~= before.update(j as int, (before[j as int].0, amount)));
                    assert forall|a: int, b: int| 0 <= a < b < asset_amounts_view(out@).len() implies #[trigger] asset_amounts_view(out@)[a].0
                        != #[trigger] asset_amounts_view(out@)[b].0 by {
                        assert(asset_amounts_view(out@)[a].0 == before[a].0);
                        assert(asset_amounts_view(out@)[b].0 == before[b].0);
                    }
                }
            } else {
                let ghost t = key.text@;
                out.push((key, amount));
                proof {
                    assert(asset_amounts_view(out@) =~= before.push((t, amount)));
                    assert forall|a: int, b: int| 0 <= a < b < asset_amounts_view(out@).len() implies #[trigger] asset_amounts_view(out@)[a].0
                        != #[trigger] asset_amounts_view(out@)[b].0 by {
                        if b == m {
                            assert(out@[a].0.text@ != t);
                        } else {
                            assert(asset_amounts_view(out@)[a] == before[a]);
                            assert(asset_amounts_view(out@)[b] == before[b]);
                        }
                    }
                    assert(asset_amounts_view(out@).drop_last() =~= before);
                }
            }
            i = i + 1;
        }
        assert(entries@.subrange(0, n as int) =~= entries@);
        JsBalanceMap { inner: out }
    }

    /// The amount held of the asset with the id `asset_id`, if any.
    pub fn get(&self, asset_id: &str) -> (r: Option<u128>)
        ensures
            self@.dom().contains(asset_id@) ==> r == Some(self@[asset_id@]),
            !self@.dom().contains(asset_id@) ==> r is None,
    {
        let key = String::from_str(asset_id);
        let n = self.inner.len();
        let mut i: usize = 0;
        while i < n
            invariant
                i <= n == self.inner@.len(),
                key@ == asset_id@,
                forall|k: int| 0 <= k < i ==> (#[trigger] self.inner@[k]).0.text@ != asset_id@,
            decreases n - i,
        {
            if self.inner[i].0.text == key {
                proof {
                    use_type_invariant(self);
                    lemma_map_of(asset_amounts_view(self.inner@));
                    assert(asset_amounts_view(self.inner@)[i as int].0 == asset_id@);
                }
                return Some(self.inner[i].1);
            }
            i = i + 1;
        }
        proof {
            lemma_map_of(asset_amounts_view(self.inner@));
            assert forall|k: int| 0 <= k < asset_amounts_view(self.inner@).len() implies #[trigger] asset_amounts_view(
                self.inner@,
            )[k].0 != asset_id@ by {
                assert(self.inner@[k].0.text@ != asset_id@);
            }
        }
        None
    }

    /// The ids of the assets held, each once.
    pub fn keys(&self) -> (r: Vec<String>)
        ensures
            forall|k: int| 0 <= k < r@.len() ==> self@.dom().contains(#[trigger] r@[k]@),
            forall|a: Seq<char>| self@.dom().contains(a) ==> exists|k: int| 0 <= k < r@.len() && #[trigger] r@[k]@ == a,
            forall|j: int, k: int| 0 <= j < k < r@.len() ==> #[trigger] r@[j]@ != #[trigger] r@[k]@,
    {
        proof {
            use_type_invariant(self);
            lemma_map_of(asset_amounts_view(self.inner@));
        }
        let ghost entries = asset_amounts_view(self.inner@);
        let mut out: Vec<String> = Vec::new();
        let n = self.inner.len();
        let mut i: usize = 0;
        while i < n
            invariant
                i <= n == self.inner@.len(),
                entries == asset_amounts_view(self.inner@),
                out@.len() == i,
                forall|k: int| 0 <= k < i ==> (#[trigger] out@[k])@ == entries[k].0,
            decreases n - i,
        {
            out.push(self.inner[i].0.text.clone());
            i = i + 1;
        }
        proof {
            assert forall|k: int| 0 <= k < out@.len() implies self@.dom().contains(#[trigger] out@[k]@) by {
                assert(entries[k].0 == out@[k]@);
            }
            assert forall|a: Seq<char>| self@.dom().contains(a) implies exists|k: int|
                0 <= k < out@.len() && #[trigger] out@[k]@ == a by {
                let k = choose|k: int| 0 <= k < entries.len() && #[trigger] entries[k].0 == a;
                assert(out@[k]@ == a);
            }
            assert forall|j: int, k: int| 0 <= j < k < out@.len() implies #[trigger] out@[j]@
                != #[trigger] out@[k]@ by {
                assert(entries[j].0 != entries[k].0);
            }
        }
        out
    }
}

/// Why text that a script passed could not be used.
#[derive(Debug, PartialEq, Eq, Structural)]
pub enum JsInputError {
    /// The recipient is not the hex text of an EVM address.
    InvalidRecipientAddress,
    /// The relayer is not the hex text of an EVM address.
    InvalidRelayerAddress,
    /// The asset is not an asset id.
    InvalidAssetId,
    /// The amount is not the decimal text of a `u128`.
    InvalidAmount,
}

/// Whether `after` is `before` with one more shield operation at its end:
/// `amount` of `asset` into `recipient`.
pub open spec fn shield_added(
    before: ShieldBuilder,
    after: ShieldBuilder,
    recipient: Seq<char>,
    asset: Seq<char>,
    amount: u128,
) -> bool {
    &&& after.chain == before.chain
    &&& after.shields@.len() == before.shields@.len() + 1
    &&& after.shields@.subrange(0, before.shields@.len() as int) == before.shields@
    &&& after.shields@.last().recipient.text@ == recipient
    &&& after.shields@.last().asset.text@ == asset
    &&& after.shields@.last().amount == amount
}

/// Whether `after` is `before` with one more transfer at its end.
pub open spec fn transfer_added(
    before: TransactionBuilder,
    after: TransactionBuilder,
    from: Seq<char>,
    to: Seq<char>,
    asset: Seq<char>,
    value: u128,
    memo: Seq<char>,
) -> bool {
    &&& after.transfers@.len() == before.transfers@.len() + 1
    &&& after.transfers@.subrange(0, before.transfers@.len() as int) == before.transfers@
    &&& after.transfers@.last().from.text@ == from
    &&& after.transfers@.last().to.text@ == to
    &&& after.transfers@.last().asset.text@ == asset
    &&& after.transfers@.last().value == value
    &&& after.transfers@.last().memo@ == memo
    &&& after.unshield == before.unshield
}

/// Whether `after` is `before` with its unshield set to `value` of `asset`
/// from `from` to the EVM address written as `to`.
pub open spec fn unshield_set(
    before: TransactionBuilder,
    after: TransactionBuilder,
    from: Seq<char>,
    to: Seq<char>,
    asset: Seq<char>,
    value: u128,
) -> bool {
    &&& after.transfers == before.transfers
    &&& after.unshield matches Some(u) && u.from.text@ == from && u.asset.text@ == asset && u.value
        == value && is_address_of_text(u.to, to)
}

/// A builder of shield transactions handed to a script.
pub struct JsShieldBuilder {
    inner: ShieldBuilder,
}

impl JsShieldBuilder {
    /// The builder it wraps.
    pub closed spec fn spec_inner(self) -> ShieldBuilder {
        self.inner
    }

    /// Wraps `inner`.
    pub fn from_builder(inner: ShieldBuilder) -> (r: JsShieldBuilder)
        ensures
            r.spec_inner() == inner,
    {
        JsShieldBuilder { inner }
    }

    /// Adds the shield of `amount` (decimal text) of `asset` into
    /// `recipient`. `recipient` and `asset` are what the script's recipient
    /// and asset text parse to, `None` where the text is not a Railgun address
    /// or an asset id; they are checked in that order, then the amount, which
    /// must be the decimal text of a `u128`.
    pub fn shield(self, recipient: Option<RailgunAddress>, asset: Option<AssetId>, amount: &str) -> (r: Result<
        JsShieldBuilder,
        JsInputError,
    >)
        ensures
            recipient is None ==> r == Err::<JsShieldBuilder, JsInputError>(JsInputError::InvalidRecipientAddress),
            recipient is Some && asset is None ==> r == Err::<JsShieldBuilder, JsInputError>(
                JsInputError::InvalidAssetId,
            ),
            recipient is Some && asset is Some && parse_u128_spec(amount.spec_bytes()) is None ==> r
                == Err::<JsShieldBuilder, JsInputError>(JsInputError::InvalidAmount),
            recipient matches Some(rc) ==> (asset matches Some(a) ==> (parse_u128_spec(amount.spec_bytes())
                matches Some(v) ==> (r matches Ok(b) && shield_added(self.spec_inner(), b.spec_inner(), rc.text@, a.text@, v)))),
    {
        let recipient = match recipient {
            None => {
                return Err(JsInputError::InvalidRecipientAddress);
            },
            Some(rc) => rc,
        };
        let asset = match asset {
            None => {
                return Err(JsInputError::InvalidAssetId);
            },
            Some(a) => a,
        };
        match parse_u128(amount) {
            None => Err(JsInputError::InvalidAmount),
            Some(v) => Ok(JsShieldBuilder { inner: self.inner.shield(recipient, asset, v) }),
        }
    }

    /// The builder it wraps.
    pub fn into_builder(self) -> (r: ShieldBuilder)
        ensures
            r == self.spec_inner(),
    {
        self.inner
    }
}

/// Adds a transfer to `inner`: the recipient and the asset as parsed (`None`
/// where their text did not parse), checked in that order, then the amount
/// given as decimal text.
fn add_transfer(
    inner: TransactionBuilder,
    from: RailgunAddress,
    to: Option<RailgunAddress>,
    asset: Option<AssetId>,
    value: &str,
    memo: &str,
) -> (r: Result<TransactionBuilder, JsInputError>)
        ensures
            to is None ==> r == Err::<TransactionBuilder, JsInputError>(JsInputError::InvalidRecipientAddress),
            to is Some && asset is None ==> r == Err::<TransactionBuilder, JsInputError>(JsInputError::InvalidAssetId),
            to is Some && asset is Some && parse_u128_spec(value.spec_bytes()) is None ==> r == Err::<
                TransactionBuilder,
                JsInputError,
            >(JsInputError::InvalidAmount),
            to matches Some(t) ==> (asset matches Some(a) ==> (parse_u128_spec(value.spec_bytes()) matches Some(
                v,
            ) ==> (r matches Ok(b) && transfer_added(inner, b, from.text@, t.text@, a.text@, v, memo@)))),
{
    let to = match to {
        None => {
            return Err(JsInputError::InvalidRecipientAddress);
        },
        Some(t) => t,
    };
    let asset = match asset {
        None => {
            return Err(JsInputError::InvalidAssetId);
        },
        Some(a) => a,
    };
    match parse_u128(value) {
        None => Err(JsInputError::InvalidAmount),
        Some(v) => Ok(inner.transfer(from, to, asset, v, String::from_str(memo))),
    }
}

/// Sets the unshield of `inner`: the recipient given as hex text, the asset
/// as parsed (`None` where its text did not parse) and the amount as decimal
/// text, checked in that order.
fn add_unshield(
    inner: TransactionBuilder,
    from: RailgunAddress,
    to: &str,
    asset: Option<AssetId>,
    value: &str,
) -> (r: Result<TransactionBuilder, JsInputError>)
        ensures
            !is_address_text(to@) ==> r == Err::<TransactionBuilder, JsInputError>(JsInputError::InvalidRecipientAddress),
            is_address_text(to@) && asset is None ==> r == Err::<TransactionBuilder, JsInputError>(
                JsInputError::InvalidAssetId,
            ),
            is_address_text(to@) && asset is Some && parse_u128_spec(value.spec_bytes()) is None ==> r
                == Err::<TransactionBuilder, JsInputError>(JsInputError::InvalidAmount),
            is_address_text(to@) ==> (asset matches Some(a) ==> (parse_u128_spec(value.spec_bytes()) matches Some(
                v,
            ) ==> (r matches Ok(b) && unshield_set(inner, b, from.text@, to@, a.text@, v)))),
{
    let to_address = match parse_address(to) {
        None => {
            return Err(JsInputError::InvalidRecipientAddress);
        },
        Some(a) => a,
    };
    let asset = match asset {
        None => {
            return Err(JsInputError::InvalidAssetId);
        },
        Some(a) => a,
    };
    match parse_u128(value) {
        None => Err(JsInputError::InvalidAmount),
        Some(v) => Ok(inner.set_unshield(from, to_address, asset, v)),
    }
}

/// A builder of transact transactions (transfers and an unshield) handed to
/// a script.
pub struct JsTransactionBuilder {
    inner: TransactionBuilder,
}

impl JsTransactionBuilder {
    /// The builder it wraps.
    pub closed spec fn spec_inner(self) -> TransactionBuilder {
        self.inner
    }

    /// Wraps `inner`.
    pub fn from_builder(inner: TransactionBuilder) -> (r: JsTransactionBuilder)
        ensures
            r.spec_inner() == inner,
    {
        JsTransactionBuilder { inner }
    }

    /// Adds a transfer of `value` (decimal text) of `asset` from `from` to
    /// `to`, with `memo`. `to` and `asset` are what the script's text parses
    /// to, `None` where it is not a Railgun address or an asset id; they are
    /// checked in that order, then the amount.
    pub fn transfer(
        self,
        from: RailgunAddress,
        to: Option<RailgunAddress>,
        asset: Option<AssetId>,
        value: &str,
        memo: &str,
    ) -> (r: Result<JsTransactionBuilder, JsInputError>)
        ensures
            to is None ==> r == Err::<JsTransactionBuilder, JsInputError>(JsInputError::InvalidRecipientAddress),
            to is Some && asset is None ==> r == Err::<JsTransactionBuilder, JsInputError>(JsInputError::InvalidAssetId),
            to is Some && asset is Some && parse_u128_spec(value.spec_bytes()) is None ==> r == Err::<
                JsTransactionBuilder,
                JsInputError,
            >(JsInputError::InvalidAmount),
            to matches Some(t) ==> (asset matches Some(a) ==> (parse_u128_spec(value.spec_bytes()) matches Some(
                v,
            ) ==> (r matches Ok(b) && transfer_added(self.spec_inner(), b.spec_inner(), from.text@, t.text@, a.text@, v, memo@)))),
    {
        match add_transfer(self.inner, from, to, asset, value, memo) {
            Ok(inner) => Ok(JsTransactionBuilder { inner }),
            Err(e) => Err(e),
        }
    }

    /// Sets the unshield of `value` (decimal text) of `asset` from `from` to
    /// the EVM address written as `to` (hex text); `asset` is what the
    /// script's asset text parses to, `None` where it is not an asset id. The
    /// recipient is checked first, then the asset, then the amount.
    pub fn unshield(self, from: RailgunAddress, to: &str, asset: Option<AssetId>, value: &str) -> (r: Result<
        JsTransactionBuilder,
        JsInputError,
    >)
        ensures
            !is_address_text(to@) ==> r == Err::<JsTransactionBuilder, JsInputError>(JsInputError::InvalidRecipientAddress),
            is_address_text(to@) && asset is None ==> r == Err::<JsTransactionBuilder, JsInputError>(
                JsInputError::InvalidAssetId,
            ),
            is_address_text(to@) && asset is Some && parse_u128_spec(value.spec_bytes()) is None ==> r
                == Err::<JsTransactionBuilder, JsInputError>(JsInputError::InvalidAmount),
            is_address_text(to@) ==> (asset matches Some(a) ==> (parse_u128_spec(value.spec_bytes()) matches Some(
                v,
            ) ==> (r matches Ok(b) && unshield_set(self.spec_inner(), b.spec_inner(), from.text@, to@, a.text@, v)))),
    {
        match add_unshield(self.inner, from, to, asset, value) {
            Ok(inner) => Ok(JsTransactionBuilder { inner }),
            Err(e) => Err(e),
        }
    }

    /// The builder it wraps.
    pub fn into_builder(self) -> (r: TransactionBuilder)
        ensures
            r == self.spec_inner(),
    {
        self.inner
    }
}

/// A builder of transact transactions whose proofs of innocence are made
/// with them, handed to a script.
pub struct JsPoiTransactionBuilder {
    inner: TransactionBuilder,
}

impl JsPoiTransactionBuilder {
    /// The builder it wraps.
    pub closed spec fn spec_inner(self) -> TransactionBuilder {
        self.inner
    }

    /// Wraps `inner`.
    pub fn from_builder(inner: TransactionBuilder) -> (r: JsPoiTransactionBuilder)
        ensures
            r.spec_inner() == inner,
    {
        JsPoiTransactionBuilder { inner }
    }

    /// Adds a transfer of `value` (decimal text) of `asset` from `from` to
    /// `to`, with `memo`. `to` and `asset` are what the script's text parses
    /// to, `None` where it is not a Railgun address or an asset id; they are
    /// checked in that order, then the amount.
    pub fn transfer(
        self,
        from: RailgunAddress,
        to: Option<RailgunAddress>,
        asset: Option<AssetId>,
        value: &str,
        memo: &str,
    ) -> (r: Result<JsPoiTransactionBuilder, JsInputError>)
        ensures
            to is None ==> r == Err::<JsPoiTransactionBuilder, JsInputError>(JsInputError::InvalidRecipientAddress),
            to is Some && asset is None ==> r == Err::<JsPoiTransactionBuilder, JsInputError>(JsInputError::InvalidAssetId),
            to is Some && asset is Some && parse_u128_spec(value.spec_bytes()) is None ==> r == Err::<
                JsPoiTransactionBuilder,
                JsInputError,
            >(JsInputError::InvalidAmount),
            to matches Some(t) ==> (asset matches Some(a) ==> (parse_u128_spec(value.spec_bytes()) matches Some(
                v,
            ) ==> (r matches Ok(b) && transfer_added(self.spec_inner(), b.spec_inner(), from.text@, t.text@, a.text@, v, memo@)))),
    {
        match add_transfer(self.inner, from, to, asset, value, memo) {
            Ok(inner) => Ok(JsPoiTransactionBuilder { inner }),
            Err(e) => Err(e),
        }
    }

    /// Sets the unshield of `value` (decimal text) of `asset` from `from` to
    /// the EVM address written as `to` (hex text); `asset` is what the
    /// script's asset text parses to, `None` where it is not an asset id. The
    /// recipient is checked first, then the asset, then the amount.
    pub fn unshield(self, from: RailgunAddress, to: &str, asset: Option<AssetId>, value: &str) -> (r: Result<
        JsPoiTransactionBuilder,
        JsInputError,
    >)
        ensures
            !is_address_text(to@) ==> r == Err::<JsPoiTransactionBuilder, JsInputError>(JsInputError::InvalidRecipientAddress),
            is_address_text(to@) && asset is None ==> r == Err::<JsPoiTransactionBuilder, JsInputError>(
                JsInputError::InvalidAssetId,
            ),
            is_address_text(to@) && asset is Some && parse_u128_spec(value.spec_bytes()) is None ==> r
                == Err::<JsPoiTransactionBuilder, JsInputError>(JsInputError::InvalidAmount),
            is_address_text(to@) ==> (asset matches Some(a) ==> (parse_u128_spec(value.spec_bytes()) matches Some(
                v,
            ) ==> (r matches Ok(b) && unshield_set(self.spec_inner(), b.spec_inner(), from.text@, to@, a.text@, v)))),
    {
        match add_unshield(self.inner, from, to, asset, value) {
            Ok(inner) => Ok(JsPoiTransactionBuilder { inner }),
            Err(e) => Err(e),
        }
    }

    /// The builder it wraps.
    pub fn into_builder(self) -> (r: TransactionBuilder)
        ensures
            r == self.spec_inner(),
    {
        self.inner
    }
}

/// A proved transaction handed to a script, which it passes back to be
/// broadcast.
pub struct JsPoiProvedTx<T> {
    inner: T,
}

impl<T> JsPoiProvedTx<T> {
    /// The transaction it wraps.
    pub closed spec fn spec_inner(self) -> T {
        self.inner
    }

    /// Wraps `inner`.
    pub fn new(inner: T) -> (r: JsPoiProvedTx<T>)
        ensures
            r.spec_inner() == inner,
    {
        JsPoiProvedTx { inner }
    }

    /// The transaction it wraps.
    pub fn into_inner(self) -> (r: T)
        ensures
            r == self.spec_inner(),
    {
        self.inner
    }
}

/// A Railgun provider handed to a script.
pub struct JsRailgunProvider<P> {
    inner: RailgunProvider<P>,
}

impl<P> JsRailgunProvider<P> {
    /// The provider it wraps.
    pub closed spec fn spec_inner(self) -> RailgunProvider<P> {
        self.inner
    }

    /// A provider on `chain`, with a fresh indexer, that proves with `prover`.
    pub fn new(chain: ChainConfig, prover: P) -> (r: JsRailgunProvider<P>)
        ensures
            r.spec_inner().spec_chain() == chain,
            r.spec_inner().spec_indexer().synced_block == 0,
            r.spec_inner().spec_indexer().accounts == Seq::<Seq<char>>::empty(),
            r.spec_inner().spec_indexer().balances == Seq::<crate::railgun::BalanceView>::empty(),
            r.spec_inner().spec_prover() == prover,
    {
        JsRailgunProvider { inner: RailgunProvider::new(chain, prover) }
    }

    /// Wraps `inner`.
    pub fn from_provider(inner: RailgunProvider<P>) -> (r: JsRailgunProvider<P>)
        ensures
            r.spec_inner() == inner,
    {
        JsRailgunProvider { inner }
    }

    /// Registers the account of a signer, as the provider does.
    pub fn register(&mut self, account: RailgunAddress)
        ensures
            final(self).spec_inner().spec_chain() == old(self).spec_inner().spec_chain(),
            final(self).spec_inner().spec_prover() == old(self).spec_inner().spec_prover(),
            final(self).spec_inner().spec_indexer().synced_block == old(self).spec_inner().spec_indexer().synced_block,
            final(self).spec_inner().spec_indexer().balances == old(self).spec_inner().spec_indexer().balances,
            final(self).spec_inner().spec_indexer().accounts == with_account(
                old(self).spec_inner().spec_indexer().accounts,
                account.text@,
            ),
    {
        self.inner.register(account);
    }

    /// The balances of `address`, as a map.
    pub fn balance(&self, address: &RailgunAddress) -> (r: JsBalanceMap)
        ensures
            r@ == map_of(balances_of(self.spec_inner().spec_indexer().balances, address.text@)),
    {
        JsBalanceMap::new(self.inner.balance(address))
    }

    /// A shield builder on the provider's chain.
    pub fn shield(&self) -> (r: JsShieldBuilder)
        ensures
            r.spec_inner().chain == self.spec_inner().spec_chain(),
            r.spec_inner().shields@ == Seq::<ShieldOp>::empty(),
    {
        JsShieldBuilder { inner: self.inner.shield() }
    }

    /// A transact builder with no operation yet.
    pub fn transact(&self) -> (r: JsTransactionBuilder)
        ensures
            r.spec_inner().transfers@ == Seq::<TransferOp>::empty(),
            r.spec_inner().unshield is None,
    {
        JsTransactionBuilder { inner: self.inner.transact() }
    }

    /// Resets the provider's indexer: the synced block goes back to 0 and the
    /// balances are dropped; the registered accounts stay.
    pub fn reset_indexer(&mut self)
        ensures
            final(self).spec_inner().spec_chain() == old(self).spec_inner().spec_chain(),
            final(self).spec_inner().spec_prover() == old(self).spec_inner().spec_prover(),
            final(self).spec_inner().spec_indexer().synced_block == 0,
            final(self).spec_inner().spec_indexer().accounts == old(self).spec_inner().spec_indexer().accounts,
            final(self).spec_inner().spec_indexer().balances == Seq::<
                crate::railgun::BalanceView,
            >::empty(),
    {
        self.inner.reset_indexer();
    }

    /// The provider it wraps.
    pub fn inner(&self) -> (r: &RailgunProvider<P>)
        ensures
            *r == self.spec_inner(),
    {
        &self.inner
    }

    /// The provider it wraps, to change it in place.
    pub fn inner_mut(&mut self) -> (r: &mut RailgunProvider<P>)
        ensures
            *r == old(self).spec_inner(),
            final(self).spec_inner() == *final(r),
    {
        &mut self.inner
    }
}

/// Another handle to the value that `a` points to, as `Arc::clone` gives:
/// a new pointer to the same allocation.
#[verifier::external_body]
fn share<S>(a: &Arc<S>) -> (r: Arc<S>)
    ensures
        r == *a,
{
    Arc::clone(a)
}

/// A relayer syncer handed to a script, shared with the providers that use
/// it.
pub struct JsRelayerSyncer<S> {
    inner: Arc<S>,
}

impl<S> JsRelayerSyncer<S> {
    /// The syncer it holds.
    pub closed spec fn spec_inner(self) -> S {
        *self.inner
    }

    /// Holds `syncer`.
    pub fn new(syncer: S) -> (r: JsRelayerSyncer<S>)
        ensures
            r.spec_inner() == syncer,
    {
        JsRelayerSyncer { inner: Arc::new(syncer) }
    }

    /// Another handle to the syncer.
    pub fn inner(&self) -> (r: Arc<S>)
        ensures
            *r == self.spec_inner(),
    {
        share(&self.inner)
    }
}

/// A Tornado Cash provider handed to a script.
pub struct JsTornadoProvider<P> {
    inner: TornadoProvider<P>,
}

impl<P> JsTornadoProvider<P> {
    /// The provider it wraps.
    pub closed spec fn spec_inner(self) -> TornadoProvider<P> {
        self.inner
    }

    /// Wraps `inner`.
    pub fn from_provider(inner: TornadoProvider<P>) -> (r: JsTornadoProvider<P>)
        ensures
            r.spec_inner() == inner,
    {
        JsTornadoProvider { inner }
    }

    /// A provider on the chain `chain_id` with `indexer` and `prover`.
    pub fn new(chain_id: u64, indexer: Indexer, prover: P) -> (r: JsTornadoProvider<P>)
        ensures
            r.spec_inner().spec_chain_id() == chain_id,
            r.spec_inner().spec_indexer() == indexer@,
            r.spec_inner().spec_prover() == prover,
    {
        JsTornadoProvider { inner: TornadoProvider::new(chain_id, indexer, prover) }
    }

    /// Resumes from `state`, as the provider does.
    pub fn set_state(&mut self, state: TornadoProviderState)
        ensures
            final(self).spec_inner().spec_chain_id() == state.chain_id,
            final(self).spec_inner().spec_indexer() == state.indexer_state@,
            final(self).spec_inner().spec_prover() == old(self).spec_inner().spec_prover(),
    {
        self.inner.set_state(state);
    }

    /// The provider's state.
    pub fn state(&self) -> (r: TornadoProviderState)
        ensures
            r.chain_id == self.spec_inner().spec_chain_id(),
            r.indexer_state@ == self.spec_inner().spec_indexer(),
    {
        self.inner.state()
    }
}

/// Whether `a` is the address written as `text`.
pub open spec fn is_address_of_text(a: Address, text: Seq<char>) -> bool {
    forall|k: int| 0 <= k < 20 ==> #[trigger] a.bytes[k] as nat == address_text_byte(text, k)
}

/// The recipient and the relayer of a withdrawal, from their hex text; the
/// recipient is checked first.
pub fn withdraw_addresses(recipient: &str, relayer: &str) -> (r: Result<(Address, Address), JsInputError>)
    ensures
        !is_address_text(recipient@) ==> r == Err::<(Address, Address), JsInputError>(
            JsInputError::InvalidRecipientAddress,
        ),
        is_address_text(recipient@) && !is_address_text(relayer@) ==> r == Err::<
            (Address, Address),
            JsInputError,
        >(JsInputError::InvalidRelayerAddress),
        is_address_text(recipient@) && is_address_text(relayer@) ==> (r matches Ok((a, b))
            && is_address_of_text(a, recipient@) && is_address_of_text(b, relayer@)),
{
    let a = match parse_address(recipient) {
        None => {
            return Err(JsInputError::InvalidRecipientAddress);
        },
        Some(a) => a,
    };
    let b = match parse_address(relayer) {
        None => {
            return Err(JsInputError::InvalidRelayerAddress);
        },
        Some(b) => b,
    };
    Ok((a, b))
}

/// A root verifier handed to a script, shared with the providers that use
/// it.
pub struct JsVerifier<V> {
    inner: Arc<V>,
}

impl<V> JsVerifier<V> {
    /// The verifier it holds.
    pub closed spec fn spec_inner(self) -> V {
        *self.inner
    }

    /// Holds `verifier`.
    pub fn new(verifier: V) -> (r: JsVerifier<V>)
        ensures
            r.spec_inner() == verifier,
    {
        JsVerifier { inner: Arc::new(verifier) }
    }

    /// Another handle to the verifier.
    pub fn inner(&self) -> (r: Arc<V>)
        ensures
            *r == self.spec_inner(),
    {
        share(&self.inner)
    }
}

/// The message of a provider set-up that names no supported chain.
pub open spec fn unsupported_chain_message(chain_id: u64) -> Seq<char> {
    "Unsupported chain ID: "@ + decimal_digits(chain_id as nat)
}

/// The message of a provider set-up on a chain without a proof-of-innocence
/// service.
pub open spec fn no_poi_endpoint_message(chain_id: u64) -> Seq<char> {
    "Chain ID "@ + decimal_digits(chain_id as nat) + " does not have a POI endpoint configured"@
}

/// What a provider with proofs of innocence is set up with on the chain
/// `chain_id`: its configuration `chain` (`None` where the chain is not
/// supported) and the chain's proof-of-innocence endpoint (`None` where it
/// has none). An unsupported chain is refused first, then a chain without an
/// endpoint.
pub fn poi_provider_setup(chain_id: u64, chain: Option<ChainConfig>, poi_endpoint: Option<String>) -> (r: Result<
    (ChainConfig, String),
    String,
>)
    ensures
        chain is None ==> (r matches Err(m) && m@ == unsupported_chain_message(chain_id)),
        chain is Some && poi_endpoint is None ==> (r matches Err(m) && m@ == no_poi_endpoint_message(
            chain_id,
        )),
        chain matches Some(c) ==> (poi_endpoint matches Some(e) ==> (r matches Ok((c2, e2)) && c2 == c && e2@
            == e@)),
{
    let c = match chain {
        None => {
            let mut m = String::from_str("Unsupported chain ID: ");
            push_decimal(&mut m, chain_id as u128);
            return Err(m);
        },
        Some(c) => c,
    };
    match poi_endpoint {
        None => {
            let mut m = String::from_str("Chain ID ");
            push_decimal(&mut m, chain_id as u128);
            m.append(" does not have a POI endpoint configured");
            Err(m)
        },
        Some(e) => Ok((c, e)),
    }
}

} // verus!
