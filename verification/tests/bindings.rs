use alloy_primitives::Address as AlloyAddress;
use privacy_providers::bindings::{
    JsBalanceMap, JsInputError, JsPoiProvedTx, JsPoiTransactionBuilder, JsRailgunProvider,
    JsRelayerSyncer, JsSyncer, JsTornadoProvider, JsVerifier, NoteSyncerConfig, poi_provider_setup, withdraw_addresses,
};
use privacy_providers::broadcast::{
    broadcast_outcome, BroadcastRace, BroadcastableTx, IndexWait, IndexerWaitError, PoiProviderError,
};
use privacy_providers::client::EthRpcClientError;
use privacy_providers::groth16::U256;
use privacy_providers::primitives::{Address, B256};
use privacy_providers::provider::{Indexer, IndexerState, TornadoProviderState};
use privacy_providers::railgun::{
    AssetId, BalanceEntry, ChainConfig, RailgunAddress, RailgunProvider, RailgunProviderError,
    RailgunProviderState, TransactionBuilder, UtxoIndexerState,
};
use privacy_providers::tx_data::{JsTxData, TxData};
use std::str::FromStr;

fn chain() -> ChainConfig {
    ChainConfig { id: 1, railgun_smart_wallet: Address::new([0xfa; 20]) }
}

fn account(name: &str) -> RailgunAddress {
    RailgunAddress::new(name.to_string())
}

fn asset(name: &str) -> AssetId {
    AssetId::new(name.to_string())
}

#[test]
fn syncer_choices() {
    let subsquid = JsSyncer::with_subsquid("https://squid");
    match subsquid.take() {
        NoteSyncerConfig::Subsquid { endpoint } => assert_eq!(endpoint, "https://squid"),
        _ => panic!("a subsquid syncer"),
    }
    let taken = JsSyncer { inner: None };
    let chained = JsSyncer::with_chained(vec![
        JsSyncer::with_subsquid("a"),
        taken,
        JsSyncer::with_rpc("http://node", chain(), 1000),
    ]);
    match chained.take() {
        NoteSyncerConfig::Chained(v) => {
            assert_eq!(v.len(), 2);
            assert!(matches!(&v[0], NoteSyncerConfig::Subsquid { endpoint } if endpoint == "a"));
            assert!(matches!(&v[1], NoteSyncerConfig::Rpc { rpc_url, batch_size: 1000, .. } if rpc_url == "http://node"));
        }
        _ => panic!("a chained syncer"),
    }
}

#[test]
fn balance_map_lookup() {
    let map = JsBalanceMap::new(vec![(asset("erc20:0xaa"), 5), (asset("erc20:0xbb"), 7)]);
    let mut keys = map.keys();
    keys.sort();
    assert_eq!(keys, vec!["erc20:0xaa".to_string(), "erc20:0xbb".to_string()]);
    assert_eq!(map.get("erc20:0xbb"), Some(7));
    assert_eq!(map.get("erc20:0xcc"), None);
    for key in map.keys() {
        assert!(map.get(&key).is_some());
    }
}

#[test]
fn railgun_provider_accounts_and_balances() {
    let state = RailgunProviderState {
        chain_id: 1,
        indexer: UtxoIndexerState {
            synced_block: 77,
            accounts: vec![account("0zkalice")],
            balances: vec![
                BalanceEntry { owner: account("0zkalice"), asset: asset("erc20:0xaa"), amount: 5 },
                BalanceEntry { owner: account("0zkbob"), asset: asset("erc20:0xaa"), amount: 9 },
                BalanceEntry { owner: account("0zkalice"), asset: asset("erc20:0xbb"), amount: 3 },
            ],
        },
    };
    let provider = match RailgunProvider::from_state(state, Some(chain()), ()) {
        Ok(p) => p,
        Err(_) => panic!("the chain is supported"),
    };
    let mut js = JsRailgunProvider::from_provider(provider);
    let balance = js.balance(&account("0zkalice"));
    let mut keys = balance.keys();
    keys.sort();
    assert_eq!(keys, vec!["erc20:0xaa".to_string(), "erc20:0xbb".to_string()]);
    assert_eq!(balance.get("erc20:0xbb"), Some(3));
    js.register(account("0zkbob"));
    js.register(account("0zkbob"));
    js.register(account("0zkalice"));
    let accounts: Vec<String> = js.inner().state().indexer.accounts.iter().map(|a| a.text.clone()).collect();
    assert_eq!(accounts, vec!["0zkalice".to_string(), "0zkbob".to_string()]);
    js.reset_indexer();
    let after = js.inner().state();
    assert_eq!(after.indexer.synced_block, 0);
    assert!(after.indexer.balances.is_empty());
    assert_eq!(after.indexer.accounts.len(), 2);
    assert!(js.balance(&account("0zkalice")).keys().is_empty());
    js.inner_mut().register(account("0zkcarol"));
    assert_eq!(js.inner().state().indexer.accounts.len(), 3);
}

#[test]
fn unsupported_chain_is_refused() {
    let state = RailgunProviderState {
        chain_id: 424242,
        indexer: UtxoIndexerState { synced_block: 0, accounts: vec![], balances: vec![] },
    };
    match RailgunProvider::from_state(state, None, ()) {
        Err(RailgunProviderError::UnsupportedChainId(id)) => assert_eq!(id, 424242),
        _ => panic!("no configuration for the chain"),
    }
}

#[test]
fn shield_builder_parses_the_amount() {
    let js = JsRailgunProvider::new(chain(), ());
    let builder = js.shield();
    let builder = match builder.shield(Some(account("0zkalice")), Some(asset("erc20:0xaa")), "1500") {
        Ok(b) => b,
        Err(_) => panic!("1500 is an amount"),
    };
    let inner = builder.into_builder();
    assert_eq!(inner.shields.len(), 1);
    assert_eq!(inner.shields[0].amount, 1500);
    assert_eq!(inner.shields[0].recipient.text, "0zkalice");
    assert_eq!(inner.chain.id, 1);
    let builder = privacy_providers::bindings::JsShieldBuilder::from_builder(inner);
    assert!(matches!(builder.shield(Some(account("0zkalice")), Some(asset("erc20:0xaa")), "1.5"), Err(JsInputError::InvalidAmount)));
}

#[test]
fn transaction_builder_checks_its_inputs() {
    let js = JsRailgunProvider::new(chain(), ());
    let b = match js.transact().transfer(account("0zka"), Some(account("0zkb")), Some(asset("erc20:0xaa")), "42", "hi") {
        Ok(b) => b,
        Err(_) => panic!("a valid transfer"),
    };
    let recipient = "0x8Cc930096B4Df705A007C4A039BDFA1320Ed2508";
    let b = match b.unshield(account("0zka"), recipient, Some(asset("erc20:0xaa")), "7") {
        Ok(b) => b,
        Err(_) => panic!("a valid unshield"),
    };
    let inner: TransactionBuilder = b.into_builder();
    assert_eq!(inner.transfers.len(), 1);
    assert_eq!(inner.transfers[0].value, 42);
    assert_eq!(inner.transfers[0].memo, "hi");
    let unshield = inner.unshield.expect("an unshield");
    assert_eq!(unshield.value, 7);
    assert_eq!(unshield.to.bytes, AlloyAddress::from_str(recipient).unwrap().0 .0);

    let poi = JsPoiTransactionBuilder::from_builder(TransactionBuilder::new());
    assert!(matches!(
        poi.unshield(account("0zka"), "0x1234", Some(asset("erc20:0xaa")), "7"),
        Err(JsInputError::InvalidRecipientAddress)
    ));
    let poi = JsPoiTransactionBuilder::from_builder(TransactionBuilder::new());
    assert!(matches!(
        poi.unshield(account("0zka"), "8cc930096b4df705a007c4a039bdfa1320ed2508", Some(asset("erc20:0xaa")), "-7"),
        Err(JsInputError::InvalidAmount)
    ));
    let poi = JsPoiTransactionBuilder::from_builder(TransactionBuilder::new());
    assert!(matches!(
        poi.transfer(account("0zka"), Some(account("0zkb")), Some(asset("x")), "", ""),
        Err(JsInputError::InvalidAmount)
    ));
    let proved = JsPoiProvedTx::new(5u8);
    assert_eq!(proved.into_inner(), 5);
}

#[test]
fn tx_data_as_text() {
    let to_text = "0x8Cc930096B4Df705A007C4A039BDFA1320Ed2508";
    let to = AlloyAddress::from_str(to_text).unwrap();
    let tx = JsTxData::new(TxData::new(Address::new(to.0 .0), vec![0xde, 0xad, 0x01], U256::from_u128(1_000)));
    assert_eq!(tx.to(), to.to_checksum(None));
    assert_eq!(tx.to().to_lowercase(), to_text.to_lowercase());
    assert_eq!(tx.data(), vec![0xde, 0xad, 0x01]);
    assert_eq!(tx.data_hex(), "0xdead01");
    assert_eq!(tx.value(), "1000");
    let zero = JsTxData::new(TxData::new(Address::zero(), vec![], U256::zero()));
    assert_eq!(zero.data_hex(), "0x");
    assert_eq!(zero.value(), "0");
    assert_eq!(zero.to(), "0x0000000000000000000000000000000000000000");
}

#[test]
fn relayer_syncer_is_shared() {
    let js = JsRelayerSyncer::new(41u32);
    let a = js.inner();
    let b = js.inner();
    assert_eq!(*a, 41);
    assert!(std::sync::Arc::ptr_eq(&a, &b));
}

#[test]
fn tornado_binding_state() {
    let mut js = JsTornadoProvider::new(1, Indexer::new(), ());
    js.set_state(TornadoProviderState {
        chain_id: 5,
        indexer_state: IndexerState { synced_block: 9, commitments: vec![B256::new([1; 32])], nullifiers: vec![] },
    });
    let s = js.state();
    assert_eq!(s.chain_id, 5);
    assert_eq!(s.indexer_state.synced_block, 9);
    assert_eq!(s.indexer_state.commitments.len(), 1);
}

#[test]
fn broadcast_race_outcomes() {
    assert!(broadcast_outcome(BroadcastRace::BroadcasterSent(B256::new([1; 32]))).is_ok());
    assert!(broadcast_outcome(BroadcastRace::IndexerFound).is_ok());
    assert!(matches!(
        broadcast_outcome(BroadcastRace::BroadcasterFailed("rejected".to_string())),
        Err(PoiProviderError::Broadcast(m)) if m == "rejected"
    ));
    assert!(matches!(
        broadcast_outcome(BroadcastRace::IndexerFailed(IndexerWaitError::Timeout)),
        Err(PoiProviderError::Timeout)
    ));
    match broadcast_outcome(BroadcastRace::IndexerFailed(IndexerWaitError::Other("gone".to_string()))) {
        Err(e) => assert_eq!(e.to_string(), "Railgun provider error: Utxo indexer error: gone"),
        Ok(()) => panic!("an indexer failure is an error"),
    }
    assert_eq!(PoiProviderError::Timeout.to_string(), "Timed out waiting for operation to land on-chain");
}

#[test]
fn waiting_for_txids() {
    let mut wait = IndexWait::new(vec![Some(B256::new([1; 32])), None, Some(B256::new([2; 32]))]);
    assert_eq!(wait.next_txid(), Some(B256::new([2; 32])));
    wait.on_checked(false);
    assert_eq!(wait.next_txid(), Some(B256::new([2; 32])));
    wait.on_checked(true);
    assert_eq!(wait.next_txid(), Some(B256::new([1; 32])));
    wait.on_checked(true);
    assert_eq!(wait.next_txid(), None);
}

#[test]
fn broadcastable_parts() {
    let mut submitted: Vec<u8> = vec![];
    let tx = BroadcastableTx::new("proved", 3u16, &mut submitted);
    let (inner, broadcaster, submitter) = tx.into_parts();
    submitter.push(1);
    assert_eq!(inner, "proved");
    assert_eq!(broadcaster, 3);
    assert_eq!(submitted, vec![1]);
}

#[test]
fn rpc_error_messages() {
    assert_eq!(EthRpcClientError::Rpc("down".to_string()).to_string(), "RPC error: down");
    assert_eq!(EthRpcClientError::Decode("bad".to_string()).to_string(), "Decode error: bad");
}

#[test]
fn withdrawal_addresses() {
    let good = "0x8Cc930096B4Df705A007C4A039BDFA1320Ed2508";
    let (a, b) = match withdraw_addresses(good, "0x0000000000000000000000000000000000000001") {
        Ok(pair) => pair,
        Err(_) => panic!("both are addresses"),
    };
    assert_eq!(a.bytes, AlloyAddress::from_str(good).unwrap().0 .0);
    assert_eq!(b.bytes[19], 1);
    assert!(matches!(withdraw_addresses("nope", good), Err(JsInputError::InvalidRecipientAddress)));
    assert!(matches!(withdraw_addresses(good, "0x12"), Err(JsInputError::InvalidRelayerAddress)));
    assert!(matches!(withdraw_addresses("0x12", "0x12"), Err(JsInputError::InvalidRecipientAddress)));
}

#[test]
fn verifier_is_shared() {
    let js = JsVerifier::new(String::from("rpc"));
    assert_eq!(*js.inner(), "rpc");
}

#[test]
fn railgun_error_messages() {
    assert_eq!(RailgunProviderError::UnsupportedChainId(137).to_string(), "Unsupported chain ID: 137");
    assert_eq!(RailgunProviderError::Build("no notes".to_string()).to_string(), "Build error: no notes");
    assert_eq!(RailgunProviderError::UtxoIndexer("x".to_string()).to_string(), "Utxo indexer error: x");
}

#[test]
fn checksummed_text_reads_back() {
    for bytes in [[0u8; 20], [0xffu8; 20], [0x8c; 20], [0x1a; 20]] {
        let tx = JsTxData::new(TxData::new(Address::new(bytes), vec![], U256::zero()));
        let text = tx.to();
        let (a, _) = match withdraw_addresses(&text, &text.to_lowercase()) {
            Ok(pair) => pair,
            Err(_) => panic!("a checksummed address parses"),
        };
        assert_eq!(a.bytes, bytes);
    }
}

#[test]
fn balance_map_holds_each_asset_once() {
    let map = JsBalanceMap::new(vec![
        (asset("erc20:0xaa"), 5),
        (asset("erc20:0xbb"), 7),
        (asset("erc20:0xaa"), 9),
    ]);
    let mut keys = map.keys();
    keys.sort();
    assert_eq!(keys, vec!["erc20:0xaa".to_string(), "erc20:0xbb".to_string()]);
    assert_eq!(map.get("erc20:0xaa"), Some(9));
    assert_eq!(map.get("erc20:0xbb"), Some(7));
    assert!(JsBalanceMap::new(vec![]).keys().is_empty());
}

#[test]
fn builders_refuse_unparsed_recipients_and_assets() {
    let js = JsRailgunProvider::new(chain(), ());
    assert!(matches!(
        js.shield().shield(None, Some(asset("erc20:0xaa")), "5"),
        Err(JsInputError::InvalidRecipientAddress)
    ));
    assert!(matches!(js.shield().shield(Some(account("0zka")), None, "5"), Err(JsInputError::InvalidAssetId)));
    assert!(matches!(js.shield().shield(None, None, "x"), Err(JsInputError::InvalidRecipientAddress)));
    assert!(matches!(
        js.transact().transfer(account("0zka"), None, Some(asset("erc20:0xaa")), "5", ""),
        Err(JsInputError::InvalidRecipientAddress)
    ));
    assert!(matches!(
        js.transact().transfer(account("0zka"), Some(account("0zkb")), None, "x", ""),
        Err(JsInputError::InvalidAssetId)
    ));
    assert!(matches!(
        js.transact().unshield(account("0zka"), "0x8cc930096b4df705a007c4a039bdfa1320ed2508", None, "5"),
        Err(JsInputError::InvalidAssetId)
    ));
    assert!(matches!(js.transact().unshield(account("0zka"), "zz", None, "5"), Err(JsInputError::InvalidRecipientAddress)));
    let poi = JsPoiTransactionBuilder::from_builder(TransactionBuilder::new());
    assert!(matches!(
        poi.transfer(account("0zka"), Some(account("0zkb")), None, "5", ""),
        Err(JsInputError::InvalidAssetId)
    ));
}

#[test]
fn poi_provider_setup_checks_the_chain() {
    match poi_provider_setup(137, None, Some("https://poi".to_string())) {
        Err(m) => assert_eq!(m, "Unsupported chain ID: 137"),
        Ok(_) => panic!("no configuration for the chain"),
    }
    match poi_provider_setup(1, Some(chain()), None) {
        Err(m) => assert_eq!(m, "Chain ID 1 does not have a POI endpoint configured"),
        Ok(_) => panic!("no endpoint"),
    }
    match poi_provider_setup(1, Some(chain()), Some("https://poi".to_string())) {
        Ok((c, e)) => {
            assert_eq!(c.id, 1);
            assert_eq!(e, "https://poi");
        }
        Err(_) => panic!("a configured chain"),
    }
}

#[test]
fn railgun_provider_chain() {
    let provider = RailgunProvider::new(chain(), ());
    assert_eq!(provider.chain().id, 1);
}
