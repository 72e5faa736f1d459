use privacy_providers::circuit::{
    needs_reload, poi_circuit_name, transact_circuit_name, wasm_path, zkey_path, WitnessCache,
};
use privacy_providers::pool_registry::{ETHEREUM_ETHER_100, SEPOLIA_ETHER_1};
use privacy_providers::subsquid::{
    check_status, graphql_result, join_messages, latest_block, sync_events, Paginator, RetryState,
    SubsquidSyncer, SubsquidSyncerError,
};
use privacy_providers::sync_tool::{
    deposits_file_name, file_prefix, last_nonempty_line, ndjson, nullifiers_file_name, rpc_env_var,
    sync_start_block,
};

#[test]
fn subsquid_settings() {
    let s = SubsquidSyncer::new("https://squid.example/graphql");
    assert_eq!(s.url, "https://squid.example/graphql");
    assert_eq!(s.batch_size, 20000);
    assert_eq!(s.max_retries, 3);
    assert_eq!(s.retry_delay_ms, 1000);
    let s = s.with_batch_size(500).with_retry_policy(5, 250);
    assert_eq!(s.batch_size, 500);
    assert_eq!(s.max_retries, 5);
    assert_eq!(s.retry_delay_ms, 250);
}

#[test]
fn pages_follow_the_last_id() {
    let syncer = SubsquidSyncer::new("u").with_batch_size(2);
    let mut pages: Paginator<u32> = Paginator::new(&syncer, 10, 90);
    let q = pages.query();
    assert_eq!(q.id_gt, "");
    assert_eq!((q.block_number_gte, q.block_number_lte, q.limit), (10, 90, 2));
    pages.on_page(vec![("a".to_string(), 1), ("b".to_string(), 2)]);
    assert!(!pages.is_done());
    assert_eq!(pages.query().id_gt, "b");
    pages.on_page(vec![("c".to_string(), 3)]);
    assert_eq!(pages.query().id_gt, "c");
    pages.on_page(vec![]);
    assert!(pages.is_done());
    assert_eq!(pages.query().id_gt, "c");
    assert_eq!(pages.into_items(), vec![1, 2, 3]);
}

#[test]
fn sync_events_are_commitments_then_nullifiers() {
    assert_eq!(sync_events(vec![1, 2], vec![3]), vec![1, 2, 3]);
    assert_eq!(sync_events(Vec::<u8>::new(), vec![]), Vec::<u8>::new());
}

#[test]
fn latest_block_is_the_first_or_zero() {
    assert_eq!(latest_block(&vec![]), 0);
    assert_eq!(latest_block(&vec![123, 5]), 123);
}

#[test]
fn retries_are_bounded() {
    let syncer = SubsquidSyncer::new("u");
    let mut retry = RetryState::new(&syncer);
    assert!(retry.on_failure());
    assert!(retry.on_failure());
    assert!(retry.on_failure());
    assert!(!retry.on_failure());
    let no_retries = SubsquidSyncer::new("u").with_retry_policy(0, 0);
    let mut retry = RetryState::new(&no_retries);
    assert!(!retry.on_failure());
}

#[test]
fn graphql_replies() {
    let errors = vec!["bad field".to_string(), "timeout".to_string()];
    assert_eq!(join_messages(&errors), "bad field; timeout");
    assert_eq!(join_messages(&vec![]), "");
    match graphql_result::<u8>(Some(errors), Some(1)) {
        Err(SubsquidSyncerError::GraphQL(m)) => assert_eq!(m, "bad field; timeout"),
        _ => panic!("errors win over data"),
    }
    match graphql_result::<u8>(None, None) {
        Err(SubsquidSyncerError::GraphQL(m)) => assert_eq!(m, "No data in response"),
        _ => panic!("a reply without data is an error"),
    }
    assert!(matches!(graphql_result::<u8>(None, Some(7)), Ok(7)));
    assert!(check_status(200, String::new()).is_ok());
    assert!(check_status(204, String::new()).is_ok());
    match check_status(502, "bad gateway".to_string()) {
        Err(SubsquidSyncerError::Request(code, text)) => {
            assert_eq!(code, 502);
            assert_eq!(text, "bad gateway");
        }
        _ => panic!("502 is a failure"),
    }
    assert!(check_status(301, String::new()).is_err());
}

#[test]
fn rpc_env_vars() {
    assert_eq!(rpc_env_var(1), Some("RPC_URL_MAINNET"));
    assert_eq!(rpc_env_var(11155111), Some("RPC_URL_SEPOLIA"));
    assert_eq!(rpc_env_var(10), Some("RPC_URL_OPTIMISM"));
    assert_eq!(rpc_env_var(137), None);
}

#[test]
fn cache_file_names() {
    let prefix = file_prefix(&ETHEREUM_ETHER_100());
    assert_eq!(prefix, "1_ETH_100");
    assert_eq!(file_prefix(&SEPOLIA_ETHER_1()), "11155111_ETH_1");
    assert_eq!(deposits_file_name(&prefix), "1_ETH_100_deposits.ndjson");
    assert_eq!(nullifiers_file_name(&prefix), "1_ETH_100_nullifiers.ndjson");
}

#[test]
fn last_line_of_a_cache() {
    let content = b"{\"block_number\":1}\n{\"block_number\":2}\n\n";
    assert_eq!(last_nonempty_line(content), Some(b"{\"block_number\":2}".to_vec()));
    assert_eq!(last_nonempty_line(b""), None);
    assert_eq!(last_nonempty_line(b"\n\n\r\n"), None);
    assert_eq!(last_nonempty_line(b"a\r\nb\r\n"), Some(b"b".to_vec()));
    assert_eq!(last_nonempty_line(b"a\nlast"), Some(b"last".to_vec()));
    for text in ["x\ny\r\n\r\n", "only", "a\r", "\r\n", "p\n\nq\n\n\n"] {
        let expected = text.lines().filter(|l| !l.is_empty()).last().map(|l| l.as_bytes().to_vec());
        assert_eq!(last_nonempty_line(text.as_bytes()), expected, "input {:?}", text);
    }
}

#[test]
fn where_a_sync_resumes() {
    assert_eq!(sync_start_block(None, None, 0), 0);
    assert_eq!(sync_start_block(Some(10), Some(12), 0), 13);
    assert_eq!(sync_start_block(Some(20), None, 0), 21);
    assert_eq!(sync_start_block(None, Some(5), 100), 100);
    assert_eq!(sync_start_block(None, None, 9_116_966), 9_116_966);
}

#[test]
fn records_are_newline_delimited() {
    assert_eq!(ndjson(&vec!["{\"a\":1}".to_string(), "{\"b\":2}".to_string()]), "{\"a\":1}\n{\"b\":2}\n");
    assert_eq!(ndjson(&vec![]), "");
}

#[test]
fn circuit_names_and_paths() {
    assert_eq!(transact_circuit_name(1, 2), "railgun/01x02");
    assert_eq!(transact_circuit_name(10, 3), "railgun/10x03");
    assert_eq!(transact_circuit_name(0, 123), "railgun/00x123");
    assert_eq!(poi_circuit_name(3, 13), "railgun/poi/03x13");
    assert_eq!(transact_circuit_name(7, 9), format!("railgun/{:02}x{:02}", 7, 9));
    assert_eq!(zkey_path("./artifacts", "railgun/01x02"), "./artifacts/railgun/01x02.zkey");
    assert_eq!(wasm_path("./artifacts", "tc"), "./artifacts/tc.wasm");
    assert!(needs_reload(None, "tc"));
    assert!(needs_reload(Some("railgun/01x02"), "tc"));
    assert!(!needs_reload(Some("tc"), "tc"));
}

#[test]
fn witness_programs_are_reloaded_only_for_another_circuit() {
    let mut cache: WitnessCache<u32> = WitnessCache::new("./wasm");
    assert_eq!(cache.load_request("railgun/01x02"), Some("./wasm/railgun/01x02.wasm".to_string()));
    cache.on_loaded("railgun/01x02", 1);
    assert_eq!(cache.load_request("railgun/01x02"), None);
    *cache.calculator() += 10;
    assert_eq!(*cache.calculator(), 11);
    assert_eq!(cache.load_request("railgun/02x02"), Some("./wasm/railgun/02x02.wasm".to_string()));
    cache.on_loaded("railgun/02x02", 2);
    assert_eq!(*cache.calculator(), 2);
    assert_eq!(cache.load_request("railgun/01x02"), Some("./wasm/railgun/01x02.wasm".to_string()));
}
