use privacy_providers::amount::{format_amount, pow10_u128};
use privacy_providers::decimal::{parse_u128, u128_to_decimal};
use privacy_providers::pool::Pool;
use privacy_providers::pool_registry::{Asset, Pool as RegistryPool, ETHEREUM_ETHER_100, POOLS, SEPOLIA_ETHER_1};
use privacy_providers::pools::Eth1Pool;

#[test]
fn format_amount_examples() {
    assert_eq!(format_amount(100_000_000_000_000_000, 18), "0.1");
    assert_eq!(format_amount(1_000_000_000_000_000_000, 18), "1");
    assert_eq!(format_amount(100_000_000_000_000_000_000, 18), "100");
    assert_eq!(format_amount(1_500_000, 6), "1.5");
    assert_eq!(format_amount(0, 18), "0");
    assert_eq!(format_amount(1, 18), "0.000000000000000001");
    assert_eq!(format_amount(12345, 0), "12345");
    assert_eq!(format_amount(1_230_000, 3), "1230");
    assert_eq!(format_amount(u128::MAX, 38), "3.40282366920938463463374607431768211455");
}

#[test]
fn powers_of_ten() {
    assert_eq!(pow10_u128(0), 1);
    assert_eq!(pow10_u128(18), 1_000_000_000_000_000_000);
    assert_eq!(pow10_u128(38), 100_000_000_000_000_000_000_000_000_000_000_000_000);
}

#[test]
fn decimal_text_round_trip() {
    for n in [0u128, 7, 10, 99, 1_000_000, u128::MAX] {
        let text = u128_to_decimal(n);
        assert_eq!(text, n.to_string());
        assert_eq!(parse_u128(&text), Some(n));
    }
}

#[test]
fn parse_u128_matches_std() {
    for s in ["", "+", "-1", "+12", "12a", " 1", "00042", "340282366920938463463374607431768211455",
        "340282366920938463463374607431768211456", "٣"] {
        assert_eq!(parse_u128(s), s.parse::<u128>().ok(), "input {:?}", s);
    }
}

#[test]
fn registry_pools() {
    let pools = POOLS();
    assert_eq!(pools.len(), 2);
    assert_eq!(pools[0].chain_id, 11155111);
    assert_eq!(pools[1].chain_id, 1);
    let sepolia = SEPOLIA_ETHER_1();
    assert_eq!(sepolia.symbol(), "ETH");
    assert_eq!(sepolia.amount(), "1");
    assert_eq!(sepolia.to_string(), "eip155:11155111/ETH/1");
    let mainnet = ETHEREUM_ETHER_100();
    assert_eq!(mainnet.amount(), "100");
    assert_eq!(mainnet.to_string(), "eip155:1/ETH/100");
    match mainnet.asset {
        Asset::Native { symbol, decimals } => {
            assert_eq!(symbol, "ETH");
            assert_eq!(decimals, 18);
        }
        Asset::Erc20 { .. } => panic!("the pool holds ether"),
    }
}

#[test]
fn pool_from_id() {
    let found = RegistryPool::from_id("100", "ETH", 1).expect("the mainnet pool");
    assert_eq!(found.amount_wei, 100_000_000_000_000_000_000);
    assert_eq!(found.address.bytes, ETHEREUM_ETHER_100().address.bytes);
    let found = RegistryPool::from_id("1", "ETH", 11155111).expect("the sepolia pool");
    assert_eq!(found.chain_id, 11155111);
    assert!(RegistryPool::from_id("1", "ETH", 1).is_none());
    assert!(RegistryPool::from_id("100", "DAI", 1).is_none());
    assert!(RegistryPool::from_id("100.0", "ETH", 1).is_none());
    for pool in POOLS() {
        let again = RegistryPool::from_id(&pool.amount(), &pool.symbol(), pool.chain_id).unwrap();
        assert_eq!(again.to_string(), pool.to_string());
    }
}

#[test]
fn eth1_pool_display() {
    let pool = Eth1Pool {};
    assert_eq!(pool.display(), "eip155:1/ETH/1");
    assert_eq!(pool.symbol(), "ETH");
    assert_eq!(pool.amount(), "1");
    assert_eq!(pool.chain_id(), 1);
    assert_eq!(pool.amount_wei(), 1_000_000_000_000_000_000);
}
