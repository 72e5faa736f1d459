//! The pools that implement [`Pool`].

use crate::amount::pow10_u128;
use crate::decimal::pow10;
use crate::pool::{Asset, AssetView, Pool};
use crate::primitives::Address;
use vstd::prelude::*;

verus! {

/// The pool of 1 ETH on chain 1.
#[derive(Clone, Copy, Debug)]
pub struct Eth1Pool {}

/// The address of [`Eth1Pool`].
pub open spec fn eth1_pool_address() -> [u8; 20] {
    [
        0x8c, 0xc9, 0x30, 0x09, 0x6b, 0x4d, 0xf7, 0x05, 0xa0, 0x07, 0xc4, 0xa0, 0x39, 0xbd, 0xfa,
        0x13, 0x20, 0xed, 0x25, 0x08,
    ]
}

impl Pool for Eth1Pool {
    open spec fn spec_chain_id(&self) -> u64 {
        1
    }

    open spec fn spec_address(&self) -> Address {
        Address { bytes: eth1_pool_address() }
    }

    open spec fn spec_asset(&self) -> AssetView {
        AssetView::Native { symbol: "ETH"@, decimals: 18 }
    }

    open spec fn spec_amount_wei(&self) -> u128 {
        pow10(18) as u128
    }

    fn chain_id(&self) -> (r: u64) {
        1
    }

    fn address(&self) -> (r: Address) {
        Address {
            bytes: [
                0x8c, 0xc9, 0x30, 0x09, 0x6b, 0x4d, 0xf7, 0x05, 0xa0, 0x07, 0xc4, 0xa0, 0x39, 0xbd,
                0xfa, 0x13, 0x20, 0xed, 0x25, 0x08,
            ],
        }
    }

    fn asset(&self) -> (r: Asset) {
        Asset::Native { symbol: "ETH".to_owned(), decimals: 18 }
    }

    fn amount_wei(&self) -> (r: u128) {
        pow10_u128(18)
    }
}

} // verus!
