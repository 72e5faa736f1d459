//! Pools described by a trait: each pool type says its chain, address,
//! asset and denomination, and gets its name and amount text from them.

use crate::amount::{amount_text, format_amount};
use crate::decimal::{decimal_digits, push_decimal};
use crate::primitives::Address;
use vstd::prelude::*;

verus! {

/// The asset a pool holds: the chain's native coin or an ERC-20 token.
#[derive(Debug)]
pub enum Asset {
    Native { symbol: String, decimals: u8 },
    Erc20 { address: Address, symbol: String, decimals: u8 },
}

/// What an [`Asset`] is, with its symbol as text.
pub enum AssetView {
    Native { symbol: Seq<char>, decimals: u8 },
    Erc20 { address: Address, symbol: Seq<char>, decimals: u8 },
}

impl View for Asset {
    type V = AssetView;

    open spec fn view(&self) -> AssetView {
        match self {
            Asset::Native { symbol, decimals } => AssetView::Native { symbol: symbol@, decimals: *decimals },
            Asset::Erc20 { address, symbol, decimals } => AssetView::Erc20 {
                address: *address,
                symbol: symbol@,
                decimals: *decimals,
            },
        }
    }
}

impl AssetView {
    /// The asset's ticker symbol.
    pub open spec fn symbol(self) -> Seq<char> {
        match self {
            AssetView::Native { symbol, .. } => symbol,
            AssetView::Erc20 { symbol, .. } => symbol,
        }
    }

    /// The asset's number of decimals.
    pub open spec fn decimals(self) -> nat {
        match self {
            AssetView::Native { decimals, .. } => decimals as nat,
            AssetView::Erc20 { decimals, .. } => decimals as nat,
        }
    }
}

/// The name of a pool: `eip155:<chain id>/<symbol>/<amount>`.
pub open spec fn pool_display(chain_id: u64, symbol: Seq<char>, amount: Seq<char>) -> Seq<char> {
    seq!['e', 'i', 'p', '1', '5', '5', ':'] + decimal_digits(chain_id as nat) + seq!['/'] + symbol
        + seq!['/'] + amount
}

/// A fixed-denomination pool.
pub trait Pool {
    /// The chain the pool is deployed on.
    spec fn spec_chain_id(&self) -> u64;

    /// The pool contract's address.
    spec fn spec_address(&self) -> Address;

    /// The asset the pool holds.
    spec fn spec_asset(&self) -> AssetView;

    /// The denomination, in smallest units of the asset.
    spec fn spec_amount_wei(&self) -> u128;

    fn chain_id(&self) -> (r: u64)
        ensures
            r == self.spec_chain_id(),
    ;

    fn address(&self) -> (r: Address)
        ensures
            r == self.spec_address(),
    ;

    fn asset(&self) -> (r: Asset)
        ensures
            r@ == self.spec_asset(),
    ;

    fn amount_wei(&self) -> (r: u128)
        ensures
            r == self.spec_amount_wei(),
    ;

    /// The pool's name, `eip155:<chain id>/<symbol>/<amount>`.
    fn display(&self) -> (r: String)
        requires
            self.spec_asset().decimals() <= 38,
        ensures
            r@ == pool_display(
                self.spec_chain_id(),
                self.spec_asset().symbol(),
                amount_text(self.spec_amount_wei() as nat, self.spec_asset().decimals()),
            ),
    {
        let mut s = String::new();
        proof {
            reveal_strlit("eip155:");
            reveal_strlit("/");
        }
        s.append("eip155:");
        push_decimal(&mut s, self.chain_id() as u128);
        s.append("/");
        let symbol = self.symbol();
        s.append(symbol.as_str());
        s.append("/");
        let amount = self.amount();
        s.append(amount.as_str());
        assert(s@ =~= pool_display(
            self.spec_chain_id(),
            self.spec_asset().symbol(),
            amount_text(self.spec_amount_wei() as nat, self.spec_asset().decimals()),
        ));
        s
    }

    /// The symbol of the pool's asset.
    fn symbol(&self) -> (r: String)
        ensures
            r@ == self.spec_asset().symbol(),
    {
        match self.asset() {
            Asset::Native { symbol, .. } => symbol.clone(),
            Asset::Erc20 { symbol, .. } => symbol.clone(),
        }
    }

    /// Decimal amount as a string, e.g. "0.1"
    fn amount(&self) -> (r: String)
        requires
            self.spec_asset().decimals() <= 38,
        ensures
            r@ == amount_text(self.spec_amount_wei() as nat, self.spec_asset().decimals()),
    {
        let decimals = match self.asset() {
            Asset::Native { decimals, .. } => decimals,
            Asset::Erc20 { decimals, .. } => decimals,
        };
        format_amount(self.amount_wei(), decimals)
    }
}

} // verus!
