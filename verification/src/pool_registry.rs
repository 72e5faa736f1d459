//! The Tornado Cash pools this library knows, and how a pool is named and
//! found again by its denomination: chain, asset symbol and amount.

use crate::amount::{amount_text, format_amount};
use crate::decimal::{decimal_digits, push_decimal};
use crate::primitives::Address;
use vstd::prelude::*;

verus! {

/// The asset a pool holds: the chain's native coin or an ERC-20 token.
#[derive(Clone, Copy, Debug)]
pub enum Asset {
    Native { symbol: &'static str, decimals: u8 },
    Erc20 { address: Address, symbol: &'static str, decimals: u8 },
}

/// A fixed-denomination pool: every deposit into it is `amount_wei` smallest
/// units of its asset.
#[derive(Clone, Copy, Debug)]
pub struct Pool {
    pub chain_id: u64,
    pub address: Address,
    pub asset: Asset,
    pub amount_wei: u128,
}

impl Asset {
    /// The asset's ticker symbol.
    pub open spec fn spec_symbol(self) -> Seq<char> {
        match self {
            Asset::Native { symbol, .. } => symbol@,
            Asset::Erc20 { symbol, .. } => symbol@,
        }
    }

    /// The asset's number of decimals.
    pub open spec fn spec_decimals(self) -> nat {
        match self {
            Asset::Native { decimals, .. } => decimals as nat,
            Asset::Erc20 { decimals, .. } => decimals as nat,
        }
    }
}

impl Pool {
    /// The text of the pool's denomination in whole units of its asset.
    pub open spec fn spec_amount(self) -> Seq<char> {
        amount_text(self.amount_wei as nat, self.asset.spec_decimals())
    }

    /// Whether the pool has the denomination named by `amount`, `symbol` and
    /// `chain_id`.
    pub open spec fn has_id(self, amount: Seq<char>, symbol: Seq<char>, chain_id: u64) -> bool {
        &&& self.chain_id == chain_id
        &&& self.asset.spec_symbol() == symbol
        &&& self.spec_amount() == amount
    }

    /// The pool's name: `eip155:<chain id>/<symbol>/<amount>`.
    pub open spec fn spec_display(self) -> Seq<char> {
        seq!['e', 'i', 'p', '1', '5', '5', ':'] + decimal_digits(self.chain_id as nat) + seq!['/']
            + self.asset.spec_symbol() + seq!['/'] + self.spec_amount()
    }
}

/// The address of the Sepolia 1 ETH pool.
pub open spec fn sepolia_ether_1_address() -> [u8; 20] {
    [
        0x8c, 0xc9, 0x30, 0x09, 0x6b, 0x4d, 0xf7, 0x05, 0xa0, 0x07, 0xc4, 0xa0, 0x39, 0xbd, 0xfa,
        0x13, 0x20, 0xed, 0x25, 0x08,
    ]
}

/// The address of the Ethereum 100 ETH pool.
pub open spec fn ethereum_ether_100_address() -> [u8; 20] {
    [
        0xa1, 0x60, 0xcd, 0xab, 0x22, 0x56, 0x85, 0xda, 0x1d, 0x56, 0xaa, 0x34, 0x2a, 0xd8, 0x84,
        0x1c, 0x3b, 0x53, 0xf2, 0x91,
    ]
}

/// The Sepolia pool of 1 ETH.
pub open spec fn spec_sepolia_ether_1() -> Pool {
    Pool {
        chain_id: 11155111,
        address: Address { bytes: sepolia_ether_1_address() },
        asset: Asset::Native { symbol: "ETH", decimals: 18 },
        amount_wei: 1000000000000000000,
    }
}

/// The Ethereum mainnet pool of 100 ETH.
pub open spec fn spec_ethereum_ether_100() -> Pool {
    Pool {
        chain_id: 1,
        address: Address { bytes: ethereum_ether_100_address() },
        asset: Asset::Native { symbol: "ETH", decimals: 18 },
        amount_wei: 100000000000000000000,
    }
}

/// All known pools, in the order in which they are searched.
pub open spec fn spec_pools() -> Seq<Pool> {
    seq![spec_sepolia_ether_1(), spec_ethereum_ether_100()]
}

/// The first pool of `pools` that has the denomination named by `amount`,
/// `symbol` and `chain_id`.
pub open spec fn find_pool(pools: Seq<Pool>, amount: Seq<char>, symbol: Seq<char>, chain_id: u64) -> Option<Pool>
    decreases pools.len(),
{
    if pools.len() == 0 {
        None
    } else if pools[0].has_id(amount, symbol, chain_id) {
        Some(pools[0])
    } else {
        find_pool(pools.drop_first(), amount, symbol, chain_id)
    }
}

/// The Sepolia pool of 1 ETH.
#[allow(non_snake_case)]
pub fn SEPOLIA_ETHER_1() -> (p: Pool)
    ensures
        p == spec_sepolia_ether_1(),
{
    Pool {
        chain_id: 11155111,
        address: Address {
            bytes: [
                0x8c, 0xc9, 0x30, 0x09, 0x6b, 0x4d, 0xf7, 0x05, 0xa0, 0x07, 0xc4, 0xa0, 0x39, 0xbd,
                0xfa, 0x13, 0x20, 0xed, 0x25, 0x08,
            ],
        },
        asset: Asset::Native { symbol: "ETH", decimals: 18 },
        amount_wei: 1000000000000000000,
    }
}

/// The Ethereum mainnet pool of 100 ETH.
#[allow(non_snake_case)]
pub fn ETHEREUM_ETHER_100() -> (p: Pool)
    ensures
        p == spec_ethereum_ether_100(),
{
    Pool {
        chain_id: 1,
        address: Address {
            bytes: [
                0xa1, 0x60, 0xcd, 0xab, 0x22, 0x56, 0x85, 0xda, 0x1d, 0x56, 0xaa, 0x34, 0x2a, 0xd8,
                0x84, 0x1c, 0x3b, 0x53, 0xf2, 0x91,
            ],
        },
        asset: Asset::Native { symbol: "ETH", decimals: 18 },
        amount_wei: 100000000000000000000,
    }
}

/// All known pools, in the order in which they are searched.
#[allow(non_snake_case)]
pub fn POOLS() -> (pools: Vec<Pool>)
    ensures
        pools@ == spec_pools(),
{
    let mut pools = Vec::new();
    pools.push(SEPOLIA_ETHER_1());
    pools.push(ETHEREUM_ETHER_100());
    assert(pools@ =~= spec_pools());
    pools
}

impl Pool {
    /// The pool of the registry with the denomination named by `amount`
    /// (decimal whole units, as `amount` writes it), `symbol` and `chain_id`.
    pub fn from_id(amount: &str, symbol: &str, chain_id: u64) -> (r: Option<Pool>)
        ensures
            r == find_pool(spec_pools(), amount@, symbol@, chain_id),
    {
        let pools = POOLS();
        let amount_s = amount.to_owned();
        let symbol_s = symbol.to_owned();
        let n = pools.len();
        let mut i: usize = 0;
        assert(pools@.subrange(0, n as int) =~= pools@);
        while i < n
            invariant
                i <= n == pools@.len(),
                pools@ == spec_pools(),
                amount_s@ == amount@,
                symbol_s@ == symbol@,
                find_pool(spec_pools(), amount@, symbol@, chain_id) == find_pool(
                    pools@.subrange(i as int, n as int),
                    amount@,
                    symbol@,
                    chain_id,
                ),
            decreases n - i,
        {
            let pool = pools[i];
            proof {
                assert(pools@.subrange(i as int, n as int)[0] == pool);
                assert(pools@.subrange(i as int, n as int).drop_first() =~= pools@.subrange(
                    i + 1,
                    n as int,
                ));
            }
            if pool.chain_id == chain_id && pool.symbol() == symbol_s && pool.amount() == amount_s {
                return Some(pool);
            }
            i = i + 1;
        }
        None
    }

    /// The symbol of the pool's asset.
    pub fn symbol(&self) -> (s: String)
        ensures
            s@ == self.asset.spec_symbol(),
    {
        match &self.asset {
            Asset::Native { symbol, .. } => (*symbol).to_owned(),
            Asset::Erc20 { symbol, .. } => (*symbol).to_owned(),
        }
    }

    /// Decimal amount as a string, e.g. "0.1"
    pub fn amount(&self) -> (s: String)
        requires
            self.asset.spec_decimals() <= 38,
        ensures
            s@ == self.spec_amount(),
    {
        let decimals = match &self.asset {
            Asset::Native { decimals, .. } => *decimals,
            Asset::Erc20 { decimals, .. } => *decimals,
        };
        format_amount(self.amount_wei, decimals)
    }

    /// The pool's name, `eip155:<chain id>/<symbol>/<amount>`, as its
    /// `Display` writes it.
    pub fn to_string(&self) -> (s: String)
        requires
            self.asset.spec_decimals() <= 38,
        ensures
            s@ == self.spec_display(),
    {
        let mut s = String::new();
        proof {
            reveal_strlit("eip155:");
            reveal_strlit("/");
        }
        s.append("eip155:");
        push_decimal(&mut s, self.chain_id as u128);
        s.append("/");
        let symbol = self.symbol();
        s.append(symbol.as_str());
        s.append("/");
        let amount = self.amount();
        s.append(amount.as_str());
        assert(s@ =~= self.spec_display());
        s
    }
}

} // verus!

verus! {

/// Every pool of the registry is found again by its own denomination: its
/// amount text, its symbol and its chain.
pub proof fn lemma_registry_finds_each_pool(i: int)
    requires
        0 <= i < spec_pools().len(),
    ensures
        find_pool(
            spec_pools(),
            spec_pools()[i].spec_amount(),
            spec_pools()[i].asset.spec_symbol(),
            spec_pools()[i].chain_id,
        ) == Some(spec_pools()[i]),
{
    let pools = spec_pools();
    let p = pools[i];
    assert(pools.drop_first() =~= seq![spec_ethereum_ether_100()]);
    assert(pools.drop_first().drop_first() =~= Seq::<Pool>::empty());
    reveal_with_fuel(find_pool, 3);
    if i == 1 {
        assert(pools[0].chain_id != p.chain_id);
    }
}

/// A pool found by a denomination has that denomination, and it is the
/// first pool of the registry that has it.
pub proof fn lemma_found_pool_has_id(amount: Seq<char>, symbol: Seq<char>, chain_id: u64)
    ensures
        find_pool(spec_pools(), amount, symbol, chain_id) matches Some(p) ==> p.has_id(
            amount,
            symbol,
            chain_id,
        ) && spec_pools().contains(p),
        find_pool(spec_pools(), amount, symbol, chain_id) is None ==> forall|j: int|
            0 <= j < spec_pools().len() ==> !(#[trigger] spec_pools()[j]).has_id(
                amount,
                symbol,
                chain_id,
            ),
{
    let pools = spec_pools();
    assert(pools.drop_first() =~= seq![spec_ethereum_ether_100()]);
    assert(pools.drop_first().drop_first() =~= Seq::<Pool>::empty());
    reveal_with_fuel(find_pool, 3);
    assert(pools.drop_first()[0] == pools[1]);
    assert(pools.contains(pools[0]));
    assert(pools.contains(pools[1]));
}

} // verus!
