//! Transactions for the user to send: target, calldata and value.

use crate::decimal::decimal_digits;
use crate::groth16::{u256_to_decimal, U256};
use crate::primitives::{checksum_text, hex_prefixed, hex_text, to_checksum, Address};
use vstd::prelude::*;

verus! {

/// A transaction to send: the contract to call, the calldata and the value
/// in wei.
#[derive(Debug)]
pub struct TxData {
    pub to: Address,
    pub data: Vec<u8>,
    pub value: U256,
}

impl TxData {
    pub fn new(to: Address, data: Vec<u8>, value: U256) -> (r: TxData)
        ensures
            r.to == to,
            r.data == data,
            r.value == value,
    {
        TxData { to, data, value }
    }
}

/// A transaction handed to a script: the contract to call, the calldata and
/// the value, as text where a script wants text.
pub struct JsTxData {
    inner: TxData,
}

impl JsTxData {
    /// The transaction it wraps.
    pub closed spec fn spec_inner(self) -> TxData {
        self.inner
    }

    /// Wraps `inner`.
    pub fn new(inner: TxData) -> (r: JsTxData)
        ensures
            r.spec_inner() == inner,
    {
        JsTxData { inner }
    }

    /// The contract to send the transaction to, as its checksummed text.
    pub fn to(&self) -> (r: String)
        ensures
            r@ == checksum_text(self.spec_inner().to.bytes@),
    {
        to_checksum(&self.inner.to)
    }

    /// The calldata.
    pub fn data(&self) -> (r: Vec<u8>)
        ensures
            r@ == self.spec_inner().data@,
    {
        self.inner.data.clone()
    }

    /// The value to send, in wei, as decimal text.
    pub fn value(&self) -> (r: String)
        ensures
            r@ == decimal_digits(self.spec_inner().value.value()),
    {
        u256_to_decimal(&self.inner.value)
    }

    /// The calldata as `0x` and lower-case hex.
    pub fn data_hex(&self) -> (r: String)
        ensures
            r@ == seq!['0', 'x'] + hex_text(self.spec_inner().data@),
    {
        hex_prefixed(self.inner.data.as_slice())
    }
}

} // verus!
