//! What the providers ask of the Ethereum RPC clients that they are given:
//! the `Send + Sync` bound on native targets, and the errors a client reports.

use vstd::prelude::*;
use vstd::string::StringExecFns;

verus! {

/// The `Send + Sync` bound that a client must meet to be shared between
/// tasks; every type that is `Send + Sync` meets it.
pub trait MaybeSend: Send + Sync {
}

impl<T: Send + Sync> MaybeSend for T {
}

/// Why a call to an Ethereum RPC client failed.
#[derive(Debug)]
pub enum EthRpcClientError {
    /// The node answered with an error, or could not be reached.
    Rpc(String),
    /// The node's answer could not be decoded.
    Decode(String),
}

/// The message of an [`EthRpcClientError`].
pub open spec fn rpc_error_message(e: EthRpcClientError) -> Seq<char> {
    match e {
        EthRpcClientError::Rpc(m) => "RPC error: "@ + m@,
        EthRpcClientError::Decode(m) => "Decode error: "@ + m@,
    }
}

impl EthRpcClientError {
    /// The error's message: `RPC error: ...` or `Decode error: ...`.
    pub fn to_string(&self) -> (r: String)
        ensures
            r@ == rpc_error_message(*self),
    {
        match self {
            EthRpcClientError::Rpc(m) => {
                let r = String::from_str("RPC error: ");
                r.concat(m.as_str())
            },
            EthRpcClientError::Decode(m) => {
                let r = String::from_str("Decode error: ");
                r.concat(m.as_str())
            },
        }
    }
}

} // verus!
