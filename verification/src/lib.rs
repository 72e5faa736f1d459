//! Verified core of the Tornado Cash and Railgun privacy providers: amount
//! and address text, the pool registry, the decoding of contract events, the
//! plans of the syncers and the laws that they lose no event, the providers'
//! states and the calldata they build, and the objects handed to scripts.

pub mod decimal;
pub mod amount;
pub mod primitives;
pub mod abi;
pub mod groth16;
pub mod client;

pub mod pool_registry;
pub mod pool;
pub mod pools;

pub mod events;
pub mod sync_plan;
pub mod cache_syncer;
pub mod subsquid;
pub mod sync_tool;

pub mod tx_data;
pub mod provider;
pub mod railgun;
pub mod broadcast;
pub mod circuit;
pub mod bindings;
