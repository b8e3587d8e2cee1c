//! A verified core for a farm-game automation agent that talks to an
//! HTTP/JSON backend: a deterministic request signer, signed-parameter
//! assembly for the RPC client, a response-envelope demultiplexer, an
//! optimistic inventory tracker, and the decision logic of the automation
//! loop (harvest/plant planning, stall restocking, surplus liquidation,
//! order fulfilment, market purchases).
//!
//! Network transport, timing and process plumbing live outside this crate;
//! callers hand in plain values (byte strings, integers, already-decoded
//! records) and receive planned actions and updated state back.
#![verifier::loop_isolation(false)]

pub mod automation;
pub mod bytes;
pub mod client;
pub mod crops;
pub mod encode;
pub mod envelope;
pub mod error;
pub mod inventory;
pub mod market;
pub mod order;
pub mod panorama;
pub mod sig;
pub mod stall;
