//! State-synchronization coordinator for a replicated ledger node.
//!
//! The coordinator is a single serialized actor that owns all sync state:
//! it tracks the highest locally committed version, collapses concurrent
//! sync requests onto one in-flight chunk download, verifies chunk metadata
//! against signed ledger targets, and resolves waiting callers as the
//! committed version advances. The surrounding process (channels, network,
//! executor) feeds it events and carries out the actions it emits.

pub mod types;
pub mod model;
pub mod coordinator;
pub mod laws;
