//! Operation-based CRDT replicas (a grow-only counter and a grow-only set)
//! whose message handling is verified: how a replica applies an operation,
//! which operation it forwards to its peers, and which peers it keeps.

pub mod crdt;
pub mod delivery;
pub mod gcnt_crdt;
pub mod gset_crdt;
pub mod actix_erl;
pub mod sampling;

use vstd::prelude::*;

verus! {

/// Identifier of a replica.
pub type NodeType = u16;

/// Value held by a grow-only counter replica.
pub type CounterCrdtValue = u64;

/// Amount carried by one counter operation.
pub type CounterOpsValue = u64;

/// Element carried by one set operation.
pub type SetOpsValue = u16;

} // verus!
