//! The replica type shared by every CRDT of the library, its messages,
//! and the bookkeeping of the peers a replica forwards operations to.

use std::collections::HashMap;
use std::marker::PhantomData;
use vstd::prelude::*;

use crate::delivery::CarriesOp;
use crate::NodeType;

verus! {

broadcast use vstd::std_specs::hash::group_hash_axioms;

/// Which replicated data type a replica holds.
#[derive(Debug, Clone, Copy, PartialEq, Eq, Structural)]
pub enum CrdtType {
    GSetCrdt,
    GCounterCrdt,
}

/// The kind of operation a user asked for.
#[derive(Debug, Clone, Copy, PartialEq, Eq, Structural)]
pub enum SDPOpsType {
    SDPAdd,
    SDPMult,
}

/// One operation: its kind and its argument.
#[derive(Debug, PartialEq)]
pub struct OpsInstance<OpsValue: Clone + PartialEq> {
    pub ops_type: SDPOpsType,
    pub ops_value: OpsValue,
}

impl<OpsValue: Clone + PartialEq> OpsInstance<OpsValue> {
    pub fn new(ops_type: SDPOpsType, ops_value: OpsValue) -> (r: Self)
        ensures
            r.ops_type == ops_type,
            r.ops_value == ops_value,
    {
        Self { ops_type, ops_value }
    }
}

/// An operation submitted by a user at replica `node`.
#[derive(Debug, PartialEq)]
pub struct UserMsg<OpsValue: Clone + PartialEq> {
    pub node: NodeType,
    pub ops_instance: OpsInstance<OpsValue>,
}

impl<OpsValue: Clone + PartialEq> UserMsg<OpsValue> {
    pub fn new(node: NodeType, ops_type: SDPOpsType, ops_value: OpsValue) -> (r: Self)
        ensures
            r.node == node,
            r.ops_instance.ops_type == ops_type,
            r.ops_instance.ops_value == ops_value,
    {
        let ops_instance = OpsInstance::new(ops_type, ops_value);
        Self { node, ops_instance }
    }
}

/// A user operation forwarded by the replica that received it to its peers.
#[derive(Debug, PartialEq)]
pub struct PeerMsg<OpsValue: Clone + PartialEq> {
    pub user_msg: UserMsg<OpsValue>,
}

impl<OpsValue: Clone + PartialEq> PeerMsg<OpsValue> {
    pub fn new(user_msg: UserMsg<OpsValue>) -> (r: Self)
        ensures
            r.user_msg == user_msg,
    {
        Self { user_msg }
    }
}

/// The members of a cluster, each node with the handle by which it is reached.
pub struct Receipients<Dest> {
    pub rcpts: HashMap<NodeType, Dest>,
}

impl<Dest> Receipients<Dest> {
    pub fn new(rcpts: HashMap<NodeType, Dest>) -> (r: Self)
        ensures
            r.rcpts@ == rcpts@,
    {
        Self { rcpts }
    }
}

impl<OpsValue: Clone + PartialEq> Clone for OpsInstance<OpsValue> {
    /// An operation of the same kind with a copy of the argument.
    fn clone(&self) -> (r: Self)
        ensures
            r.ops_type == self.ops_type,
            cloned(self.ops_value, r.ops_value),
    {
        OpsInstance { ops_type: self.ops_type, ops_value: self.ops_value.clone() }
    }
}

impl<OpsValue: Clone + PartialEq> Clone for UserMsg<OpsValue> {
    /// The same operation at the same node.
    fn clone(&self) -> (r: Self)
        ensures
            r.node == self.node,
            r.ops_instance.ops_type == self.ops_instance.ops_type,
            cloned(self.ops_instance.ops_value, r.ops_instance.ops_value),
    {
        UserMsg { node: self.node, ops_instance: self.ops_instance.clone() }
    }
}

impl<OpsValue: Clone + PartialEq> Clone for PeerMsg<OpsValue> {
    /// A forward of the same user operation.
    fn clone(&self) -> (r: Self)
        ensures
            r.user_msg.node == self.user_msg.node,
            r.user_msg.ops_instance.ops_type == self.user_msg.ops_instance.ops_type,
            cloned(self.user_msg.ops_instance.ops_value, r.user_msg.ops_instance.ops_value),
    {
        PeerMsg { user_msg: self.user_msg.clone() }
    }
}

impl<Dest: Clone> Clone for Receipients<Dest> {
    /// The same members with the same handles.
    fn clone(&self) -> (r: Self)
        ensures
            r.rcpts@ == self.rcpts@,
    {
        Receipients { rcpts: self.rcpts.clone() }
    }
}

impl<OpsValue: Clone + PartialEq> CarriesOp<OpsInstance<OpsValue>> for UserMsg<OpsValue> {
    open spec fn carried_op(&self) -> OpsInstance<OpsValue> {
        self.ops_instance
    }
}

impl<OpsValue: Clone + PartialEq> CarriesOp<OpsInstance<OpsValue>> for PeerMsg<OpsValue> {
    open spec fn carried_op(&self) -> OpsInstance<OpsValue> {
        self.user_msg.ops_instance
    }
}

/// The operation a replica applies to its own value.
///
/// `can_process` says on which operations applying stays within the
/// value's representation; each implementation states what applying does.
pub trait CrdtTrait<CrdtValue, OpsValue: Clone + PartialEq>: Sized {
    spec fn can_process(&self, ops_instance: OpsInstance<OpsValue>) -> bool;

    fn process_ops_instance(&mut self, ops_instance: &OpsInstance<OpsValue>)
        requires
            old(self).can_process(*ops_instance),
    ;
}

/// A replica: its node, the data type it holds, its current value, and the
/// peers (other nodes) it forwards user operations to, once they are known.
#[derive(Debug)]
pub struct CRDT<CrdtValue: Clone, OpsValue: Clone + PartialEq, State: Clone + PartialEq, Dest> {
    pub node: NodeType,
    pub crdt_type: CrdtType,
    pub crdt_value: CrdtValue,
    pub receipients: Option<HashMap<NodeType, Dest>>,
    pub state: PhantomData<(State, OpsValue)>,
}

impl<
    CrdtValue: Clone,
    OpsValue: Clone + PartialEq,
    State: Clone + PartialEq,
    Dest,
> CRDT<CrdtValue, OpsValue, State, Dest> {
    /// The replica's peers, once known, never include its own node.
    pub open spec fn peers_exclude_self(&self) -> bool {
        match self.receipients {
            Some(m) => !m@.contains_key(self.node),
            None => true,
        }
    }

    /// A fresh replica, which knows no peers yet.
    pub fn new(node: NodeType, crdt_value: CrdtValue, crdt_type: CrdtType) -> (r: Self)
        ensures
            r.peers_exclude_self(),
            r.node == node,
            r.crdt_value == crdt_value,
            r.crdt_type == crdt_type,
            r.receipients is None,
    {
        Self { node, crdt_value, crdt_type, receipients: None, state: PhantomData }
    }

    /// A copy of the replica's current value.
    pub fn query(&self) -> (r: CrdtValue)
        ensures
            cloned(self.crdt_value, r),
    {
        self.crdt_value.clone()
    }

    pub fn crdt_type(&self) -> (r: CrdtType)
        ensures
            r == self.crdt_type,
    {
        self.crdt_type
    }

    /// Learns the members of the cluster: the replica keeps every member
    /// but itself as a peer, each with its handle.
    pub fn handle_receipients(&mut self, msg: Receipients<Dest>)
        ensures
            final(self).receipients is Some,
            final(self).receipients->0@ == msg.rcpts@.remove(old(self).node),
            !final(self).receipients->0@.contains_key(old(self).node),
            final(self).peers_exclude_self(),
            final(self).node == old(self).node,
            final(self).crdt_type == old(self).crdt_type,
            final(self).crdt_value == old(self).crdt_value,
    {
        let mut fmap = msg.rcpts;
        fmap.remove(&self.node);
        self.receipients = Some(fmap);
    }
}

impl<
    CrdtValue: Clone,
    OpsValue: Clone + PartialEq,
    State: Clone + PartialEq,
    Dest: Clone,
> Clone for CRDT<CrdtValue, OpsValue, State, Dest> {
    /// A replica with the same node, type, value and peers.
    fn clone(&self) -> (r: Self)
        ensures
            r.node == self.node,
            r.crdt_type == self.crdt_type,
            cloned(self.crdt_value, r.crdt_value),
            r.receipients is Some <==> self.receipients is Some,
            r.receipients is Some ==> r.receipients->0@ == self.receipients->0@,
            self.peers_exclude_self() ==> r.peers_exclude_self(),
    {
        let receipients = match &self.receipients {
            Some(m) => Some(m.clone()),
            None => None,
        };
        Self {
            node: self.node,
            crdt_type: self.crdt_type,
            crdt_value: self.crdt_value.clone(),
            receipients,
            state: PhantomData,
        }
    }
}

/// The members as seen from `origin` after `handle_receipients`: the origin
/// and the peers it keeps (`members.remove(origin)`) together are exactly
/// the members, and the origin is not among its own peers. So the origin
/// plus the addressees of its forwards cover every member, each once.
pub proof fn lemma_broadcast_reaches_each_member_once<Dest>(
    members: Map<NodeType, Dest>,
    origin: NodeType,
)
    requires
        members.contains_key(origin),
    ensures
        members.remove(origin).dom().insert(origin) == members.dom(),
        !members.remove(origin).contains_key(origin),
{
    assert(members.remove(origin).dom().insert(origin) =~= members.dom());
}

} // verus!
