//! A single-purpose counter replica: user and peer messages carry plain
//! amounts, and a user's amount is forwarded to the replica's peers.

use std::collections::HashMap;
use vstd::prelude::*;

use crate::delivery::{
    applied_at, handled_at, lemma_complete_run_handles_every_user_op, lemma_handled_at_step, lemma_sum_by_permutation, peers_complete_at,
    sum_by, user_ops, CarriesOp, Delivery,
};
use crate::NodeType;

verus! {

broadcast use vstd::std_specs::hash::group_hash_axioms;

/// An amount submitted by a user.
#[derive(Clone, Copy, Debug, PartialEq, Eq, Structural)]
pub struct UserMsg {
    pub msg_value: u64,
}

impl UserMsg {
    pub fn new(msg_value: u64) -> (r: Self)
        ensures
            r.msg_value == msg_value,
    {
        Self { msg_value }
    }
}

/// An amount forwarded by the replica that received it from a user.
#[derive(Clone, Copy, Debug, PartialEq, Eq, Structural)]
pub struct PeerMsg {
    pub peer_value: u64,
}

impl PeerMsg {
    pub fn new(peer_value: u64) -> (r: Self)
        ensures
            r.peer_value == peer_value,
    {
        Self { peer_value }
    }
}

/// The members of a cluster, each node with the handle by which it is reached.
pub struct Receipients<Dest> {
    pub rcpts: HashMap<NodeType, Dest>,
}

impl<Dest> Receipients<Dest> {
    pub fn new(rcpts: HashMap<NodeType, Dest>) -> (r: Self)
        ensures
            r.rcpts@ == rcpts@,
    {
        Self { rcpts }
    }
}

impl<Dest: Clone> Clone for Receipients<Dest> {
    /// The same members with the same handles.
    fn clone(&self) -> (r: Self)
        ensures
            r.rcpts@ == self.rcpts@,
    {
        Receipients { rcpts: self.rcpts.clone() }
    }
}

impl CarriesOp<u64> for UserMsg {
    open spec fn carried_op(&self) -> u64 {
        self.msg_value
    }
}

impl CarriesOp<u64> for PeerMsg {
    open spec fn carried_op(&self) -> u64 {
        self.peer_value
    }
}

/// A counter replica: its node, its value, and the peers it forwards
/// user amounts to, once they are known.
#[derive(Debug, Clone)]
pub struct CrdtActor<Dest> {
    pub node: NodeType,
    pub crdt_value: u64,
    pub receipients: Option<HashMap<NodeType, Dest>>,
}

impl<Dest> CrdtActor<Dest> {
    /// The replica's peers, once known, never include its own node.
    pub open spec fn peers_exclude_self(&self) -> bool {
        match self.receipients {
            Some(m) => !m@.contains_key(self.node),
            None => true,
        }
    }

    /// A fresh replica at zero, which knows no peers yet.
    pub fn new(node: NodeType) -> (r: Self)
        ensures
            r.peers_exclude_self(),
            r.node == node,
            r.crdt_value == 0,
            r.receipients is None,
    {
        Self { node, crdt_value: 0, receipients: None }
    }

    /// Adds an amount forwarded by a peer; nothing is forwarded further.
    pub fn handle_peer_msg(&mut self, msg: PeerMsg)
        requires
            old(self).crdt_value + msg.peer_value <= u64::MAX,
        ensures
            final(self).crdt_value == old(self).crdt_value + msg.peer_value,
            final(self).node == old(self).node,
            final(self).receipients == old(self).receipients,
            old(self).peers_exclude_self() ==> final(self).peers_exclude_self(),
    {
        self.crdt_value += msg.peer_value;
    }

    /// Adds a user's amount and, once the replica knows its peers, gives
    /// back the message that forwards the same amount to each of them.
    pub fn handle_user_msg(&mut self, msg: UserMsg) -> (out: Option<PeerMsg>)
        requires
            old(self).crdt_value + msg.msg_value <= u64::MAX,
        ensures
            final(self).crdt_value == old(self).crdt_value + msg.msg_value,
            final(self).node == old(self).node,
            final(self).receipients == old(self).receipients,
            old(self).peers_exclude_self() ==> final(self).peers_exclude_self(),
            out == (if old(self).receipients is Some {
                Some(PeerMsg { peer_value: msg.msg_value })
            } else {
                None
            }),
    {
        self.crdt_value += msg.msg_value;
        let peer_msg = PeerMsg::new(msg.msg_value);
        if self.receipients.is_some() {
            Some(peer_msg)
        } else {
            None
        }
    }

    /// Handles, in order, the deliveries of `trace` addressed to this
    /// replica (a user message through `handle_user_msg`, a forward through
    /// `handle_peer_msg`) and passes over the others. The value afterwards is
    /// `actor_total` of the amounts handled here, which
    /// `lemma_actor_cluster_converges` is stated over.
    pub fn handle_run(&mut self, trace: &Vec<Delivery<UserMsg, PeerMsg>>)
        requires
            actor_total(old(self).crdt_value as int, handled_at(trace@, old(self).node)) <= u64::MAX,
        ensures
            final(self).crdt_value == actor_total(old(self).crdt_value as int, handled_at(trace@, old(self).node)),
            final(self).node == old(self).node,
            final(self).receipients == old(self).receipients,
            old(self).peers_exclude_self() ==> final(self).peers_exclude_self(),
    {
        let ghost init = self.crdt_value as int;
        let ghost k = self.node;
        let ghost t = trace@;
        let ghost peers = self.receipients;
        let mut i: usize = 0;
        while i < trace.len()
            invariant
                0 <= i <= trace.len(),
                t == trace@,
                self.node == k,
                self.receipients == peers,
                self.crdt_value == actor_total(init, handled_at(t.take(i as int), k)),
                actor_total(init, handled_at(t, k)) <= u64::MAX,
            decreases trace.len() - i,
        {
            proof {
                assert(t.take(t.len() as int) =~= t);
                lemma_actor_run_prefix_grows(init, t, k, (i + 1) as int, t.len() as int);
                lemma_handled_at_step(t, k, (i + 1) as int);
                let prev = handled_at(t.take(i as int), k);
                match applied_at(t[i as int], k) {
                    Some(a) => {
                        assert(prev.push(a).drop_last() =~= prev);
                    },
                    None => {},
                }
            }
            match &trace[i] {
                Delivery::User(d, m) => {
                    if *d == self.node {
                        self.handle_user_msg(*m);
                    }
                },
                Delivery::Peer(d, p) => {
                    if *d == self.node {
                        self.handle_peer_msg(*p);
                    }
                },
            }
            i += 1;
        }
        proof {
            assert(t.take(t.len() as int) =~= t);
        }
    }

    /// Learns the members of the cluster: the replica keeps every member
    /// but itself as a peer, each with its handle.
    pub fn handle_receipients(&mut self, msg: Receipients<Dest>)
        ensures
            final(self).receipients is Some,
            final(self).receipients->0@ == msg.rcpts@.remove(old(self).node),
            !final(self).receipients->0@.contains_key(old(self).node),
            final(self).peers_exclude_self(),
            final(self).node == old(self).node,
            final(self).crdt_value == old(self).crdt_value,
    {
        let mut fmap = msg.rcpts;
        fmap.remove(&self.node);
        self.receipients = Some(fmap);
    }
}

/// The value after adding the amounts of `amounts`, in order.
pub open spec fn actor_total(value: int, amounts: Seq<u64>) -> int
    decreases amounts.len(),
{
    if amounts.len() == 0 {
        value
    } else {
        actor_total(value, amounts.drop_last()) + amounts.last()
    }
}

/// Replicas that start from the same value and add the same amounts,
/// each as many times, in any order, reach the same value.
pub proof fn lemma_actor_converges(value: int, amounts1: Seq<u64>, amounts2: Seq<u64>)
    requires
        amounts1.to_multiset() == amounts2.to_multiset(),
    ensures
        actor_total(value, amounts1) == actor_total(value, amounts2),
{
    lemma_actor_total_sum(value, amounts1);
    lemma_actor_total_sum(value, amounts2);
    lemma_sum_by_permutation(amounts1, amounts2, |v: u64| v as int);
}

proof fn lemma_actor_total_sum(value: int, amounts: Seq<u64>)
    ensures
        actor_total(value, amounts) == value + sum_by(amounts, |v: u64| v as int),
    decreases amounts.len(),
{
    if amounts.len() > 0 {
        lemma_actor_total_sum(value, amounts.drop_last());
    }
}

/// A run of a cluster of these replicas: each member handles user
/// messages and the peer messages that forward them.
///
/// If every member received every amount submitted elsewhere exactly once
/// as a peer message (the forwards of `handle_user_msg` each handled once
/// by its addressee), then every member ends at the start value plus the
/// sum of all submitted amounts, whatever member got each user message and
/// whatever the order of handling; so all members hold the same value.
pub proof fn lemma_actor_cluster_converges(
    init: int,
    members: Set<NodeType>,
    trace: Seq<Delivery<UserMsg, PeerMsg>>,
)
    requires
        forall|k: NodeType| #[trigger] members.contains(k) ==> peers_complete_at(trace, k),
    ensures
        forall|k: NodeType| #[trigger] members.contains(k) ==> actor_total(init, handled_at(trace, k))
            == init + sum_by(user_ops(trace), |v: u64| v as int),
        forall|k1: NodeType, k2: NodeType|
            #[trigger] members.contains(k1) && #[trigger] members.contains(k2) ==> actor_total(
                init,
                handled_at(trace, k1),
            ) == actor_total(init, handled_at(trace, k2)),
{
    assert forall|k: NodeType| #[trigger] members.contains(k) implies actor_total(init, handled_at(trace, k))
        == init + sum_by(user_ops(trace), |v: u64| v as int) by {
        lemma_complete_run_handles_every_user_op(trace, k);
        lemma_actor_converges(init, handled_at(trace, k), user_ops(trace));
        lemma_actor_total_sum(init, user_ops(trace));
    }
}

/// Along a run, the total handled so far at a replica only grows.
pub proof fn lemma_actor_run_prefix_grows(
    init: int,
    t: Seq<Delivery<UserMsg, PeerMsg>>,
    k: NodeType,
    i: int,
    j: int,
)
    requires
        0 <= i <= j <= t.len(),
    ensures
        actor_total(init, handled_at(t.take(i), k)) <= actor_total(init, handled_at(t.take(j), k)),
    decreases j - i,
{
    if i < j {
        lemma_actor_run_prefix_grows(init, t, k, i, j - 1);
        lemma_handled_at_step(t, k, j);
        let prev = handled_at(t.take(j - 1), k);
        match applied_at(t[j - 1], k) {
            Some(a) => {
                assert(prev.push(a).drop_last() =~= prev);
            },
            None => {},
        }
    }
}

/// Replaying a run at replica `k`: a run of no delivery leaves the value;
/// one more delivery adds its amount when it is addressed to `k` (a user
/// message or a forward) and changes nothing when it is addressed to
/// another node.
pub proof fn lemma_actor_run_step(
    value: int,
    t: Seq<Delivery<UserMsg, PeerMsg>>,
    k: NodeType,
    m: UserMsg,
    p: PeerMsg,
    other: NodeType,
)
    requires
        other != k,
    ensures
        actor_total(value, handled_at(Seq::<Delivery<UserMsg, PeerMsg>>::empty(), k)) == value,
        actor_total(value, handled_at(t.push(Delivery::User(k, m)), k)) == actor_total(
            value,
            handled_at(t, k),
        ) + m.msg_value,
        actor_total(value, handled_at(t.push(Delivery::Peer(k, p)), k)) == actor_total(
            value,
            handled_at(t, k),
        ) + p.peer_value,
        actor_total(value, handled_at(t.push(Delivery::User(other, m)), k)) == actor_total(
            value,
            handled_at(t, k),
        ),
        actor_total(value, handled_at(t.push(Delivery::Peer(other, p)), k)) == actor_total(
            value,
            handled_at(t, k),
        ),
{
    let d1 = Delivery::<UserMsg, PeerMsg>::User(k, m);
    let d2 = Delivery::<UserMsg, PeerMsg>::Peer(k, p);
    let d3 = Delivery::<UserMsg, PeerMsg>::User(other, m);
    let d4 = Delivery::<UserMsg, PeerMsg>::Peer(other, p);
    assert(t.push(d1).drop_last() =~= t);
    assert(t.push(d2).drop_last() =~= t);
    assert(t.push(d3).drop_last() =~= t);
    assert(t.push(d4).drop_last() =~= t);
    let h = handled_at(t, k);
    assert(h.push(m.msg_value).drop_last() =~= h);
    assert(h.push(p.peer_value).drop_last() =~= h);
    assert(actor_total(value, Seq::<u64>::empty()) == value);
}

} // verus!
