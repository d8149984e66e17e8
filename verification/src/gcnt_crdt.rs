//! The grow-only counter: every operation adds its amount to the replica's
//! value, and a user operation is forwarded to the replica's peers.

use vstd::prelude::*;

use crate::crdt::{CrdtTrait, OpsInstance, PeerMsg, SDPOpsType, UserMsg, CRDT};
use crate::delivery::{
    applied_at, handled_at, lemma_complete_run_handles_every_user_op, lemma_handled_at_step, lemma_sum_by_permutation, peers_complete_at,
    sum_by, user_ops, Delivery,
};
use crate::{CounterCrdtValue, CounterOpsValue, NodeType};

verus! {

/// Marks a replica as a grow-only counter.
#[derive(Debug, Clone, Copy, PartialEq, Eq, Structural)]
pub struct GCounter;

/// The value of a counter replica.
#[derive(Debug, Clone, Copy, PartialEq, Eq, Structural)]
pub struct CounterCrdtStruct(pub CounterCrdtValue);

impl CounterCrdtStruct {
    pub fn new() -> (r: Self)
        ensures
            r.0 == 0,
    {
        Self(0)
    }
}

/// The amount that a counter operation adds.
#[derive(Debug, Clone, Copy, PartialEq, Eq, Structural)]
pub struct CounterOpsStruct(pub CounterOpsValue);

impl CounterOpsStruct {
    pub fn new(ops: CounterOpsValue) -> (r: Self)
        ensures
            r.0 == ops,
    {
        Self(ops)
    }
}

/// The value after one operation: the operation's amount is added,
/// whatever its kind.
pub open spec fn counter_apply(value: int, ops: OpsInstance<CounterOpsStruct>) -> int {
    value + ops.ops_value.0
}

/// The value after the operations of `ops`, applied in order.
pub open spec fn counter_apply_all(value: int, ops: Seq<OpsInstance<CounterOpsStruct>>) -> int
    decreases ops.len(),
{
    if ops.len() == 0 {
        value
    } else {
        counter_apply(counter_apply_all(value, ops.drop_last()), ops.last())
    }
}

/// The amount that an operation adds, as an integer.
pub open spec fn counter_amount(ops: OpsInstance<CounterOpsStruct>) -> int {
    ops.ops_value.0 as int
}

impl<Dest> CrdtTrait<CounterCrdtStruct, CounterOpsStruct> for CRDT<
    CounterCrdtStruct,
    CounterOpsStruct,
    GCounter,
    Dest,
> {
    open spec fn can_process(&self, ops_instance: OpsInstance<CounterOpsStruct>) -> bool {
        counter_apply(self.crdt_value.0 as int, ops_instance) <= u64::MAX
    }

    /// Adds the operation's amount to the value; nothing else changes.
    fn process_ops_instance(&mut self, ops_instance: &OpsInstance<CounterOpsStruct>)
        ensures
            final(self).crdt_value.0 == counter_apply(old(self).crdt_value.0 as int, *ops_instance),
            final(self).crdt_value.0 == old(self).crdt_value.0 + ops_instance.ops_value.0,
            final(self).node == old(self).node,
            final(self).crdt_type == old(self).crdt_type,
            final(self).receipients == old(self).receipients,
            old(self).peers_exclude_self() ==> final(self).peers_exclude_self(),
    {
        self.crdt_value.0 += ops_instance.ops_value.0;
    }
}

impl<Dest> CRDT<CounterCrdtStruct, CounterOpsStruct, GCounter, Dest> {
    /// Applies a user's operation and, once the replica knows its peers,
    /// gives back the message that forwards the same operation to each of them.
    pub fn handle_user_msg(&mut self, msg: UserMsg<CounterOpsStruct>) -> (out: Option<
        PeerMsg<CounterOpsStruct>,
    >)
        requires
            old(self).crdt_value.0 + msg.ops_instance.ops_value.0 <= u64::MAX,
        ensures
            final(self).crdt_value.0 == counter_apply(old(self).crdt_value.0 as int, msg.ops_instance),
            final(self).crdt_value.0 == old(self).crdt_value.0 + msg.ops_instance.ops_value.0,
            final(self).node == old(self).node,
            final(self).crdt_type == old(self).crdt_type,
            final(self).receipients == old(self).receipients,
            old(self).peers_exclude_self() ==> final(self).peers_exclude_self(),
            out == (if old(self).receipients is Some {
                Some(PeerMsg { user_msg: msg })
            } else {
                None
            }),
    {
        self.process_ops_instance(&msg.ops_instance);
        if self.receipients.is_some() {
            Some(PeerMsg::new(msg))
        } else {
            None
        }
    }

    /// Applies an operation forwarded by a peer; nothing is forwarded further.
    pub fn handle_peer_msg(&mut self, msg: PeerMsg<CounterOpsStruct>)
        requires
            old(self).crdt_value.0 + msg.user_msg.ops_instance.ops_value.0 <= u64::MAX,
        ensures
            final(self).crdt_value.0 == counter_apply(
                old(self).crdt_value.0 as int,
                msg.user_msg.ops_instance,
            ),
            final(self).crdt_value.0 == old(self).crdt_value.0 + msg.user_msg.ops_instance.ops_value.0,
            final(self).node == old(self).node,
            final(self).crdt_type == old(self).crdt_type,
            final(self).receipients == old(self).receipients,
            old(self).peers_exclude_self() ==> final(self).peers_exclude_self(),
    {
        self.process_ops_instance(&msg.user_msg.ops_instance);
    }
    /// Handles, in order, the deliveries of `trace` addressed to this
    /// replica (a user message through `handle_user_msg`, a forward through
    /// `handle_peer_msg`) and passes over the others. The value afterwards is
    /// `counter_apply_all` of the operations handled here, which
    /// `lemma_counter_cluster_converges` is stated over.
    pub fn handle_run(
        &mut self,
        trace: &Vec<Delivery<UserMsg<CounterOpsStruct>, PeerMsg<CounterOpsStruct>>>,
    )
        requires
            counter_apply_all(old(self).crdt_value.0 as int, handled_at(trace@, old(self).node))
                <= u64::MAX,
        ensures
            final(self).crdt_value.0 == counter_apply_all(
                old(self).crdt_value.0 as int,
                handled_at(trace@, old(self).node),
            ),
            final(self).node == old(self).node,
            final(self).crdt_type == old(self).crdt_type,
            final(self).receipients == old(self).receipients,
            old(self).peers_exclude_self() ==> final(self).peers_exclude_self(),
    {
        let ghost init = self.crdt_value.0 as int;
        let ghost k = self.node;
        let ghost t = trace@;
        let ghost kind = self.crdt_type;
        let ghost peers = self.receipients;
        let mut i: usize = 0;
        while i < trace.len()
            invariant
                0 <= i <= trace.len(),
                t == trace@,
                self.node == k,
                self.crdt_type == kind,
                self.receipients == peers,
                self.crdt_value.0 == counter_apply_all(init, handled_at(t.take(i as int), k)),
                counter_apply_all(init, handled_at(t, k)) <= u64::MAX,
            decreases trace.len() - i,
        {
            proof {
                assert(t.take(t.len() as int) =~= t);
                lemma_counter_run_prefix_grows(init, t, k, (i + 1) as int, t.len() as int);
                lemma_handled_at_step(t, k, (i + 1) as int);
                let prev = handled_at(t.take(i as int), k);
                match applied_at(t[i as int], k) {
                    Some(a) => {
                        assert(prev.push(a).drop_last() =~= prev);
                    },
                    None => {},
                }
            }
            match &trace[i] {
                Delivery::User(d, m) => {
                    if *d == self.node {
                        self.handle_user_msg(m.clone());
                    }
                },
                Delivery::Peer(d, p) => {
                    if *d == self.node {
                        self.handle_peer_msg(p.clone());
                    }
                },
            }
            i += 1;
        }
        proof {
            assert(t.take(t.len() as int) =~= t);
        }
    }
}

/// A user's counter operation at `node`.
pub fn user_msg(node: NodeType, ops_type: SDPOpsType, ops_value: CounterOpsValue) -> (r: UserMsg<
    CounterOpsStruct,
>)
    ensures
        r.node == node,
        r.ops_instance.ops_type == ops_type,
        r.ops_instance.ops_value.0 == ops_value,
{
    UserMsg::new(node, ops_type, CounterOpsStruct::new(ops_value))
}

/// Two operations applied in either order give the same value.
pub proof fn lemma_counter_ops_commute(
    value: int,
    a: OpsInstance<CounterOpsStruct>,
    b: OpsInstance<CounterOpsStruct>,
)
    ensures
        counter_apply(counter_apply(value, a), b) == counter_apply(counter_apply(value, b), a),
{
}

/// Applying a run of operations adds the sum of their amounts.
pub proof fn lemma_counter_apply_all_adds_sum(value: int, ops: Seq<OpsInstance<CounterOpsStruct>>)
    ensures
        counter_apply_all(value, ops) == value + sum_by(ops, |o: OpsInstance<CounterOpsStruct>| counter_amount(o)),
    decreases ops.len(),
{
    if ops.len() > 0 {
        lemma_counter_apply_all_adds_sum(value, ops.drop_last());
    }
}

/// Replicas that start from the same value and apply the same operations,
/// each as many times, in any order, reach the same value.
pub proof fn lemma_counter_converges(
    value: int,
    ops1: Seq<OpsInstance<CounterOpsStruct>>,
    ops2: Seq<OpsInstance<CounterOpsStruct>>,
)
    requires
        ops1.to_multiset() == ops2.to_multiset(),
    ensures
        counter_apply_all(value, ops1) == counter_apply_all(value, ops2),
{
    let f = |o: OpsInstance<CounterOpsStruct>| counter_amount(o);
    lemma_counter_apply_all_adds_sum(value, ops1);
    lemma_counter_apply_all_adds_sum(value, ops2);
    lemma_sum_by_permutation(ops1, ops2, f);
}

/// The counter only grows: applying operations never lowers the value.
pub proof fn lemma_counter_grows(value: int, ops: Seq<OpsInstance<CounterOpsStruct>>)
    ensures
        counter_apply_all(value, ops) >= value,
    decreases ops.len(),
{
    if ops.len() > 0 {
        lemma_counter_grows(value, ops.drop_last());
    }
}

/// A run of a cluster of counter replicas: each member handles user
/// messages and the peer messages that forward them, and its value after
/// the run is `counter_apply_all` of the operations it handled, in order
/// (what `handle_user_msg` and `handle_peer_msg` each apply).
///
/// If every member received every operation submitted elsewhere exactly
/// once as a peer message (the forwards of `handle_user_msg` each handled
/// once by its addressee), then every member ends at the start value plus
/// the sum of all submitted amounts, whatever member got each user message
/// and whatever the order of handling; so all members hold the same value.
pub proof fn lemma_counter_cluster_converges(
    init: int,
    members: Set<NodeType>,
    trace: Seq<Delivery<UserMsg<CounterOpsStruct>, PeerMsg<CounterOpsStruct>>>,
)
    requires
        forall|k: NodeType| #[trigger] members.contains(k) ==> peers_complete_at(trace, k),
    ensures
        forall|k: NodeType| #[trigger] members.contains(k) ==> counter_apply_all(init, handled_at(trace, k))
            == init + sum_by(user_ops(trace), |o: OpsInstance<CounterOpsStruct>| counter_amount(o)),
        forall|k1: NodeType, k2: NodeType|
            #[trigger] members.contains(k1) && #[trigger] members.contains(k2) ==> counter_apply_all(
                init,
                handled_at(trace, k1),
            ) == counter_apply_all(init, handled_at(trace, k2)),
{
    assert forall|k: NodeType| #[trigger] members.contains(k) implies counter_apply_all(
        init,
        handled_at(trace, k),
    ) == init + sum_by(user_ops(trace), |o: OpsInstance<CounterOpsStruct>| counter_amount(o)) by {
        lemma_complete_run_handles_every_user_op(trace, k);
        lemma_counter_converges(init, handled_at(trace, k), user_ops(trace));
        lemma_counter_apply_all_adds_sum(init, user_ops(trace));
    }
}

/// Along a run, the value handled so far at a replica only grows.
pub proof fn lemma_counter_run_prefix_grows(
    init: int,
    t: Seq<Delivery<UserMsg<CounterOpsStruct>, PeerMsg<CounterOpsStruct>>>,
    k: NodeType,
    i: int,
    j: int,
)
    requires
        0 <= i <= j <= t.len(),
    ensures
        counter_apply_all(init, handled_at(t.take(i), k)) <= counter_apply_all(
            init,
            handled_at(t.take(j), k),
        ),
    decreases j - i,
{
    if i < j {
        lemma_counter_run_prefix_grows(init, t, k, i, j - 1);
        lemma_handled_at_step(t, k, j);
        let prev = handled_at(t.take(j - 1), k);
        match applied_at(t[j - 1], k) {
            Some(a) => {
                assert(prev.push(a).drop_last() =~= prev);
            },
            None => {},
        }
    }
}

/// An operation adds its own amount, whatever its kind.
pub proof fn lemma_counter_amount_is_the_argument(op: OpsInstance<CounterOpsStruct>)
    ensures
        counter_amount(op) == op.ops_value.0,
        forall|v: int| #[trigger] counter_apply(v, op) == v + op.ops_value.0,
{
}

/// Applying no operation leaves the value; one more operation, of any kind,
/// adds its argument to the value reached before it.
pub proof fn lemma_counter_apply_all_step(
    value: int,
    ops: Seq<OpsInstance<CounterOpsStruct>>,
    op: OpsInstance<CounterOpsStruct>,
)
    ensures
        counter_apply_all(value, Seq::empty()) == value,
        counter_apply_all(value, seq![op]) == value + op.ops_value.0,
        counter_apply_all(value, ops.push(op)) == counter_apply_all(value, ops) + op.ops_value.0,
{
    assert(ops.push(op).drop_last() =~= ops);
    assert(seq![op].drop_last() =~= Seq::<OpsInstance<CounterOpsStruct>>::empty());
    assert(seq![op].last() == op);
    assert(counter_apply_all(value, Seq::<OpsInstance<CounterOpsStruct>>::empty()) == value);
}

/// Replaying a run at replica `k`: a run of no delivery leaves the value;
/// one more delivery adds its operation's argument when it is addressed to
/// `k` (a user message or a forward, of any kind) and changes nothing when
/// it is addressed to another node.
pub proof fn lemma_counter_run_step(
    value: int,
    t: Seq<Delivery<UserMsg<CounterOpsStruct>, PeerMsg<CounterOpsStruct>>>,
    k: NodeType,
    m: UserMsg<CounterOpsStruct>,
    p: PeerMsg<CounterOpsStruct>,
    other: NodeType,
)
    requires
        other != k,
    ensures
        counter_apply_all(value, handled_at(Seq::<Delivery<UserMsg<CounterOpsStruct>, PeerMsg<CounterOpsStruct>>>::empty(), k)) == value,
        counter_apply_all(value, handled_at(t.push(Delivery::User(k, m)), k)) == counter_apply_all(
            value,
            handled_at(t, k),
        ) + m.ops_instance.ops_value.0,
        counter_apply_all(value, handled_at(t.push(Delivery::Peer(k, p)), k)) == counter_apply_all(
            value,
            handled_at(t, k),
        ) + p.user_msg.ops_instance.ops_value.0,
        counter_apply_all(value, handled_at(t.push(Delivery::User(other, m)), k)) == counter_apply_all(
            value,
            handled_at(t, k),
        ),
        counter_apply_all(value, handled_at(t.push(Delivery::Peer(other, p)), k)) == counter_apply_all(
            value,
            handled_at(t, k),
        ),
{
    let d1 = Delivery::<UserMsg<CounterOpsStruct>, PeerMsg<CounterOpsStruct>>::User(k, m);
    let d2 = Delivery::<UserMsg<CounterOpsStruct>, PeerMsg<CounterOpsStruct>>::Peer(k, p);
    let d3 = Delivery::<UserMsg<CounterOpsStruct>, PeerMsg<CounterOpsStruct>>::User(other, m);
    let d4 = Delivery::<UserMsg<CounterOpsStruct>, PeerMsg<CounterOpsStruct>>::Peer(other, p);
    assert(t.push(d1).drop_last() =~= t);
    assert(t.push(d2).drop_last() =~= t);
    assert(t.push(d3).drop_last() =~= t);
    assert(t.push(d4).drop_last() =~= t);
    lemma_counter_apply_all_step(value, handled_at(t, k), m.ops_instance);
    lemma_counter_apply_all_step(value, handled_at(t, k), p.user_msg.ops_instance);
}

} // verus!
