//! The grow-only set: every operation inserts its element into the
//! replica's set, and a user operation is forwarded to the replica's peers.

use std::collections::HashSet;
use vstd::prelude::*;

use crate::crdt::{CrdtTrait, OpsInstance, PeerMsg, SDPOpsType, UserMsg, CRDT};
use crate::delivery::{
    applied_at, handled_at, lemma_handled_at_step, lemma_handled_splits, lemma_user_ops_split, peers_at, user_ops, users_at, users_elsewhere,
    Delivery,
};
use crate::{NodeType, SetOpsValue};

verus! {

broadcast use vstd::std_specs::hash::group_hash_axioms;

/// Marks a replica as a grow-only set.
#[derive(Debug, Clone, Copy, PartialEq, Eq, Structural)]
pub struct GSet;

/// The value of a set replica.
#[derive(Debug)]
pub struct SetCrdtStruct(pub HashSet<SetOpsValue>);

impl View for SetCrdtStruct {
    type V = Set<SetOpsValue>;

    open spec fn view(&self) -> Set<SetOpsValue> {
        self.0@
    }
}

impl SetCrdtStruct {
    pub fn new() -> (r: Self)
        ensures
            r@ == Set::<SetOpsValue>::empty(),
    {
        Self(HashSet::new())
    }
}

/// A new set holding every element of `s`, built by inserting the elements
/// of `s` one by one.
fn copy_elements(s: &HashSet<SetOpsValue>) -> (r: HashSet<SetOpsValue>)
    ensures
        r@ == s@,
{
    let mut r: HashSet<SetOpsValue> = HashSet::new();
    for x in it: s.iter()
        invariant
            it.seq().unref().to_set() == s@,
            forall|y: SetOpsValue| #[trigger] r@.contains(y) <==> exists|j: int|
                0 <= j < it.index() && *it.seq()[j] == y,
            it.index() == it.seq().len() ==> r@ == s@,
    {
        proof {
            lemma_prefix_elements_all(it.seq(), it.index(), r@, s@);
        }
        r.insert(*x);
        proof {
            assert forall|y: SetOpsValue| #[trigger] r@.contains(y) <==> exists|j: int|
                0 <= j < it.index() + 1 && *it.seq()[j] == y by {
                if y == *x {
                    assert(*it.seq()[it.index()] == y);
                }
            }
            lemma_prefix_elements_all(it.seq(), it.index() + 1, r@, s@);
        }
    }
    r
}

/// A set that holds exactly the first `n` items of `items`, when `n` is
/// all of them, holds exactly the items' set.
proof fn lemma_prefix_elements_all(
    items: Seq<&SetOpsValue>,
    n: int,
    r: Set<SetOpsValue>,
    s: Set<SetOpsValue>,
)
    requires
        items.unref().to_set() == s,
        forall|y: SetOpsValue| #[trigger] r.contains(y) <==> exists|j: int| 0 <= j < n && *items[j] == y,
    ensures
        n == items.len() ==> r == s,
{
    if n == items.len() {
        assert forall|y: SetOpsValue| #[trigger] r.contains(y) <==> s.contains(y) by {
            if r.contains(y) {
                let j = choose|j: int| 0 <= j < n && *items[j] == y;
                assert(items.unref()[j] == y);
                assert(items.unref().contains(y));
            }
            if s.contains(y) {
                assert(items.unref().contains(y));
                let j = choose|j: int| 0 <= j < items.unref().len() && items.unref()[j] == y;
                assert(*items[j] == y);
            }
        }
        assert(r =~= s);
    }
}

impl Clone for SetCrdtStruct {
    /// A set value with the same elements.
    fn clone(&self) -> (r: Self)
        ensures
            r@ == self@,
    {
        SetCrdtStruct(copy_elements(&self.0))
    }
}

/// The element that a set operation inserts.
#[derive(Debug, Clone, Copy, PartialEq, Eq, Structural)]
pub struct SetOpsStruct(pub SetOpsValue);

impl SetOpsStruct {
    pub fn new(ops: SetOpsValue) -> (r: Self)
        ensures
            r.0 == ops,
    {
        Self(ops)
    }
}

/// The set after one operation: the operation's element is inserted,
/// whatever its kind.
pub open spec fn gset_apply(s: Set<SetOpsValue>, ops: OpsInstance<SetOpsStruct>) -> Set<SetOpsValue> {
    s.insert(ops.ops_value.0)
}

/// The set after the operations of `ops`, applied in order.
pub open spec fn gset_apply_all(s: Set<SetOpsValue>, ops: Seq<OpsInstance<SetOpsStruct>>) -> Set<
    SetOpsValue,
>
    decreases ops.len(),
{
    if ops.len() == 0 {
        s
    } else {
        gset_apply(gset_apply_all(s, ops.drop_last()), ops.last())
    }
}

/// The elements that the operations of `ops` insert.
pub open spec fn ops_elements(ops: Seq<OpsInstance<SetOpsStruct>>) -> Set<SetOpsValue> {
    Set::new(|x: SetOpsValue| exists|i: int| 0 <= i < ops.len() && ops[i].ops_value.0 == x)
}

impl<Dest> CrdtTrait<SetCrdtStruct, SetOpsStruct> for CRDT<SetCrdtStruct, SetOpsStruct, GSet, Dest> {
    open spec fn can_process(&self, ops_instance: OpsInstance<SetOpsStruct>) -> bool {
        true
    }

    /// Inserts the operation's element into the set; nothing else changes.
    fn process_ops_instance(&mut self, ops_instance: &OpsInstance<SetOpsStruct>)
        ensures
            final(self).crdt_value@ == gset_apply(old(self).crdt_value@, *ops_instance),
            final(self).crdt_value@ == old(self).crdt_value@.insert(ops_instance.ops_value.0),
            final(self).node == old(self).node,
            final(self).crdt_type == old(self).crdt_type,
            final(self).receipients == old(self).receipients,
            old(self).peers_exclude_self() ==> final(self).peers_exclude_self(),
    {
        self.crdt_value.0.insert(ops_instance.ops_value.0);
    }
}

impl<Dest> CRDT<SetCrdtStruct, SetOpsStruct, GSet, Dest> {
    /// Applies a user's operation and, once the replica knows its peers,
    /// gives back the message that forwards the same operation to each of them.
    pub fn handle_user_msg(&mut self, msg: UserMsg<SetOpsStruct>) -> (out: Option<PeerMsg<SetOpsStruct>>)
        ensures
            final(self).crdt_value@ == gset_apply(old(self).crdt_value@, msg.ops_instance),
            final(self).crdt_value@ == old(self).crdt_value@.insert(msg.ops_instance.ops_value.0),
            final(self).node == old(self).node,
            final(self).crdt_type == old(self).crdt_type,
            final(self).receipients == old(self).receipients,
            old(self).peers_exclude_self() ==> final(self).peers_exclude_self(),
            out == (if old(self).receipients is Some {
                Some(PeerMsg { user_msg: msg })
            } else {
                None
            }),
    {
        self.process_ops_instance(&msg.ops_instance);
        if self.receipients.is_some() {
            Some(PeerMsg::new(msg))
        } else {
            None
        }
    }

    /// Applies an operation forwarded by a peer; nothing is forwarded further.
    pub fn handle_peer_msg(&mut self, msg: PeerMsg<SetOpsStruct>)
        ensures
            final(self).crdt_value@ == gset_apply(old(self).crdt_value@, msg.user_msg.ops_instance),
            final(self).crdt_value@ == old(self).crdt_value@.insert(msg.user_msg.ops_instance.ops_value.0),
            final(self).node == old(self).node,
            final(self).crdt_type == old(self).crdt_type,
            final(self).receipients == old(self).receipients,
            old(self).peers_exclude_self() ==> final(self).peers_exclude_self(),
    {
        self.process_ops_instance(&msg.user_msg.ops_instance);
    }
    /// Handles, in order, the deliveries of `trace` addressed to this
    /// replica (a user message through `handle_user_msg`, a forward through
    /// `handle_peer_msg`) and passes over the others. The set afterwards is
    /// `gset_apply_all` of the operations handled here, which
    /// `lemma_gset_cluster_converges` is stated over.
    pub fn handle_run(&mut self, trace: &Vec<Delivery<UserMsg<SetOpsStruct>, PeerMsg<SetOpsStruct>>>)
        ensures
            final(self).crdt_value@ == gset_apply_all(old(self).crdt_value@, handled_at(trace@, old(self).node)),
            final(self).node == old(self).node,
            final(self).crdt_type == old(self).crdt_type,
            final(self).receipients == old(self).receipients,
            old(self).peers_exclude_self() ==> final(self).peers_exclude_self(),
    {
        let ghost init = self.crdt_value@;
        let ghost k = self.node;
        let ghost t = trace@;
        let ghost kind = self.crdt_type;
        let ghost peers = self.receipients;
        let mut i: usize = 0;
        while i < trace.len()
            invariant
                0 <= i <= trace.len(),
                t == trace@,
                self.node == k,
                self.crdt_type == kind,
                self.receipients == peers,
                self.crdt_value@ == gset_apply_all(init, handled_at(t.take(i as int), k)),
            decreases trace.len() - i,
        {
            proof {
                lemma_handled_at_step(t, k, (i + 1) as int);
                let prev = handled_at(t.take(i as int), k);
                match applied_at(t[i as int], k) {
                    Some(a) => {
                        assert(prev.push(a).drop_last() =~= prev);
                    },
                    None => {},
                }
            }
            match &trace[i] {
                Delivery::User(d, m) => {
                    if *d == self.node {
                        self.handle_user_msg(m.clone());
                    }
                },
                Delivery::Peer(d, p) => {
                    if *d == self.node {
                        self.handle_peer_msg(p.clone());
                    }
                },
            }
            i += 1;
        }
        proof {
            assert(t.take(t.len() as int) =~= t);
        }
    }
}

/// A user's set operation at `node`.
pub fn user_msg(node: NodeType, ops_type: SDPOpsType, ops_value: SetOpsValue) -> (r: UserMsg<SetOpsStruct>)
    ensures
        r.node == node,
        r.ops_instance.ops_type == ops_type,
        r.ops_instance.ops_value.0 == ops_value,
{
    UserMsg::new(node, ops_type, SetOpsStruct::new(ops_value))
}

/// Two operations applied in either order give the same set.
pub proof fn lemma_gset_ops_commute(
    s: Set<SetOpsValue>,
    a: OpsInstance<SetOpsStruct>,
    b: OpsInstance<SetOpsStruct>,
)
    ensures
        gset_apply(gset_apply(s, a), b) == gset_apply(gset_apply(s, b), a),
{
    assert(gset_apply(gset_apply(s, a), b) =~= gset_apply(gset_apply(s, b), a));
}

/// Applying an operation a second time changes nothing.
pub proof fn lemma_gset_ops_idempotent(s: Set<SetOpsValue>, a: OpsInstance<SetOpsStruct>)
    ensures
        gset_apply(gset_apply(s, a), a) == gset_apply(s, a),
{
    assert(gset_apply(gset_apply(s, a), a) =~= gset_apply(s, a));
}

/// Applying a run of operations adds exactly their elements to the set.
pub proof fn lemma_gset_apply_all_union(s: Set<SetOpsValue>, ops: Seq<OpsInstance<SetOpsStruct>>)
    ensures
        gset_apply_all(s, ops) == s.union(ops_elements(ops)),
    decreases ops.len(),
{
    if ops.len() == 0 {
        assert(s.union(ops_elements(ops)) =~= s);
    } else {
        let prefix = ops.drop_last();
        lemma_gset_apply_all_union(s, prefix);
        assert forall|x: SetOpsValue| #[trigger] ops_elements(ops).contains(x) implies
            ops_elements(prefix).contains(x) || x == ops.last().ops_value.0 by {
            let i = choose|i: int| 0 <= i < ops.len() && ops[i].ops_value.0 == x;
            if i < ops.len() - 1 {
                assert(prefix[i] == ops[i]);
            }
        }
        assert forall|x: SetOpsValue| #[trigger] ops_elements(prefix).contains(x) implies
            ops_elements(ops).contains(x) by {
            let i = choose|i: int| 0 <= i < prefix.len() && prefix[i].ops_value.0 == x;
            assert(ops[i] == prefix[i]);
        }
        assert(ops_elements(ops).contains(ops.last().ops_value.0)) by {
            assert(ops[ops.len() - 1] == ops.last());
        }
        assert(gset_apply_all(s, ops) =~= s.union(ops_elements(ops)));
    }
}

/// Replicas that start from the same set and apply operations inserting
/// the same elements (in any order, any element any number of times)
/// reach the same set.
pub proof fn lemma_gset_converges(
    s: Set<SetOpsValue>,
    ops1: Seq<OpsInstance<SetOpsStruct>>,
    ops2: Seq<OpsInstance<SetOpsStruct>>,
)
    requires
        ops_elements(ops1) == ops_elements(ops2),
    ensures
        gset_apply_all(s, ops1) == gset_apply_all(s, ops2),
{
    lemma_gset_apply_all_union(s, ops1);
    lemma_gset_apply_all_union(s, ops2);
}

/// The set only grows: applying operations never removes an element.
pub proof fn lemma_gset_grows(s: Set<SetOpsValue>, ops: Seq<OpsInstance<SetOpsStruct>>)
    ensures
        s.subset_of(gset_apply_all(s, ops)),
{
    lemma_gset_apply_all_union(s, ops);
}

/// The elements of the operations in `s` are those of `a` and `b` when the
/// operations in `s` are those in `a` or `b`.
proof fn lemma_ops_elements_of_union(
    s: Seq<OpsInstance<SetOpsStruct>>,
    a: Seq<OpsInstance<SetOpsStruct>>,
    b: Seq<OpsInstance<SetOpsStruct>>,
)
    requires
        forall|o: OpsInstance<SetOpsStruct>| #[trigger] s.contains(o) <==> a.contains(o) || b.contains(o),
    ensures
        ops_elements(s) == ops_elements(a).union(ops_elements(b)),
{
    assert forall|x: SetOpsValue| #[trigger] ops_elements(s).contains(x) implies ops_elements(a).union(
        ops_elements(b),
    ).contains(x) by {
        let i = choose|i: int| 0 <= i < s.len() && s[i].ops_value.0 == x;
        assert(s.contains(s[i]));
        if a.contains(s[i]) {
            let j = choose|j: int| 0 <= j < a.len() && a[j] == s[i];
            assert(ops_elements(a).contains(x));
        } else {
            let j = choose|j: int| 0 <= j < b.len() && b[j] == s[i];
            assert(ops_elements(b).contains(x));
        }
    }
    assert forall|x: SetOpsValue| #[trigger] ops_elements(a).union(ops_elements(b)).contains(x) implies ops_elements(
        s,
    ).contains(x) by {
        if ops_elements(a).contains(x) {
            let i = choose|i: int| 0 <= i < a.len() && a[i].ops_value.0 == x;
            assert(a.contains(a[i]));
            assert(s.contains(a[i]));
            let j = choose|j: int| 0 <= j < s.len() && s[j] == a[i];
            assert(s[j].ops_value.0 == x);
        } else {
            let i = choose|i: int| 0 <= i < b.len() && b[i].ops_value.0 == x;
            assert(b.contains(b[i]));
            assert(s.contains(b[i]));
            let j = choose|j: int| 0 <= j < s.len() && s[j] == b[i];
            assert(s[j].ops_value.0 == x);
        }
    }
    assert(ops_elements(s) =~= ops_elements(a).union(ops_elements(b)));
}

/// A run of a cluster of set replicas: each member handles user messages
/// and the peer messages that forward them, and its set after the run is
/// `gset_apply_all` of the operations it handled, in order (what
/// `handle_user_msg` and `handle_peer_msg` each apply).
///
/// If the peer messages that reached each member insert exactly the
/// elements of the user operations handled elsewhere (every forward handled
/// by its addressee at least once, any of them possibly more than once),
/// then every member ends with its start set plus the elements of all user
/// operations, whatever the order of handling; so all members hold the same set.
pub proof fn lemma_gset_cluster_converges(
    init: Set<SetOpsValue>,
    members: Set<NodeType>,
    trace: Seq<Delivery<UserMsg<SetOpsStruct>, PeerMsg<SetOpsStruct>>>,
)
    requires
        forall|k: NodeType| #[trigger] members.contains(k) ==> ops_elements(peers_at(trace, k))
            == ops_elements(users_elsewhere(trace, k)),
    ensures
        forall|k: NodeType| #[trigger] members.contains(k) ==> gset_apply_all(init, handled_at(trace, k))
            == init.union(ops_elements(user_ops(trace))),
        forall|k1: NodeType, k2: NodeType|
            #[trigger] members.contains(k1) && #[trigger] members.contains(k2) ==> gset_apply_all(
                init,
                handled_at(trace, k1),
            ) == gset_apply_all(init, handled_at(trace, k2)),
{
    assert forall|k: NodeType| #[trigger] members.contains(k) implies gset_apply_all(
        init,
        handled_at(trace, k),
    ) == init.union(ops_elements(user_ops(trace))) by {
        lemma_handled_splits(trace, k);
        lemma_user_ops_split(trace, k);
        lemma_ops_elements_of_union(handled_at(trace, k), users_at(trace, k), peers_at(trace, k));
        lemma_ops_elements_of_union(user_ops(trace), users_at(trace, k), users_elsewhere(trace, k));
        lemma_gset_apply_all_union(init, handled_at(trace, k));
    }
}

/// An operation inserts its own element, whatever its kind, and nothing else.
pub proof fn lemma_gset_apply_inserts_argument(s: Set<SetOpsValue>, op: OpsInstance<SetOpsStruct>)
    ensures
        gset_apply(s, op).contains(op.ops_value.0),
        forall|x: SetOpsValue| #[trigger] gset_apply(s, op).contains(x) <==> s.contains(x) || x == op.ops_value.0,
{
}

/// No operation inserts no element; one more operation adds its own element.
pub proof fn lemma_ops_elements_step(ops: Seq<OpsInstance<SetOpsStruct>>, op: OpsInstance<SetOpsStruct>)
    ensures
        ops_elements(Seq::empty()) == Set::<SetOpsValue>::empty(),
        ops_elements(seq![op]) == set![op.ops_value.0],
        ops_elements(ops.push(op)) == ops_elements(ops).insert(op.ops_value.0),
{
    assert(ops_elements(Seq::empty()) =~= Set::<SetOpsValue>::empty());
    assert(ops_elements(seq![op]) =~= set![op.ops_value.0]) by {
        assert(seq![op][0] == op);
    }
    let pushed = ops.push(op);
    assert forall|x: SetOpsValue| #[trigger] ops_elements(pushed).contains(x) <==> ops_elements(ops).insert(
        op.ops_value.0,
    ).contains(x) by {
        if ops_elements(pushed).contains(x) {
            let i = choose|i: int| 0 <= i < pushed.len() && pushed[i].ops_value.0 == x;
            if i < ops.len() {
                assert(ops[i] == pushed[i]);
            }
        }
        if ops_elements(ops).contains(x) {
            let i = choose|i: int| 0 <= i < ops.len() && ops[i].ops_value.0 == x;
            assert(pushed[i] == ops[i]);
        }
        if x == op.ops_value.0 {
            assert(pushed[ops.len() as int] == op);
        }
    }
    assert(ops_elements(pushed) =~= ops_elements(ops).insert(op.ops_value.0));
}

/// No operation leaves the set; one more operation, of any kind, inserts
/// its own element into the set reached before it.
pub proof fn lemma_gset_apply_all_step(
    s: Set<SetOpsValue>,
    ops: Seq<OpsInstance<SetOpsStruct>>,
    op: OpsInstance<SetOpsStruct>,
)
    ensures
        gset_apply_all(s, Seq::empty()) == s,
        gset_apply_all(s, seq![op]) == s.insert(op.ops_value.0),
        gset_apply_all(s, ops.push(op)) == gset_apply_all(s, ops).insert(op.ops_value.0),
{
    assert(ops.push(op).drop_last() =~= ops);
    assert(seq![op].drop_last() =~= Seq::<OpsInstance<SetOpsStruct>>::empty());
    assert(seq![op].last() == op);
    assert(gset_apply_all(s, Seq::<OpsInstance<SetOpsStruct>>::empty()) == s);
}

/// Replaying a run at replica `k`: a run of no delivery leaves the set; one
/// more delivery inserts its operation's element when it is addressed to `k`
/// (a user message or a forward, of any kind) and changes nothing when it
/// is addressed to another node.
pub proof fn lemma_gset_run_step(
    s: Set<SetOpsValue>,
    t: Seq<Delivery<UserMsg<SetOpsStruct>, PeerMsg<SetOpsStruct>>>,
    k: NodeType,
    m: UserMsg<SetOpsStruct>,
    p: PeerMsg<SetOpsStruct>,
    other: NodeType,
)
    requires
        other != k,
    ensures
        gset_apply_all(s, handled_at(Seq::<Delivery<UserMsg<SetOpsStruct>, PeerMsg<SetOpsStruct>>>::empty(), k)) == s,
        gset_apply_all(s, handled_at(t.push(Delivery::User(k, m)), k)) == gset_apply_all(
            s,
            handled_at(t, k),
        ).insert(m.ops_instance.ops_value.0),
        gset_apply_all(s, handled_at(t.push(Delivery::Peer(k, p)), k)) == gset_apply_all(
            s,
            handled_at(t, k),
        ).insert(p.user_msg.ops_instance.ops_value.0),
        gset_apply_all(s, handled_at(t.push(Delivery::User(other, m)), k)) == gset_apply_all(
            s,
            handled_at(t, k),
        ),
        gset_apply_all(s, handled_at(t.push(Delivery::Peer(other, p)), k)) == gset_apply_all(
            s,
            handled_at(t, k),
        ),
{
    let d1 = Delivery::<UserMsg<SetOpsStruct>, PeerMsg<SetOpsStruct>>::User(k, m);
    let d2 = Delivery::<UserMsg<SetOpsStruct>, PeerMsg<SetOpsStruct>>::Peer(k, p);
    let d3 = Delivery::<UserMsg<SetOpsStruct>, PeerMsg<SetOpsStruct>>::User(other, m);
    let d4 = Delivery::<UserMsg<SetOpsStruct>, PeerMsg<SetOpsStruct>>::Peer(other, p);
    assert(t.push(d1).drop_last() =~= t);
    assert(t.push(d2).drop_last() =~= t);
    assert(t.push(d3).drop_last() =~= t);
    assert(t.push(d4).drop_last() =~= t);
    lemma_gset_apply_all_step(s, handled_at(t, k), m.ops_instance);
    lemma_gset_apply_all_step(s, handled_at(t, k), p.user_msg.ops_instance);
}

} // verus!
