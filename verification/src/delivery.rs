//! A model of a cluster run (which replica handled which message, in which
//! order), sums over the operations a replica handled, and the facts that
//! such a sum does not depend on the order of delivery and that a complete
//! run hands every replica every user operation exactly once.

use vstd::prelude::*;

use crate::NodeType;

verus! {

/// The sum of `f` over the items of `s`, taken in order.
pub open spec fn sum_by<A>(s: Seq<A>, f: spec_fn(A) -> int) -> int
    decreases s.len(),
{
    if s.len() == 0 {
        0
    } else {
        sum_by(s.drop_last(), f) + f(s.last())
    }
}

/// Taking one item out of a sequence takes its term out of the sum.
pub proof fn lemma_sum_by_remove<A>(s: Seq<A>, i: int, f: spec_fn(A) -> int)
    requires
        0 <= i < s.len(),
    ensures
        sum_by(s, f) == sum_by(s.remove(i), f) + f(s[i]),
    decreases s.len(),
{
    if i == s.len() - 1 {
        assert(s.remove(i) =~= s.drop_last());
    } else {
        lemma_sum_by_remove(s.drop_last(), i, f);
        assert(s.remove(i).drop_last() =~= s.drop_last().remove(i));
        assert(s.remove(i).last() == s.last());
    }
}

/// Two sequences that hold the same items, each as many times, have the
/// same sum, whatever their order.
pub proof fn lemma_sum_by_permutation<A>(s1: Seq<A>, s2: Seq<A>, f: spec_fn(A) -> int)
    requires
        s1.to_multiset() == s2.to_multiset(),
    ensures
        sum_by(s1, f) == sum_by(s2, f),
    decreases s1.len(),
{
    broadcast use vstd::seq_lib::group_to_multiset_ensures;

    if s1.len() == 0 {
        assert(s2.to_multiset().len() == 0);
    } else {
        let last = s1.len() - 1;
        let x = s1[last];
        assert(s1.remove(last) =~= s1.drop_last());
        assert(s1.remove(last).to_multiset() =~= s1.to_multiset().remove(x));
        assert(s1.to_multiset().count(x) > 0);
        assert(s2.contains(x));
        let j = choose|j: int| 0 <= j < s2.len() && s2[j] == x;
        assert(s2.remove(j).to_multiset() =~= s2.to_multiset().remove(x));
        lemma_sum_by_permutation(s1.drop_last(), s2.remove(j), f);
        lemma_sum_by_remove(s2, j, f);
    }
}

/// A message that carries one operation, which its handler applies.
pub trait CarriesOp<A> {
    spec fn carried_op(&self) -> A;
}

/// One step of a cluster run: replica `node` handles a user message or a
/// message forwarded by a peer.
pub enum Delivery<U, P> {
    User(NodeType, U),
    Peer(NodeType, P),
}

/// The operations that replica `k` applied during `trace`, in order: one for
/// each message it handled, user or peer.
pub open spec fn handled_at<U: CarriesOp<A>, P: CarriesOp<A>, A>(
    trace: Seq<Delivery<U, P>>,
    k: NodeType,
) -> Seq<A>
    decreases trace.len(),
{
    if trace.len() == 0 {
        Seq::empty()
    } else {
        let rest = handled_at(trace.drop_last(), k);
        match trace.last() {
            Delivery::User(d, u) => if d == k { rest.push(u.carried_op()) } else { rest },
            Delivery::Peer(d, p) => if d == k { rest.push(p.carried_op()) } else { rest },
        }
    }
}

/// The operations of the user messages handled by replica `k`.
pub open spec fn users_at<U: CarriesOp<A>, P, A>(trace: Seq<Delivery<U, P>>, k: NodeType) -> Seq<A>
    decreases trace.len(),
{
    if trace.len() == 0 {
        Seq::empty()
    } else {
        let rest = users_at(trace.drop_last(), k);
        match trace.last() {
            Delivery::User(d, u) => if d == k { rest.push(u.carried_op()) } else { rest },
            Delivery::Peer(_, _) => rest,
        }
    }
}

/// The operations of the user messages handled by replicas other than `k`.
pub open spec fn users_elsewhere<U: CarriesOp<A>, P, A>(
    trace: Seq<Delivery<U, P>>,
    k: NodeType,
) -> Seq<A>
    decreases trace.len(),
{
    if trace.len() == 0 {
        Seq::empty()
    } else {
        let rest = users_elsewhere(trace.drop_last(), k);
        match trace.last() {
            Delivery::User(d, u) => if d != k { rest.push(u.carried_op()) } else { rest },
            Delivery::Peer(_, _) => rest,
        }
    }
}

/// The operations of the peer messages handled by replica `k`.
pub open spec fn peers_at<U, P: CarriesOp<A>, A>(trace: Seq<Delivery<U, P>>, k: NodeType) -> Seq<A>
    decreases trace.len(),
{
    if trace.len() == 0 {
        Seq::empty()
    } else {
        let rest = peers_at(trace.drop_last(), k);
        match trace.last() {
            Delivery::User(_, _) => rest,
            Delivery::Peer(d, p) => if d == k { rest.push(p.carried_op()) } else { rest },
        }
    }
}

/// The operations of all user messages of the run, wherever they were handled.
pub open spec fn user_ops<U: CarriesOp<A>, P, A>(trace: Seq<Delivery<U, P>>) -> Seq<A>
    decreases trace.len(),
{
    if trace.len() == 0 {
        Seq::empty()
    } else {
        let rest = user_ops(trace.drop_last());
        match trace.last() {
            Delivery::User(_, u) => rest.push(u.carried_op()),
            Delivery::Peer(_, _) => rest,
        }
    }
}

/// In `trace`, replica `k` received, as peer messages, exactly the user
/// operations handled elsewhere, each once: every forward addressed to `k`
/// was handled once, and no other peer message reached it.
pub open spec fn peers_complete_at<U: CarriesOp<A>, P: CarriesOp<A>, A>(
    trace: Seq<Delivery<U, P>>,
    k: NodeType,
) -> bool {
    peers_at(trace, k).to_multiset() == users_elsewhere(trace, k).to_multiset()
}

/// What replica `k` handled is its own user operations plus its peer operations.
pub proof fn lemma_handled_splits<U: CarriesOp<A>, P: CarriesOp<A>, A>(
    trace: Seq<Delivery<U, P>>,
    k: NodeType,
)
    ensures
        handled_at(trace, k).to_multiset() == users_at(trace, k).to_multiset().add(
            peers_at(trace, k).to_multiset(),
        ),
        forall|a: A|
            #[trigger] handled_at(trace, k).contains(a) <==> users_at(trace, k).contains(a)
                || peers_at(trace, k).contains(a),
    decreases trace.len(),
{
    broadcast use vstd::seq_lib::group_to_multiset_ensures;

    if trace.len() == 0 {
        assert(handled_at(trace, k).to_multiset() =~= users_at(trace, k).to_multiset().add(
            peers_at(trace, k).to_multiset(),
        ));
    } else {
        let t = trace.drop_last();
        lemma_handled_splits(t, k);
        assert(handled_at(trace, k).to_multiset() =~= users_at(trace, k).to_multiset().add(
            peers_at(trace, k).to_multiset(),
        ));
        assert forall|a: A| #[trigger] handled_at(trace, k).contains(a) <==> users_at(trace, k).contains(a)
            || peers_at(trace, k).contains(a) by {
            assert(handled_at(trace, k).to_multiset().count(a) == users_at(trace, k).to_multiset().count(a)
                + peers_at(trace, k).to_multiset().count(a));
        }
    }
}

/// The run's user operations are those handled at `k` plus those handled elsewhere.
pub proof fn lemma_user_ops_split<U: CarriesOp<A>, P, A>(trace: Seq<Delivery<U, P>>, k: NodeType)
    ensures
        user_ops(trace).to_multiset() == users_at(trace, k).to_multiset().add(
            users_elsewhere(trace, k).to_multiset(),
        ),
        forall|a: A|
            #[trigger] user_ops(trace).contains(a) <==> users_at(trace, k).contains(a)
                || users_elsewhere(trace, k).contains(a),
    decreases trace.len(),
{
    broadcast use vstd::seq_lib::group_to_multiset_ensures;

    if trace.len() == 0 {
        assert(user_ops(trace).to_multiset() =~= users_at(trace, k).to_multiset().add(
            users_elsewhere(trace, k).to_multiset(),
        ));
    } else {
        lemma_user_ops_split(trace.drop_last(), k);
        assert(user_ops(trace).to_multiset() =~= users_at(trace, k).to_multiset().add(
            users_elsewhere(trace, k).to_multiset(),
        ));
        assert forall|a: A| #[trigger] user_ops(trace).contains(a) <==> users_at(trace, k).contains(a)
            || users_elsewhere(trace, k).contains(a) by {
            assert(user_ops(trace).to_multiset().count(a) == users_at(trace, k).to_multiset().count(a)
                + users_elsewhere(trace, k).to_multiset().count(a));
        }
    }
}

/// In a run that is complete at `k`, replica `k` applied every user
/// operation of the run exactly once (its own through the user message,
/// the others' through the peer message), and nothing else.
pub proof fn lemma_complete_run_handles_every_user_op<U: CarriesOp<A>, P: CarriesOp<A>, A>(
    trace: Seq<Delivery<U, P>>,
    k: NodeType,
)
    requires
        peers_complete_at(trace, k),
    ensures
        handled_at(trace, k).to_multiset() == user_ops(trace).to_multiset(),
{
    lemma_handled_splits(trace, k);
    lemma_user_ops_split(trace, k);
}

/// The operation that replica `k` applies for a delivery, if it is
/// addressed to `k`.
pub open spec fn applied_at<U: CarriesOp<A>, P: CarriesOp<A>, A>(d: Delivery<U, P>, k: NodeType) -> Option<A> {
    match d {
        Delivery::User(n, u) => if n == k { Some(u.carried_op()) } else { None },
        Delivery::Peer(n, p) => if n == k { Some(p.carried_op()) } else { None },
    }
}

/// One more delivery of a run adds its operation, if addressed to `k`, at
/// the end of what `k` handled.
pub proof fn lemma_handled_at_step<U: CarriesOp<A>, P: CarriesOp<A>, A>(
    t: Seq<Delivery<U, P>>,
    k: NodeType,
    j: int,
)
    requires
        0 < j <= t.len(),
    ensures
        handled_at(t.take(j), k) == match applied_at(t[j - 1], k) {
            Some(a) => handled_at(t.take(j - 1), k).push(a),
            None => handled_at(t.take(j - 1), k),
        },
{
    assert(t.take(j).drop_last() =~= t.take(j - 1));
    assert(t.take(j).last() == t[j - 1]);
}

} // verus!
