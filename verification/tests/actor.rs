use actix_erlang::delivery::Delivery;
use std::collections::HashMap;

use actix_erlang::actix_erl::{CrdtActor, PeerMsg, Receipients, UserMsg};

fn cluster() -> Receipients<&'static str> {
    let mut rmap = HashMap::new();
    rmap.insert(0u16, "a");
    rmap.insert(1u16, "b");
    Receipients::new(rmap)
}

#[test]
fn actor_new_starts_at_zero() {
    let a: CrdtActor<&'static str> = CrdtActor::new(5);
    assert_eq!(a.node, 5);
    assert_eq!(a.crdt_value, 0);
    assert!(a.receipients.is_none());
}

#[test]
fn actor_user_msg_adds_and_forwards_when_peers_known() {
    let mut a: CrdtActor<&'static str> = CrdtActor::new(0);
    assert_eq!(a.handle_user_msg(UserMsg::new(4)), None);
    a.handle_receipients(cluster());
    let peers = a.receipients.as_ref().unwrap();
    assert_eq!(peers.len(), 1);
    assert_eq!(peers.get(&1), Some(&"b"));
    assert_eq!(a.handle_user_msg(UserMsg::new(6)), Some(PeerMsg::new(6)));
    assert_eq!(a.crdt_value, 10);
}

#[test]
fn actor_peer_msg_adds_without_forwarding() {
    let mut a: CrdtActor<&'static str> = CrdtActor::new(1);
    a.handle_peer_msg(PeerMsg::new(3));
    a.handle_peer_msg(PeerMsg::new(u64::MAX - 3));
    assert_eq!(a.crdt_value, u64::MAX);
}

#[test]
fn actor_replicas_converge() {
    let mut x: CrdtActor<&'static str> = CrdtActor::new(0);
    let mut y: CrdtActor<&'static str> = CrdtActor::new(1);
    x.handle_receipients(cluster());
    y.handle_receipients(cluster());
    let f1 = x.handle_user_msg(UserMsg::new(2)).unwrap();
    let f2 = y.handle_user_msg(UserMsg::new(30)).unwrap();
    x.handle_peer_msg(f2);
    y.handle_peer_msg(f1);
    assert_eq!(x.crdt_value, 32);
    assert_eq!(y.crdt_value, 32);
}

#[test]
fn actor_redelivered_membership_changes_nothing() {
    let mut a: CrdtActor<&'static str> = CrdtActor::new(0);
    let m = cluster();
    let again = m.clone();
    a.handle_receipients(m);
    let once = a.receipients.clone();
    a.handle_receipients(again);
    assert_eq!(a.receipients, once);
    assert_eq!(a.crdt_value, 0);
}

#[test]
fn actor_handle_run_replays_a_cluster_run() {
    let trace: Vec<Delivery<UserMsg, PeerMsg>> = vec![
        Delivery::User(1, UserMsg::new(9)),
        Delivery::User(0, UserMsg::new(4)),
        Delivery::Peer(1, PeerMsg::new(4)),
        Delivery::Peer(0, PeerMsg::new(9)),
    ];
    for k in 0..2u16 {
        let mut a: CrdtActor<&'static str> = CrdtActor::new(k);
        a.handle_run(&trace);
        assert_eq!(a.crdt_value, 13);
    }
}
