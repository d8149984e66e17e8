use actix_erlang::delivery::Delivery;
use std::collections::{HashMap, HashSet};

use actix_erlang::crdt::{CrdtTrait, CrdtType, OpsInstance, PeerMsg, Receipients, SDPOpsType, CRDT};
use actix_erlang::gset_crdt::{self, GSet, SetCrdtStruct, SetOpsStruct};

type Replica = CRDT<SetCrdtStruct, SetOpsStruct, GSet, u32>;

fn replica(node: u16) -> Replica {
    CRDT::new(node, SetCrdtStruct::new(), CrdtType::GSetCrdt)
}

fn cluster() -> Receipients<u32> {
    let mut rmap = HashMap::new();
    rmap.insert(0u16, 200u32);
    rmap.insert(1u16, 201u32);
    rmap.insert(2u16, 202u32);
    Receipients::new(rmap)
}

fn elements(r: &Replica) -> HashSet<u16> {
    r.query().0
}

#[test]
fn gset_new_replica_is_empty() {
    let r = replica(0);
    assert!(elements(&r).is_empty());
    assert_eq!(r.crdt_type(), CrdtType::GSetCrdt);
    assert!(r.receipients.is_none());
}

#[test]
fn gset_user_msg_inserts_element() {
    let mut r = replica(0);
    let out = r.handle_user_msg(gset_crdt::user_msg(0, SDPOpsType::SDPAdd, 5));
    assert!(out.is_none());
    assert_eq!(elements(&r), HashSet::from([5u16]));
}

#[test]
fn gset_insert_is_idempotent() {
    let mut r = replica(0);
    r.handle_user_msg(gset_crdt::user_msg(0, SDPOpsType::SDPAdd, 5));
    r.handle_user_msg(gset_crdt::user_msg(0, SDPOpsType::SDPAdd, 5));
    assert_eq!(elements(&r), HashSet::from([5u16]));
}

#[test]
fn gset_operations_commute() {
    let a = OpsInstance::new(SDPOpsType::SDPAdd, SetOpsStruct::new(1));
    let b = OpsInstance::new(SDPOpsType::SDPMult, SetOpsStruct::new(2));
    let mut x = replica(0);
    let mut y = replica(1);
    x.process_ops_instance(&a);
    x.process_ops_instance(&b);
    y.process_ops_instance(&b);
    y.process_ops_instance(&a);
    assert_eq!(elements(&x), elements(&y));
    assert_eq!(elements(&x), HashSet::from([1u16, 2u16]));
}

#[test]
fn gset_user_msg_with_peers_forwards_same_operation() {
    let mut r = replica(2);
    r.handle_receipients(cluster());
    let peers = r.receipients.as_ref().unwrap();
    assert_eq!(peers.len(), 2);
    assert!(!peers.contains_key(&2));
    let msg = gset_crdt::user_msg(2, SDPOpsType::SDPAdd, 77);
    let out = r.handle_user_msg(msg.clone());
    assert_eq!(out, Some(PeerMsg::new(msg)));
}

#[test]
fn gset_peer_msg_applies_forwarded_operation() {
    let mut origin = replica(0);
    let mut peer = replica(1);
    origin.handle_receipients(cluster());
    let forwarded = origin.handle_user_msg(gset_crdt::user_msg(0, SDPOpsType::SDPAdd, 9)).unwrap();
    peer.handle_peer_msg(forwarded);
    assert_eq!(elements(&peer), HashSet::from([9u16]));
    assert_eq!(elements(&peer), elements(&origin));
}

#[test]
fn gset_query_is_an_independent_copy() {
    let mut r = replica(0);
    r.handle_user_msg(gset_crdt::user_msg(0, SDPOpsType::SDPAdd, 3));
    let before = r.query();
    r.handle_user_msg(gset_crdt::user_msg(0, SDPOpsType::SDPAdd, 4));
    assert_eq!(before.0, HashSet::from([3u16]));
    assert_eq!(elements(&r), HashSet::from([3u16, 4u16]));
}

#[test]
fn gset_replicas_converge_with_duplicates_and_reordering() {
    let mut x = replica(0);
    let mut y = replica(1);
    for v in [1u16, 2, 3, 2] {
        x.process_ops_instance(&OpsInstance::new(SDPOpsType::SDPAdd, SetOpsStruct::new(v)));
    }
    for v in [3u16, 1, 2, 1, 1] {
        y.process_ops_instance(&OpsInstance::new(SDPOpsType::SDPAdd, SetOpsStruct::new(v)));
    }
    assert_eq!(elements(&x), elements(&y));
}

#[test]
fn gset_structs_new() {
    assert_eq!(SetOpsStruct::new(8), SetOpsStruct(8));
    assert!(SetCrdtStruct::new().0.is_empty());
    let m = gset_crdt::user_msg(1, SDPOpsType::SDPAdd, 6);
    assert_eq!(m.node, 1);
    assert_eq!(m.ops_instance.ops_type, SDPOpsType::SDPAdd);
    assert_eq!(m.ops_instance.ops_value, SetOpsStruct(6));
}

#[test]
fn gset_redelivered_peer_msg_changes_nothing() {
    let mut origin = replica(0);
    let mut peer = replica(1);
    origin.handle_receipients(cluster());
    let forwarded = origin.handle_user_msg(gset_crdt::user_msg(0, SDPOpsType::SDPAdd, 4)).unwrap();
    let again = forwarded.clone();
    assert_eq!(again, forwarded);
    peer.handle_peer_msg(forwarded);
    let once = elements(&peer);
    peer.handle_peer_msg(again);
    assert_eq!(elements(&peer), once);
}

#[test]
fn gset_redelivered_membership_changes_nothing() {
    let mut r = replica(1);
    let m = cluster();
    let again = m.clone();
    assert_eq!(again.rcpts, m.rcpts);
    r.handle_receipients(m);
    let once = r.receipients.clone();
    r.handle_receipients(again);
    assert_eq!(r.receipients, once);
}

#[test]
fn message_clones_keep_fields() {
    let op = OpsInstance::new(SDPOpsType::SDPMult, SetOpsStruct::new(12));
    assert_eq!(op.clone(), op);
    let m = gset_crdt::user_msg(2, SDPOpsType::SDPAdd, 13);
    assert_eq!(m.clone(), m);
}

#[test]
fn gset_handle_run_with_duplicate_forward() {
    let u0 = gset_crdt::user_msg(0, SDPOpsType::SDPAdd, 3);
    let u1 = gset_crdt::user_msg(1, SDPOpsType::SDPAdd, 8);
    let trace: Vec<Delivery<_, _>> = vec![
        Delivery::User(0, u0.clone()),
        Delivery::User(1, u1.clone()),
        Delivery::Peer(1, PeerMsg::new(u0.clone())),
        Delivery::Peer(0, PeerMsg::new(u1.clone())),
        Delivery::Peer(1, PeerMsg::new(u0.clone())),
    ];
    for k in 0..2u16 {
        let mut r = replica(k);
        r.handle_run(&trace);
        assert_eq!(elements(&r), HashSet::from([3u16, 8u16]));
    }
}
