use actix_erlang::delivery::Delivery;
use std::collections::HashMap;

use actix_erlang::crdt::{CrdtTrait, CrdtType, OpsInstance, PeerMsg, Receipients, SDPOpsType, CRDT};
use actix_erlang::gcnt_crdt::{self, CounterCrdtStruct, CounterOpsStruct, GCounter};

type Replica = CRDT<CounterCrdtStruct, CounterOpsStruct, GCounter, u32>;

fn replica(node: u16) -> Replica {
    CRDT::new(node, CounterCrdtStruct::new(), CrdtType::GCounterCrdt)
}

fn cluster() -> Receipients<u32> {
    let mut rmap = HashMap::new();
    rmap.insert(0u16, 100u32);
    rmap.insert(1u16, 101u32);
    rmap.insert(2u16, 102u32);
    Receipients::new(rmap)
}

#[test]
fn counter_new_replica_starts_at_zero() {
    let r = replica(3);
    assert_eq!(r.node, 3);
    assert_eq!(r.query(), CounterCrdtStruct(0));
    assert_eq!(r.crdt_type(), CrdtType::GCounterCrdt);
    assert!(r.receipients.is_none());
}

#[test]
fn counter_user_msg_without_peers_adds_and_forwards_nothing() {
    let mut r = replica(0);
    let out = r.handle_user_msg(gcnt_crdt::user_msg(0, SDPOpsType::SDPAdd, 7));
    assert!(out.is_none());
    assert_eq!(r.query().0, 7);
}

#[test]
fn counter_receipients_drop_own_node() {
    let mut r = replica(1);
    r.handle_receipients(cluster());
    let peers = r.receipients.as_ref().unwrap();
    assert_eq!(peers.len(), 2);
    assert_eq!(peers.get(&0), Some(&100));
    assert_eq!(peers.get(&2), Some(&102));
    assert!(!peers.contains_key(&1));
    assert_eq!(r.query().0, 0);
}

#[test]
fn counter_receipients_without_own_node_keeps_all() {
    let mut r = replica(9);
    r.handle_receipients(cluster());
    assert_eq!(r.receipients.as_ref().unwrap().len(), 3);
}

#[test]
fn counter_user_msg_with_peers_forwards_same_operation() {
    let mut r = replica(0);
    r.handle_receipients(cluster());
    let msg = gcnt_crdt::user_msg(0, SDPOpsType::SDPAdd, 5);
    let out = r.handle_user_msg(msg.clone());
    assert_eq!(out, Some(PeerMsg::new(msg)));
    assert_eq!(r.query().0, 5);
}

#[test]
fn counter_peer_msg_applies_forwarded_operation() {
    let mut origin = replica(0);
    let mut peer = replica(1);
    origin.handle_receipients(cluster());
    peer.handle_receipients(cluster());
    let forwarded = origin.handle_user_msg(gcnt_crdt::user_msg(0, SDPOpsType::SDPAdd, 12)).unwrap();
    peer.handle_peer_msg(forwarded);
    assert_eq!(peer.query(), origin.query());
    assert_eq!(peer.query().0, 12);
}

#[test]
fn counter_mult_operation_also_adds() {
    let mut r = replica(0);
    r.handle_user_msg(gcnt_crdt::user_msg(0, SDPOpsType::SDPAdd, 3));
    r.handle_user_msg(gcnt_crdt::user_msg(0, SDPOpsType::SDPMult, 4));
    assert_eq!(r.query().0, 7);
}

#[test]
fn counter_process_ops_instance_adds_amount() {
    let mut r = replica(0);
    r.process_ops_instance(&OpsInstance::new(SDPOpsType::SDPAdd, CounterOpsStruct::new(40)));
    r.process_ops_instance(&OpsInstance::new(SDPOpsType::SDPAdd, CounterOpsStruct::new(2)));
    assert_eq!(r.crdt_value, CounterCrdtStruct(42));
}

#[test]
fn counter_reaches_max_exactly() {
    let mut r = replica(0);
    r.handle_user_msg(gcnt_crdt::user_msg(0, SDPOpsType::SDPAdd, u64::MAX - 1));
    r.handle_user_msg(gcnt_crdt::user_msg(0, SDPOpsType::SDPAdd, 1));
    assert_eq!(r.query().0, u64::MAX);
}

#[test]
fn counter_operations_commute() {
    let a = OpsInstance::new(SDPOpsType::SDPAdd, CounterOpsStruct::new(3));
    let b = OpsInstance::new(SDPOpsType::SDPMult, CounterOpsStruct::new(9));
    let mut x = replica(0);
    let mut y = replica(1);
    x.process_ops_instance(&a);
    x.process_ops_instance(&b);
    y.process_ops_instance(&b);
    y.process_ops_instance(&a);
    assert_eq!(x.query(), y.query());
}

#[test]
fn counter_replicas_converge_after_full_delivery() {
    let mut replicas: Vec<Replica> = (0..3).map(replica).collect();
    for r in replicas.iter_mut() {
        r.handle_receipients(cluster());
    }
    let ops: [(usize, u64); 5] = [(0, 4), (2, 9), (1, 1), (0, 16), (2, 3)];
    let mut in_flight: Vec<(usize, PeerMsg<CounterOpsStruct>)> = Vec::new();
    for (origin, amount) in ops.iter() {
        let out = replicas[*origin]
            .handle_user_msg(gcnt_crdt::user_msg(*origin as u16, SDPOpsType::SDPAdd, *amount))
            .unwrap();
        let peers: Vec<u16> = replicas[*origin].receipients.as_ref().unwrap().keys().copied().collect();
        for p in peers {
            in_flight.push((p as usize, out.clone()));
        }
    }
    // deliver the forwarded messages in reverse order
    while let Some((dest, msg)) = in_flight.pop() {
        replicas[dest].handle_peer_msg(msg);
    }
    for r in replicas.iter() {
        assert_eq!(r.query().0, 33);
    }
}

#[test]
fn counter_clone_keeps_replica() {
    let mut r = replica(2);
    r.handle_receipients(cluster());
    r.handle_user_msg(gcnt_crdt::user_msg(2, SDPOpsType::SDPAdd, 8));
    let c = r.clone();
    assert_eq!(c.node, 2);
    assert_eq!(c.query().0, 8);
    assert_eq!(c.receipients, r.receipients);
}

#[test]
fn counter_structs_new() {
    assert_eq!(CounterOpsStruct::new(11), CounterOpsStruct(11));
    assert_eq!(CounterCrdtStruct::new(), CounterCrdtStruct(0));
    let m = gcnt_crdt::user_msg(4, SDPOpsType::SDPMult, 6);
    assert_eq!(m.node, 4);
    assert_eq!(m.ops_instance.ops_type, SDPOpsType::SDPMult);
    assert_eq!(m.ops_instance.ops_value, CounterOpsStruct(6));
}

#[test]
fn counter_handle_run_replays_a_cluster_run() {
    let u0 = gcnt_crdt::user_msg(0, SDPOpsType::SDPAdd, 5);
    let u1 = gcnt_crdt::user_msg(1, SDPOpsType::SDPAdd, 7);
    let trace: Vec<Delivery<_, _>> = vec![
        Delivery::User(0, u0.clone()),
        Delivery::Peer(2, PeerMsg::new(u0.clone())),
        Delivery::User(1, u1.clone()),
        Delivery::Peer(0, PeerMsg::new(u1.clone())),
        Delivery::Peer(2, PeerMsg::new(u1.clone())),
        Delivery::Peer(1, PeerMsg::new(u0.clone())),
    ];
    for k in 0..3u16 {
        let mut r = replica(k);
        r.handle_receipients(cluster());
        r.handle_run(&trace);
        assert_eq!(r.query().0, 12);
        assert_eq!(r.node, k);
        assert!(!r.receipients.as_ref().unwrap().contains_key(&k));
    }
}
