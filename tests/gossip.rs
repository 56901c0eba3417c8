use std::collections::VecDeque;

use polyferno::network::data::{
    BoundedVec, BroadcastReq, BroadcastResp, ModelBytes, NetworkError, NodeId, SimpleHeader,
};
use polyferno::network::node::{Node, Outgoing};

type TestNode = Node<4, 16>;

fn bytes(b: &[u8]) -> ModelBytes<16> {
    ModelBytes::<16>::from_slice(b).unwrap()
}

fn dsts(out: &[Outgoing<16>]) -> Vec<NodeId> {
    out.iter().map(|o| o.header.dst).collect()
}

/// Runs receive/forward steps until no message is left in flight.
fn run_to_fixed_point(nodes: &mut Vec<TestNode>, first: Vec<Outgoing<16>>) -> usize {
    let mut queue: VecDeque<Outgoing<16>> = first.into_iter().collect();
    let mut delivered = 0;
    while let Some(o) = queue.pop_front() {
        delivered += 1;
        let n = nodes.iter().position(|n| n.id() == o.header.dst).unwrap();
        let out = nodes[n].receive(o.header, o.request).unwrap();
        queue.extend(out);
        assert!(delivered < 1000);
    }
    delivered
}

#[test]
fn three_node_scenario() {
    let mut n1 = TestNode::new(1, &[2, 3], vec![0xAA]);
    let mut n2 = TestNode::new(2, &[1, 3], vec![0xBB]);
    let mut n3 = TestNode::new(3, &[1, 2], vec![0xCC]);

    let out = n1.broadcast(1).unwrap();
    assert_eq!(dsts(&out), vec![2, 3]);
    for o in &out {
        assert_eq!(o.header.src, 1);
        assert_eq!(o.request.origin, 1);
        assert_eq!(o.request.round, 0);
        assert_eq!(o.request.model_bytes.as_slice(), &[0xAA]);
    }
    let mut it = out.into_iter();
    let to2 = it.next().unwrap();
    let to3 = it.next().unwrap();

    let fwd2 = n2.receive(to2.header, to2.request).unwrap();
    assert_eq!(n2.inbox_get(1).unwrap().as_slice(), &[0xAA]);
    assert!(!n2.already_knows(3, 1));
    assert_eq!(dsts(&fwd2), vec![3]);
    assert_eq!(fwd2[0].header, SimpleHeader { src: 2, dst: 3 });

    let fwd3 = n3.receive(to3.header, to3.request).unwrap();
    assert_eq!(n3.inbox_get(1).unwrap().as_slice(), &[0xAA]);
    assert!(!n3.already_knows(2, 1));
    assert_eq!(dsts(&fwd3), vec![2]);

    let f = fwd2.into_iter().next().unwrap();
    let again3 = n3.receive(f.header, f.request).unwrap();
    assert!(again3.is_empty());
    assert_eq!(n3.inbox_get(1).unwrap().as_slice(), &[0xAA]);
    assert!(n3.already_knows(2, 1));

    let f = fwd3.into_iter().next().unwrap();
    let again2 = n2.receive(f.header, f.request).unwrap();
    assert!(again2.is_empty());
    assert_eq!(n2.inbox_get(1).unwrap().as_slice(), &[0xAA]);
}

#[test]
fn ring_diffusion_reaches_every_node() {
    // 1 - 2 - 3 - 4 - 1
    let mut nodes: Vec<TestNode> = vec![
        TestNode::new(1, &[2, 4], vec![7, 7]),
        TestNode::new(2, &[1, 3], vec![]),
        TestNode::new(3, &[2, 4], vec![]),
        TestNode::new(4, &[3, 1], vec![]),
    ];
    let first = nodes[0].broadcast(1).unwrap();
    run_to_fixed_point(&mut nodes, first);
    for n in &nodes[1..] {
        assert_eq!(n.inbox_get(1).unwrap().as_slice(), &[7, 7]);
    }
}

#[test]
fn line_diffusion_from_an_end() {
    let mut nodes: Vec<TestNode> = vec![
        TestNode::new(1, &[2], vec![]),
        TestNode::new(2, &[1, 3], vec![]),
        TestNode::new(3, &[2, 4], vec![]),
        TestNode::new(4, &[3], vec![5]),
    ];
    let first = nodes[3].broadcast(4).unwrap();
    let delivered = run_to_fixed_point(&mut nodes, first);
    assert_eq!(delivered, 3);
    for n in &nodes[..3] {
        assert_eq!(n.inbox_get(4).unwrap().as_slice(), &[5]);
    }
}

#[test]
fn model_buffer_capacity_boundary() {
    let exact = ModelBytes::<4>::from_slice(&[1, 2, 3, 4]).unwrap();
    assert_eq!(exact.len(), 4);
    assert_eq!(exact.capacity(), 4);
    let over = ModelBytes::<4>::from_slice(&[1, 2, 3, 4, 5]);
    assert_eq!(over.err(), Some(NetworkError::CapacityExceeded));
}

#[test]
fn knowledge_set_capacity_boundary() {
    let mut n: Node<2, 16> = Node::new(9, &[5], vec![]);
    assert_eq!(n.record_relay(5, 1), Ok(()));
    assert_eq!(n.record_relay(5, 2), Ok(()));
    assert_eq!(n.record_relay(5, 3), Err(NetworkError::CapacityExceeded));
    assert!(!n.already_knows(5, 3));
    assert_eq!(n.record_relay(5, 1), Ok(()));
}

#[test]
fn own_model_too_large_for_buffer() {
    let n: Node<4, 2> = Node::new(1, &[2], vec![1, 2, 3]);
    assert_eq!(n.broadcast(1).err(), Some(NetworkError::CapacityExceeded));
    assert_eq!(n.model_bytes().err(), Some(NetworkError::CapacityExceeded));
    let m: Node<4, 3> = Node::new(1, &[2], vec![1, 2, 3]);
    assert_eq!(m.model_bytes().unwrap().as_slice(), &[1, 2, 3]);
}

#[test]
fn forwarding_unreceived_origin_fails() {
    let n = TestNode::new(1, &[2, 3], vec![]);
    assert_eq!(n.broadcast(3).err(), Some(NetworkError::MissingOrigin));
}

#[test]
fn unknown_peer_is_not_found() {
    let mut n = TestNode::new(1, &[2, 3], vec![]);
    assert_eq!(n.lookup(42), Err(NetworkError::NeighborNotFound));
    assert_eq!(n.lookup(3), Ok(1));
    assert_eq!(n.record_relay(42, 2), Err(NetworkError::NeighborNotFound));
    assert!(!n.already_knows(42, 2));
}

#[test]
fn receive_from_unknown_relay_fails_after_storing() {
    let mut n = TestNode::new(1, &[2], vec![]);
    let req = BroadcastReq { origin: 3, round: 0, model_bytes: bytes(&[1]) };
    let r = n.receive(SimpleHeader { src: 8, dst: 1 }, req);
    assert_eq!(r.err(), Some(NetworkError::NeighborNotFound));
    assert_eq!(n.inbox_get(3).unwrap().as_slice(), &[1]);
}

#[test]
fn node_never_sent_its_own_data() {
    let mut n = TestNode::new(1, &[2, 3, 4], vec![]);
    let req = BroadcastReq { origin: 3, round: 2, model_bytes: bytes(&[9]) };
    let out = n.receive(SimpleHeader { src: 3, dst: 1 }, req).unwrap();
    assert_eq!(dsts(&out), vec![2, 4]);
    assert!(n.already_knows(3, 3));
}

#[test]
fn knowledge_kept_across_relays() {
    let mut n = TestNode::new(1, &[2, 3], vec![]);
    n.record_relay(2, 5).unwrap();
    n.record_relay(2, 6).unwrap();
    n.record_relay(3, 5).unwrap();
    n.record_relay(2, 5).unwrap();
    assert!(n.already_knows(2, 5));
    assert!(n.already_knows(2, 6));
    assert!(n.already_knows(3, 5));
    assert!(!n.already_knows(3, 6));
}

#[test]
fn known_peer_is_skipped() {
    let mut n = TestNode::new(1, &[2, 3, 4], vec![3]);
    n.record_relay(3, 1).unwrap();
    let out = n.broadcast(1).unwrap();
    assert_eq!(dsts(&out), vec![2, 4]);
    assert_eq!(out[1].neighbor, 2);
    n.record_relay(2, 1).unwrap();
    assert_eq!(dsts(&n.broadcast(1).unwrap()), vec![4]);
}

#[test]
fn receiving_twice_changes_nothing_more() {
    let mut once = TestNode::new(1, &[2, 3], vec![]);
    let mut twice = TestNode::new(1, &[2, 3], vec![]);
    let req = || BroadcastReq { origin: 3, round: 1, model_bytes: bytes(&[4, 4]) };
    let hdr = SimpleHeader { src: 2, dst: 1 };
    let first = once.receive(hdr, req()).unwrap();
    twice.receive(hdr, req()).unwrap();
    let second = twice.receive(hdr, req()).unwrap();
    assert_eq!(dsts(&first), dsts(&second));
    for origin in [1, 2, 3] {
        assert_eq!(
            once.inbox_get(origin).map(|b| b.as_slice().to_vec()),
            twice.inbox_get(origin).map(|b| b.as_slice().to_vec())
        );
        for peer in [2, 3] {
            assert_eq!(once.already_knows(peer, origin), twice.already_knows(peer, origin));
        }
    }
}

#[test]
fn round_and_model_are_forwarded() {
    let mut n = TestNode::new(1, &[2], vec![1]);
    n.set_round(5);
    n.set_model_bytes(vec![2, 3]);
    assert_eq!(n.round(), 5);
    assert_eq!(n.num_neighbors(), 1);
    assert_eq!(n.neighbor_id(0), 2);
    let out = n.broadcast(1).unwrap();
    assert_eq!(out[0].request.round, 5);
    assert_eq!(out[0].request.model_bytes.as_slice(), &[2, 3]);
}

#[test]
fn bounded_vec_push_extend_clone() {
    let mut v: BoundedVec<u64, 3> = BoundedVec::new();
    assert_eq!(v.push(1), Ok(()));
    assert_eq!(v.extend_from_slice(&[2, 3, 4]), Err(NetworkError::CapacityExceeded));
    assert_eq!(v.as_slice(), &[1]);
    assert_eq!(v.extend_from_slice(&[2, 3]), Ok(()));
    assert_eq!(v.push(4), Err(NetworkError::CapacityExceeded));
    let c = v.clone();
    assert_eq!(c.as_slice(), &[1, 2, 3]);
    let resp = BroadcastResp { round: 3, knowledge: c };
    let r2 = resp.clone();
    assert_eq!(r2.round, 3);
    assert_eq!(r2.knowledge.as_slice(), &[1, 2, 3]);
    let req = BroadcastReq { origin: 2, round: 1, model_bytes: bytes(&[8]) };
    assert_eq!(req.clone().model_bytes.as_slice(), &[8]);
}
