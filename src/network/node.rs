//! The per-node propagation engine: inbox, neighbor registry and the
//! forwarding decision.
use std::collections::{HashMap, HashSet};
use vstd::prelude::*;

use super::data::{BroadcastReq, ModelBytes, NetworkError, NodeId, RoundId, SimpleHeader};

verus! {

broadcast use vstd::std_specs::hash::group_hash_axioms;

/// The abstract state of a node.
pub struct NodeView {
    pub id: NodeId,
    pub round: RoundId,
    /// This node's own trained model.
    pub own: Seq<u8>,
    /// The model bytes received so far, by origin.
    pub inbox: Map<NodeId, Seq<u8>>,
    /// The static topology, one entry per peer.
    pub peers: Seq<NodeId>,
    /// For each peer, by position, the origins it is known to hold.
    pub knowledge: Seq<Set<NodeId>>,
}

/// Peer ids are distinct, each peer has a knowledge set, and no knowledge set
/// holds more than `num_nodes` origins.
pub open spec fn well_formed(v: NodeView, num_nodes: nat) -> bool {
    &&& v.peers.no_duplicates()
    &&& v.knowledge.len() == v.peers.len()
    &&& forall|i: int|
        0 <= i < v.knowledge.len() ==> #[trigger] v.knowledge[i].finite() && v.knowledge[i].len()
            <= num_nodes
}

/// The position of `peer` in the topology (meaningful when it is there).
pub open spec fn index_in(peers: Seq<NodeId>, peer: NodeId) -> int {
    choose|i: int| 0 <= i < peers.len() && peers[i] == peer
}

/// Whether `peer` is known to hold the data of `origin`; a node trivially
/// holds its own data.
pub open spec fn knows(v: NodeView, peer: NodeId, origin: NodeId) -> bool {
    peer == origin || exists|i: int|
        0 <= i < v.peers.len() && v.peers[i] == peer && #[trigger] v.knowledge[i].contains(origin)
}

/// `after` has the topology of `before`, and every knowledge set of `before`
/// is kept in `after`.
pub open spec fn knowledge_grows(before: NodeView, after: NodeView) -> bool {
    &&& after.peers == before.peers
    &&& after.knowledge.len() == before.knowledge.len()
    &&& forall|i: int|
        0 <= i < before.knowledge.len() ==> #[trigger] before.knowledge[i].subset_of(
            after.knowledge[i],
        )
}

/// Records that `peer` holds the data of `origin`.
pub open spec fn relay(v: NodeView, peer: NodeId, origin: NodeId, num_nodes: nat) -> Result<
    NodeView,
    NetworkError,
> {
    if !v.peers.contains(peer) {
        Err(NetworkError::NeighborNotFound)
    } else {
        let i = index_in(v.peers, peer);
        if v.knowledge[i].contains(origin) {
            Ok(v)
        } else if v.knowledge[i].len() >= num_nodes {
            Err(NetworkError::CapacityExceeded)
        } else {
            Ok(NodeView { knowledge: v.knowledge.update(i, v.knowledge[i].insert(origin)), ..v })
        }
    }
}

/// The state after `relay`, which a failed relay leaves unchanged.
pub open spec fn relay_state(v: NodeView, peer: NodeId, origin: NodeId, num_nodes: nat) -> NodeView {
    match relay(v, peer, origin, num_nodes) {
        Ok(w) => w,
        Err(_) => v,
    }
}

/// The state after relaying each `(peer, origin)` of `steps` in turn.
pub open spec fn relay_all(v: NodeView, steps: Seq<(NodeId, NodeId)>, num_nodes: nat) -> NodeView
    decreases steps.len(),
{
    if steps.len() == 0 {
        v
    } else {
        let u = relay_all(v, steps.drop_last(), num_nodes);
        relay_state(u, steps.last().0, steps.last().1, num_nodes)
    }
}

/// The bytes forwarded for `origin`: the own model for the node itself, the
/// inbox entry for any other origin.
pub open spec fn payload(v: NodeView, origin: NodeId, model_size: nat) -> Result<
    Seq<u8>,
    NetworkError,
> {
    if origin == v.id {
        if v.own.len() <= model_size {
            Ok(v.own)
        } else {
            Err(NetworkError::CapacityExceeded)
        }
    } else if v.inbox.contains_key(origin) {
        Ok(v.inbox[origin])
    } else {
        Err(NetworkError::MissingOrigin)
    }
}

/// Whether the peer at position `i` is passed over when forwarding `origin`.
pub open spec fn skips(v: NodeView, i: int, origin: NodeId) -> bool {
    v.peers[i] == origin || v.knowledge[i].contains(origin)
}

/// The positions, among the first `k`, of the peers that `origin` is sent to.
pub open spec fn targets_upto(v: NodeView, origin: NodeId, k: nat) -> Seq<int>
    decreases k,
{
    if k == 0 {
        Seq::empty()
    } else {
        let t = targets_upto(v, origin, (k - 1) as nat);
        if skips(v, k - 1, origin) {
            t
        } else {
            t.push(k - 1)
        }
    }
}

/// The positions, in topology order, of the peers that `origin` is sent to.
pub open spec fn targets(v: NodeView, origin: NodeId) -> Seq<int> {
    targets_upto(v, origin, v.peers.len())
}

/// The state after storing `bytes` under `origin`.
pub open spec fn store(v: NodeView, origin: NodeId, bytes: Seq<u8>) -> NodeView {
    NodeView { inbox: v.inbox.insert(origin, bytes), ..v }
}

/// The state after receiving `bytes` of `origin` from the hop sender `src`.
pub open spec fn receive_state(
    v: NodeView,
    src: NodeId,
    origin: NodeId,
    bytes: Seq<u8>,
    num_nodes: nat,
) -> NodeView {
    let s = store(v, origin, bytes);
    if src != origin {
        relay_state(s, src, origin, num_nodes)
    } else {
        s
    }
}

/// Whether receiving `bytes` of `origin` from `src` records the relay
/// without error.
pub open spec fn receive_status(
    v: NodeView,
    src: NodeId,
    origin: NodeId,
    bytes: Seq<u8>,
    num_nodes: nat,
) -> Result<(), NetworkError> {
    if src != origin {
        match relay(store(v, origin, bytes), src, origin, num_nodes) {
            Ok(_) => Ok(()),
            Err(e) => Err(e),
        }
    } else {
        Ok(())
    }
}

/// Every target of `origin` among the first `k` peers is a position below
/// `k` that is not passed over.
pub proof fn lemma_targets_upto(v: NodeView, origin: NodeId, k: nat)
    ensures
        forall|j: int|
            0 <= j < targets_upto(v, origin, k).len() ==> {
                let t = #[trigger] targets_upto(v, origin, k)[j];
                0 <= t < k && !skips(v, t, origin)
            },
    decreases k,
{
    if k > 0 {
        let prev = targets_upto(v, origin, (k - 1) as nat);
        lemma_targets_upto(v, origin, (k - 1) as nat);
        assert forall|j: int| 0 <= j < targets_upto(v, origin, k).len() implies {
            let t = #[trigger] targets_upto(v, origin, k)[j];
            0 <= t < k && !skips(v, t, origin)
        } by {
            if j < prev.len() {
                assert(targets_upto(v, origin, k)[j] == prev[j]);
            }
        }
    }
}

/// No node is ever sent data of which it is itself the origin.
pub proof fn lemma_no_self_delivery(v: NodeView, origin: NodeId)
    ensures
        forall|j: int|
            0 <= j < targets(v, origin).len() ==> {
                let t = #[trigger] targets(v, origin)[j];
                0 <= t < v.peers.len() && v.peers[t] != origin
            },
{
    lemma_targets_upto(v, origin, v.peers.len());
}

/// A peer that already holds the data of `origin` is never sent it again,
/// however the knowledge sets have grown since.
pub proof fn lemma_no_redundant_send(
    before: NodeView,
    after: NodeView,
    peer: NodeId,
    origin: NodeId,
    num_nodes: nat,
)
    requires
        well_formed(before, num_nodes),
        knowledge_grows(before, after),
        knows(before, peer, origin),
    ensures
        forall|j: int|
            0 <= j < targets(after, origin).len() ==> after.peers[#[trigger] targets(
                after,
                origin,
            )[j]] != peer,
{
    lemma_targets_upto(after, origin, after.peers.len());
    assert forall|j: int| 0 <= j < targets(after, origin).len() implies after.peers[#[trigger] targets(
        after,
        origin,
    )[j]] != peer by {
        let t = targets(after, origin)[j];
        if after.peers[t] == peer && peer != origin {
            let i = choose|i: int|
                0 <= i < before.peers.len() && before.peers[i] == peer
                    && #[trigger] before.knowledge[i].contains(origin);
            assert(i == t);
            assert(before.knowledge[i].subset_of(after.knowledge[i]));
        }
    }
}

/// A successful relay keeps the node well formed, and no relay loses an
/// origin from a knowledge set.
pub proof fn lemma_relay_keeps_knowledge(v: NodeView, peer: NodeId, origin: NodeId, num_nodes: nat)
    requires
        well_formed(v, num_nodes),
    ensures
        well_formed(relay_state(v, peer, origin, num_nodes), num_nodes),
        knowledge_grows(v, relay_state(v, peer, origin, num_nodes)),
        relay(v, peer, origin, num_nodes) is Ok ==> knows(
            relay_state(v, peer, origin, num_nodes),
            peer,
            origin,
        ),
{
    if v.peers.contains(peer) {
        let i = index_in(v.peers, peer);
        let w = relay_state(v, peer, origin, num_nodes);
        assert(0 <= i < v.peers.len() && v.peers[i] == peer);
        assert(w.knowledge[i].contains(origin) || relay(v, peer, origin, num_nodes) is Err);
        assert forall|k: int| 0 <= k < v.knowledge.len() implies #[trigger] v.knowledge[k].subset_of(
            w.knowledge[k],
        ) by {}
    }
}

/// Across any sequence of relays, a knowledge set never loses an origin.
pub proof fn lemma_knowledge_monotone(
    v: NodeView,
    steps: Seq<(NodeId, NodeId)>,
    num_nodes: nat,
)
    requires
        well_formed(v, num_nodes),
    ensures
        well_formed(relay_all(v, steps, num_nodes), num_nodes),
        knowledge_grows(v, relay_all(v, steps, num_nodes)),
    decreases steps.len(),
{
    if steps.len() > 0 {
        let u = relay_all(v, steps.drop_last(), num_nodes);
        lemma_knowledge_monotone(v, steps.drop_last(), num_nodes);
        lemma_relay_keeps_knowledge(u, steps.last().0, steps.last().1, num_nodes);
        let w = relay_all(v, steps, num_nodes);
        assert forall|k: int| 0 <= k < v.knowledge.len() implies #[trigger] v.knowledge[k].subset_of(
            w.knowledge[k],
        ) by {
            assert(v.knowledge[k].subset_of(u.knowledge[k]));
            assert(u.knowledge[k].subset_of(w.knowledge[k]));
        }
    }
}

/// Receiving the same data twice from the same sender leaves the node as
/// receiving it once, with the same outcome.
pub proof fn lemma_receive_idempotent(
    v: NodeView,
    src: NodeId,
    origin: NodeId,
    bytes: Seq<u8>,
    num_nodes: nat,
)
    requires
        well_formed(v, num_nodes),
    ensures
        receive_state(receive_state(v, src, origin, bytes, num_nodes), src, origin, bytes, num_nodes)
            == receive_state(v, src, origin, bytes, num_nodes),
        receive_status(receive_state(v, src, origin, bytes, num_nodes), src, origin, bytes, num_nodes)
            == receive_status(v, src, origin, bytes, num_nodes),
{
    let s = store(v, origin, bytes);
    let w = receive_state(v, src, origin, bytes, num_nodes);
    let s2 = store(w, origin, bytes);
    assert(s.inbox.insert(origin, bytes) =~= s.inbox);
    if src != origin {
        assert(w.inbox.insert(origin, bytes) =~= w.inbox);
        assert(s2 == w);
        lemma_relay_keeps_knowledge(s, src, origin, num_nodes);
        if s.peers.contains(src) {
            let i = index_in(s.peers, src);
            assert(0 <= i < s.peers.len() && s.peers[i] == src);
        }
    } else {
        assert(s2 == w);
    }
}

/// One message to send: `request` to the peer at position `neighbor`.
pub struct Outgoing<const MODEL_SIZE: usize> {
    pub neighbor: usize,
    pub header: SimpleHeader,
    pub request: BroadcastReq<MODEL_SIZE>,
}

/// `o` sends `bytes` of `origin`, in the current round, to the peer at
/// position `i`, with this node as the hop sender.
pub open spec fn send_to<const MODEL_SIZE: usize>(
    o: Outgoing<MODEL_SIZE>,
    v: NodeView,
    origin: NodeId,
    i: int,
    bytes: Seq<u8>,
) -> bool {
    &&& o.neighbor == i
    &&& o.header == SimpleHeader { src: v.id, dst: v.peers[i] }
    &&& o.request.origin == origin
    &&& o.request.round == v.round
    &&& o.request.model_bytes@ == bytes
}

/// `out` is one message for each target of `origin`, in order.
pub open spec fn sends<const MODEL_SIZE: usize>(
    out: Seq<Outgoing<MODEL_SIZE>>,
    v: NodeView,
    origin: NodeId,
    bytes: Seq<u8>,
) -> bool {
    &&& out.len() == targets(v, origin).len()
    &&& forall|j: int|
        0 <= j < out.len() ==> send_to(#[trigger] out[j], v, origin, targets(v, origin)[j], bytes)
}

/// `r` is the outcome of forwarding `origin` from state `v`.
pub open spec fn forwarded<const MODEL_SIZE: usize>(
    r: Result<Vec<Outgoing<MODEL_SIZE>>, NetworkError>,
    v: NodeView,
    origin: NodeId,
) -> bool {
    match payload(v, origin, MODEL_SIZE as nat) {
        Ok(bytes) => r matches Ok(out) && sends(out@, v, origin, bytes),
        Err(e) => r matches Err(e2) && e2 == e,
    }
}

/// A peer and the origins it is known to hold.
pub struct Neighbor {
    id: NodeId,
    knowledge: HashSet<NodeId>,
}

/// Per-round bookkeeping of a node.
struct NodeState<const MODEL_SIZE: usize> {
    round: RoundId,
    inbox: HashMap<NodeId, ModelBytes<MODEL_SIZE>>,
    model_bytes: Vec<u8>,
}

/// A gossip node: its identity, round state and neighbor registry.
pub struct Node<const NUM_NODES: usize, const MODEL_SIZE: usize> {
    id: NodeId,
    state: NodeState<MODEL_SIZE>,
    neighbors: Vec<Neighbor>,
}

impl<const NUM_NODES: usize, const MODEL_SIZE: usize> View for Node<NUM_NODES, MODEL_SIZE> {
    type V = NodeView;

    closed spec fn view(&self) -> NodeView {
        NodeView {
            id: self.id,
            round: self.state.round,
            own: self.state.model_bytes@,
            inbox: self.state.inbox@.map_values(|b: ModelBytes<MODEL_SIZE>| b@),
            peers: self.neighbors@.map_values(|n: Neighbor| n.id),
            knowledge: self.neighbors@.map_values(|n: Neighbor| n.knowledge@),
        }
    }
}

impl<const NUM_NODES: usize, const MODEL_SIZE: usize> Node<NUM_NODES, MODEL_SIZE> {
    /// The node's state is well formed for its capacity.
    pub open spec fn wf(&self) -> bool {
        well_formed(self@, NUM_NODES as nat)
    }

    /// The position of `peer` in the registry, or `NeighborNotFound`.
    pub fn lookup(&self, peer: NodeId) -> (r: Result<usize, NetworkError>)
        requires
            self.wf(),
        ensures
            r is Ok <==> self@.peers.contains(peer),
            r matches Ok(i) ==> i == index_in(self@.peers, peer) && i < self@.peers.len()
                && self@.peers[i as int] == peer,
            r is Err ==> r matches Err(NetworkError::NeighborNotFound),
    {
        let mut i: usize = 0;
        while i < self.neighbors.len()
            invariant
                self.wf(),
                i <= self.neighbors@.len(),
                forall|j: int| 0 <= j < i ==> self@.peers[j] != peer,
            decreases self.neighbors@.len() - i,
        {
            if self.neighbors[i].id == peer {
                proof {
                    let k = index_in(self@.peers, peer);
                    assert(self@.peers[i as int] == peer);
                    assert(0 <= k < self@.peers.len() && self@.peers[k] == peer);
                    assert(self@.peers.no_duplicates());
                    assert(k == i as int);
                }
                return Ok(i);
            }
            i = i + 1;
        }
        Err(NetworkError::NeighborNotFound)
    }
    /// The own model as a bounded buffer, or `CapacityExceeded` when it is
    /// larger than `MODEL_SIZE`.
    pub fn model_bytes(&self) -> (r: Result<ModelBytes<MODEL_SIZE>, NetworkError>)
        ensures
            r is Ok <==> self@.own.len() <= MODEL_SIZE,
            r matches Ok(b) ==> b@ == self@.own,
            r is Err ==> r matches Err(NetworkError::CapacityExceeded),
    {
        ModelBytes::<MODEL_SIZE>::from_slice(self.state.model_bytes.as_slice())
    }

    /// The bytes to forward for `origin`.
    fn payload(&self, origin: NodeId) -> (r: Result<ModelBytes<MODEL_SIZE>, NetworkError>)
        ensures
            match payload(self@, origin, MODEL_SIZE as nat) {
                Ok(bytes) => r matches Ok(b) && b@ == bytes,
                Err(e) => r matches Err(e2) && e2 == e,
            },
    {
        if origin == self.id {
            self.model_bytes()
        } else {
            match self.state.inbox.get(&origin) {
                Some(b) => Ok(b.clone()),
                None => Err(NetworkError::MissingOrigin),
            }
        }
    }

    /// The forwarding step: one message with the data of `origin` for every
    /// peer that is neither `origin` itself nor known to hold it.
    pub fn broadcast(&self, origin: NodeId) -> (r: Result<Vec<Outgoing<MODEL_SIZE>>, NetworkError>)
        requires
            self.wf(),
        ensures
            forwarded(r, self@, origin),
            r matches Ok(out) ==> forall|j: int|
                0 <= j < out@.len() ==> (#[trigger] out@[j]).header.dst != origin
                    && !knows(self@, out@[j].header.dst, origin),
    {
        let bytes = match self.payload(origin) {
            Ok(b) => b,
            Err(e) => return Err(e),
        };
        let ghost v = self@;
        let mut out: Vec<Outgoing<MODEL_SIZE>> = Vec::new();
        let mut i: usize = 0;
        while i < self.neighbors.len()
            invariant
                v == self@,
                i <= self.neighbors@.len(),
                out@.len() == targets_upto(v, origin, i as nat).len(),
                forall|j: int|
                    0 <= j < out@.len() ==> #[trigger] send_to(
                        out@[j],
                        v,
                        origin,
                        targets_upto(v, origin, i as nat)[j],
                        bytes@,
                    ),
            decreases self.neighbors@.len() - i,
        {
            let n = &self.neighbors[i];
            let skip = n.id == origin || n.knowledge.contains(&origin);
            proof {
                assert(v.peers[i as int] == n.id);
                assert(v.knowledge[i as int] == n.knowledge@);
            }
            if !skip {
                let request = BroadcastReq {
                    origin,
                    round: self.state.round,
                    model_bytes: bytes.clone(),
                };
                let header = SimpleHeader { src: self.id, dst: n.id };
                out.push(Outgoing { neighbor: i, header, request });
            }
            proof {
                let t = targets_upto(v, origin, (i + 1) as nat);
                assert(t == if skips(v, i as int, origin) {
                    targets_upto(v, origin, i as nat)
                } else {
                    targets_upto(v, origin, i as nat).push(i as int)
                });
                assert forall|j: int| 0 <= j < out@.len() implies #[trigger] send_to(
                    out@[j],
                    v,
                    origin,
                    t[j],
                    bytes@,
                ) by {
                    if j < targets_upto(v, origin, i as nat).len() {
                        assert(send_to(
                            out@[j],
                            v,
                            origin,
                            targets_upto(v, origin, i as nat)[j],
                            bytes@,
                        ));
                    }
                }
            }
            i = i + 1;
        }
        proof {
            lemma_no_self_delivery(v, origin);
            assert forall|j: int| 0 <= j < out@.len() implies (#[trigger] out@[j]).header.dst
                != origin && !knows(v, out@[j].header.dst, origin) by {
                assert(send_to(out@[j], v, origin, targets(v, origin)[j], bytes@));
                let t = targets(v, origin)[j];
                lemma_targets_upto(v, origin, v.peers.len());
                if knows(v, out@[j].header.dst, origin) {
                    let k = choose|k: int|
                        0 <= k < v.peers.len() && v.peers[k] == out@[j].header.dst
                            && #[trigger] v.knowledge[k].contains(origin);
                    assert(k == t);
                }
            }
        }
        Ok(out)
    }
    /// Whether `peer` is known to hold the data of `origin`; always true when
    /// `peer` is `origin`.
    pub fn already_knows(&self, peer: NodeId, origin: NodeId) -> (r: bool)
        requires
            self.wf(),
        ensures
            r == knows(self@, peer, origin),
    {
        if peer == origin {
            return true;
        }
        match self.lookup(peer) {
            Ok(i) => {
                let r = self.neighbors[i].knowledge.contains(&origin);
                proof {
                    assert(self@.knowledge[i as int] == self.neighbors@[i as int].knowledge@);
                    if knows(self@, peer, origin) {
                        let k = choose|k: int|
                            0 <= k < self@.peers.len() && self@.peers[k] == peer
                                && #[trigger] self@.knowledge[k].contains(origin);
                        assert(k == i as int);
                    }
                }
                r
            },
            Err(_) => false,
        }
    }

    /// Records that `peer` holds the data of `origin`. A no-op when already
    /// recorded; `NeighborNotFound` for a peer outside the topology;
    /// `CapacityExceeded` when the set already holds `NUM_NODES` origins.
    pub fn record_relay(&mut self, peer: NodeId, origin: NodeId) -> (r: Result<(), NetworkError>)
        requires
            old(self).wf(),
        ensures
            final(self).wf(),
            final(self)@ == relay_state(old(self)@, peer, origin, NUM_NODES as nat),
            knowledge_grows(old(self)@, final(self)@),
            match relay(old(self)@, peer, origin, NUM_NODES as nat) {
                Ok(_) => r is Ok,
                Err(e) => r matches Err(e2) && e2 == e,
            },
    {
        proof {
            lemma_relay_keeps_knowledge(self@, peer, origin, NUM_NODES as nat);
        }
        let i = match self.lookup(peer) {
            Ok(i) => i,
            Err(e) => return Err(e),
        };
        let ghost v = self@;
        proof {
            assert(v.knowledge[i as int] == self.neighbors@[i as int].knowledge@);
        }
        if self.neighbors[i].knowledge.contains(&origin) {
            return Ok(());
        }
        if self.neighbors[i].knowledge.len() >= NUM_NODES {
            return Err(NetworkError::CapacityExceeded);
        }
        self.neighbors[i].knowledge.insert(origin);
        proof {
            let w = relay_state(v, peer, origin, NUM_NODES as nat);
            assert(self@.peers =~= w.peers);
            assert(self@.knowledge =~= w.knowledge);
        }
        Ok(())
    }

    /// Receives `request` from the hop sender `header.src`: stores its bytes
    /// under its origin, records that a relaying sender holds that origin,
    /// then forwards it.
    pub fn receive(&mut self, header: SimpleHeader, request: BroadcastReq<MODEL_SIZE>) -> (r: Result<
        Vec<Outgoing<MODEL_SIZE>>,
        NetworkError,
    >)
        requires
            old(self).wf(),
        ensures
            final(self).wf(),
            final(self)@ == receive_state(
                old(self)@,
                header.src,
                request.origin,
                request.model_bytes@,
                NUM_NODES as nat,
            ),
            knowledge_grows(old(self)@, final(self)@),
            match receive_status(
                old(self)@,
                header.src,
                request.origin,
                request.model_bytes@,
                NUM_NODES as nat,
            ) {
                Ok(_) => forwarded(r, final(self)@, request.origin),
                Err(e) => r matches Err(e2) && e2 == e,
            },
            r matches Ok(out) ==> forall|j: int|
                0 <= j < out@.len() ==> (#[trigger] out@[j]).header.dst != request.origin
                    && !knows(final(self)@, out@[j].header.dst, request.origin),
    {
        let origin = request.origin;
        let ghost v = self@;
        let ghost bytes = request.model_bytes@;
        self.state.inbox.insert(origin, request.model_bytes);
        proof {
            assert(self@.inbox =~= v.inbox.insert(origin, bytes));
            assert(self@ == store(v, origin, bytes));
            assert(self@.knowledge == v.knowledge);
            assert(self@.peers == v.peers);
            assert(self.wf());
        }
        if header.src != origin {
            match self.record_relay(header.src, origin) {
                Ok(()) => {},
                Err(e) => return Err(e),
            }
        }
        self.broadcast(origin)
    }
    /// A node `id` in round 0 with its own model `model_bytes`, an empty
    /// inbox, and one neighbor per entry of `neighbor_ids`, each known to hold
    /// nothing yet.
    pub fn new(id: NodeId, neighbor_ids: &[NodeId], model_bytes: Vec<u8>) -> (r: Self)
        requires
            neighbor_ids@.no_duplicates(),
        ensures
            r.wf(),
            r@.id == id,
            r@.round == 0,
            r@.own == model_bytes@,
            r@.inbox == Map::<NodeId, Seq<u8>>::empty(),
            r@.peers == neighbor_ids@,
            forall|i: int| 0 <= i < neighbor_ids@.len() ==> #[trigger] r@.knowledge[i] == Set::<
                NodeId,
            >::empty(),
    {
        let mut neighbors: Vec<Neighbor> = Vec::new();
        let mut i: usize = 0;
        while i < neighbor_ids.len()
            invariant
                i <= neighbor_ids@.len(),
                neighbors@.len() == i,
                forall|j: int|
                    0 <= j < i ==> (#[trigger] neighbors@[j]).id == neighbor_ids@[j]
                        && neighbors@[j].knowledge@ == Set::<NodeId>::empty(),
            decreases neighbor_ids@.len() - i,
        {
            neighbors.push(Neighbor { id: neighbor_ids[i], knowledge: HashSet::new() });
            i = i + 1;
        }
        let r = Node {
            id,
            state: NodeState { round: 0, inbox: HashMap::new(), model_bytes },
            neighbors,
        };
        proof {
            assert(r@.peers =~= neighbor_ids@);
            assert(r@.inbox =~= Map::<NodeId, Seq<u8>>::empty());
        }
        r
    }

    /// This node's id.
    pub fn id(&self) -> (r: NodeId)
        ensures
            r == self@.id,
    {
        self.id
    }

    /// The current round.
    pub fn round(&self) -> (r: RoundId)
        ensures
            r == self@.round,
    {
        self.state.round
    }

    /// The number of peers in the topology.
    pub fn num_neighbors(&self) -> (r: usize)
        ensures
            r == self@.peers.len(),
    {
        self.neighbors.len()
    }

    /// The id of the peer at position `i`.
    pub fn neighbor_id(&self, i: usize) -> (r: NodeId)
        requires
            i < self@.peers.len(),
        ensures
            r == self@.peers[i as int],
    {
        self.neighbors[i].id
    }

    /// The bytes received from `origin`, if any.
    pub fn inbox_get(&self, origin: NodeId) -> (r: Option<&ModelBytes<MODEL_SIZE>>)
        ensures
            r is Some <==> self@.inbox.contains_key(origin),
            r matches Some(b) ==> b@ == self@.inbox[origin],
    {
        self.state.inbox.get(&origin)
    }

    /// Replaces this node's own model, as after local training.
    pub fn set_model_bytes(&mut self, model_bytes: Vec<u8>)
        requires
            old(self).wf(),
        ensures
            final(self).wf(),
            final(self)@ == (NodeView { own: model_bytes@, ..old(self)@ }),
    {
        self.state.model_bytes = model_bytes;
    }

    /// Sets the round that forwarded data is tagged with.
    pub fn set_round(&mut self, round: RoundId)
        requires
            old(self).wf(),
        ensures
            final(self).wf(),
            final(self)@ == (NodeView { round, ..old(self)@ }),
    {
        self.state.round = round;
    }
}

} // verus!
