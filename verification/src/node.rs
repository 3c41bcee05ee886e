//! A mesh node: its registry of peers and its outbound queue.
//!
//! The registry maps a peer's identifier to its record. It keeps the records in the
//! order in which their identifiers first came in, no identifier twice. What the
//! contracts here say of it is defined in [`crate::registry`].

use crate::clock::now_millis;
use crate::message::{MeshMessage, MessageView};
use crate::peer::{PeerInfo, PeerView, PEER_ALIVE_TIMEOUT_MS, WEIGHT_INITIAL};
use crate::registry::{
    all_have_room_for_failure, connected_have_room_for_failure, has_room_for_failure,
    has_room_for_success, stale_have_room_for_failure,
    alive_loads, alive_peers, alive_qualities, all_failed, distinct_ids, drifts_of, drifts_view,
    enqueued, has_drifted, has_id, heard_fire, heard_heartbeat, heard_state, is_best_peer,
    is_best_pick, is_ranking, is_routable, is_stale, link_down, link_of, links_of, links_view,
    local_fire_noted, messages_view, needs_reconnect, optional_id_view, peers_view,
    ranked_links, ranks_before, reconnect_targets, stale_marked, targets_view, top_count,
    upserted, weights_of, weights_view, with_link_down, with_link_failed, with_link_up,
    with_link_weight, with_link_weights,
};
use vstd::prelude::*;

verus! {

/// What a node holds, as plain values.
pub struct NodeView {
    pub id: Seq<char>,
    /// The records of the known peers.
    pub peers: Seq<PeerView>,
    /// The messages waiting to go out on the attached connection, oldest first; `None`
    /// while no connection is attached.
    pub outbox: Option<Seq<MessageView>>,
}

impl NodeView {
    /// Every record is well formed and no identifier occurs twice.
    pub open spec fn wf(self) -> bool {
        &&& forall|i: int| 0 <= i < self.peers.len() ==> (#[trigger] self.peers[i]).wf()
        &&& distinct_ids(self.peers)
    }

    /// No counter of any record has reached the greatest value it can hold. While this
    /// holds, every operation that counts a success or a failure can be carried out.
    pub open spec fn counters_have_room(self) -> bool {
        forall|i: int|
            0 <= i < self.peers.len() ==> {
                &&& (#[trigger] self.peers[i]).health.successes < u32::MAX
                &&& self.peers[i].health.failures < u32::MAX
            }
    }
}

/// A node of the mesh.
pub struct MeshNode {
    id: String,
    peers: Vec<PeerInfo>,
    outbox: Option<Vec<MeshMessage>>,
}

impl View for MeshNode {
    type V = NodeView;

    closed spec fn view(&self) -> NodeView {
        NodeView {
            id: self.id@,
            peers: peers_view(self.peers@),
            outbox: match self.outbox {
                Some(q) => Some(messages_view(q@)),
                None => None,
            },
        }
    }
}

impl MeshNode {
    #[verifier::type_invariant]
    spec fn inv(self) -> bool {
        self@.wf()
    }

    /// Every record is well formed and no identifier occurs twice. This holds of every
    /// node at all times.
    pub open spec fn wf(&self) -> bool {
        self@.wf()
    }

    /// A node that knows no peer and has no connection attached.
    pub fn new(id: &str) -> (node: Self)
        ensures
            node.wf(),
            node@ == (NodeView { id: id@, peers: Seq::empty(), outbox: None }),
    {
        let node = MeshNode { id: id.to_owned(), peers: Vec::new(), outbox: None };
        assert(node@.peers =~= Seq::empty());
        node
    }

    /// Takes the records out of the node, to be changed and put back.
    fn take_peers(&mut self) -> (peers: Vec<PeerInfo>)
        ensures
            peers_view(peers@) == old(self)@.peers,
            old(self)@.wf(),
            final(self)@ == (NodeView { peers: Seq::empty(), ..old(self)@ }),
    {
        proof {
            use_type_invariant(&*self);
        }
        let mut peers: Vec<PeerInfo> = Vec::new();
        std::mem::swap(&mut self.peers, &mut peers);
        assert(self@.peers =~= Seq::empty());
        peers
    }

    /// Puts records into the node in the place of those it holds.
    fn put_peers(&mut self, peers: Vec<PeerInfo>)
        requires
            (NodeView { peers: peers_view(peers@), ..old(self)@ }).wf(),
        ensures
            final(self)@ == (NodeView { peers: peers_view(peers@), ..old(self)@ }),
    {
        self.peers = peers;
    }

    /// The node's own identifier.
    pub fn id(&self) -> (id: &String)
        ensures
            id@ == self@.id,
    {
        &self.id
    }

    /// The records of the known peers: each well formed, no identifier twice.
    pub fn peers(&self) -> (peers: &Vec<PeerInfo>)
        ensures
            peers_view(peers@) == self@.peers,
            self.wf(),
    {
        proof {
            use_type_invariant(self);
        }
        &self.peers
    }

    /// The number of known peers.
    pub fn get_peer_count(&self) -> (n: usize)
        ensures
            n == self@.peers.len(),
    {
        self.peers.len()
    }

    /// Whether every counter of every record can still be raised, so that whatever
    /// happens next can be counted.
    pub fn counters_have_room(&self) -> (b: bool)
        ensures
            b == self@.counters_have_room(),
    {
        let mut i: usize = 0;
        while i < self.peers.len()
            invariant
                i <= self.peers.len(),
                forall|j: int|
                    0 <= j < i ==> {
                        &&& (#[trigger] self@.peers[j]).health.successes < u32::MAX
                        &&& self@.peers[j].health.failures < u32::MAX
                    },
            decreases self.peers.len() - i,
        {
            let health = self.peers[i].health();
            if health.successes() == u32::MAX || health.failures() == u32::MAX {
                assert(self@.peers[i as int] == self.peers@[i as int]@);
                return false;
            }
            assert(self@.peers[i as int] == self.peers@[i as int]@);
            i = i + 1;
        }
        true
    }

    /// The place of the record that bears `id`, if there is one.
    pub fn find_peer(&self, id: &str) -> (r: Option<usize>)
        ensures
            match r {
                Some(i) => i < self@.peers.len() && self@.peers[i as int].id == id@,
                None => !has_id(self@.peers, id@),
            },
    {
        let key: String = id.to_owned();
        let mut i: usize = 0;
        while i < self.peers.len()
            invariant
                i <= self.peers.len(),
                key@ == id@,
                forall|j: int| 0 <= j < i ==> (#[trigger] self@.peers[j]).id != id@,
            decreases self.peers.len() - i,
        {
            if *self.peers[i].id() == key {
                return Some(i);
            }
            i = i + 1;
        }
        None
    }

    /// The record that bears `id`, if there is one.
    pub fn get_peer(&self, id: &str) -> (r: Option<&PeerInfo>)
        ensures
            match r {
                Some(p) => has_id(self@.peers, id@) && p@.id == id@ && self@.peers.contains(p@),
                None => !has_id(self@.peers, id@),
            },
    {
        match self.find_peer(id) {
            Some(i) => {
                assert(self@.peers[i as int] == self.peers@[i as int]@);
                Some(&self.peers[i])
            },
            None => None,
        }
    }

    /// Puts `p` into the registry: in the place of the record with its identifier, if
    /// there is one, and else at the end.
    fn upsert(&mut self, p: PeerInfo)
        requires
            p@.wf(),
        ensures
            final(self)@ == (NodeView { peers: upserted(old(self)@.peers, p@), ..old(self)@ }),
    {
        let found = self.find_peer(p.id().as_str());
        let ghost record = p@;
        let mut peers = self.take_peers();
        match found {
            Some(i) => {
                peers[i] = p;
            },
            None => {
                peers.push(p);
            },
        }
        assert(peers_view(peers@) =~= upserted(old(self)@.peers, record));
        self.put_peers(peers);
    }

    /// Registers a peer at `now` for reconnection at `url`: a new record, not connected,
    /// takes the place of any record that `peer_id` had.
    pub fn register_peer_at(&mut self, peer_id: String, url: String, now: i64)
        ensures
            final(self)@ == (NodeView {
                peers: upserted(old(self)@.peers, PeerView::registered(peer_id@, url@, now)),
                ..old(self)@
            }),
    {
        self.upsert(PeerInfo::with_url_at(peer_id, url, now));
    }

    /// Registers a peer at the present time for reconnection at `url`.
    pub fn register_peer(&mut self, peer_id: String, url: String)
        ensures
            exists|now: i64|
                final(self)@ == (NodeView {
                    peers: upserted(
                        old(self)@.peers,
                        #[trigger] PeerView::registered(peer_id@, url@, now),
                    ),
                    ..old(self)@
                }),
    {
        let now: i64 = now_millis();
        self.register_peer_at(peer_id, url, now);
    }

    /// Sets the weight of the link to `peer_id`, brought within the link's bounds;
    /// nothing changes if the peer is not known.
    pub fn set_link_weight(&mut self, peer_id: &str, weight: u32)
        ensures
            final(self)@ == (NodeView {
                peers: with_link_weight(old(self)@.peers, peer_id@, weight),
                ..old(self)@
            }),
    {
        let found = self.find_peer(peer_id);
        let mut peers = self.take_peers();
        match found {
            Some(i) => {
                peers[i].load_weight(weight);
            },
            None => {},
        }
        assert(peers_view(peers@) =~= with_link_weight(old(self)@.peers, peer_id@, weight));
        self.put_peers(peers);
    }

    /// Sets the weights of the listed links, one after the other; an identifier that is
    /// not known is passed over.
    pub fn load_weights(&mut self, weights: Vec<(String, u32)>)
        ensures
            final(self)@ == (NodeView {
                peers: with_link_weights(old(self)@.peers, weights_view(weights@)),
                ..old(self)@
            }),
    {
        let mut k: usize = 0;
        while k < weights.len()
            invariant
                k <= weights.len(),
                self@ == (NodeView {
                    peers: with_link_weights(
                        old(self)@.peers,
                        weights_view(weights@).take(k as int),
                    ),
                    ..old(self)@
                }),
            decreases weights.len() - k,
        {
            proof {
                let all = weights_view(weights@);
                assert(all.take(k as int + 1).drop_last() == all.take(k as int));
                assert(all.take(k as int + 1).last() == (
                    weights@[k as int].0@,
                    weights@[k as int].1,
                ));
            }
            self.set_link_weight(weights[k].0.as_str(), weights[k].1);
            k = k + 1;
        }
        proof {
            let all = weights_view(weights@);
            assert(all.take(weights.len() as int) == all);
        }
    }

    /// Identifier, weight and quality of every link, in the order of the records.
    pub fn get_link_weights(&self) -> (links: Vec<(String, u32, u32)>)
        ensures
            links_view(links@) == links_of(self@.peers),
    {
        let mut links: Vec<(String, u32, u32)> = Vec::new();
        let mut i: usize = 0;
        while i < self.peers.len()
            invariant
                i <= self.peers.len(),
                links@.len() == i,
                links_view(links@) == links_of(self@.peers.take(i as int)),
            decreases self.peers.len() - i,
        {
            let p = &self.peers[i];
            let ghost before = links@;
            links.push((p.id().clone(), p.weight(), p.health().quality()));
            proof {
                assert(self@.peers[i as int] == p@);
                assert forall|j: int| 0 <= j <= i implies links_view(links@)[j] == links_of(
                    self@.peers.take(i as int + 1),
                )[j] by {
                    if j < i {
                        assert(links@[j] == before[j]);
                        assert(links_view(before)[j] == links_of(self@.peers.take(i as int))[j]);
                    } else {
                        assert(self@.peers.take(i as int + 1)[j] == p@);
                    }
                }
                assert(links_view(links@) =~= links_of(self@.peers.take(i as int + 1)));
            }
            i = i + 1;
        }
        proof {
            assert(self@.peers.take(self.peers.len() as int) == self@.peers);
        }
        links
    }

    /// Identifier and weight of every link, in the order of the records, for keeping
    /// outside the process.
    pub fn snapshot_weights(&self) -> (weights: Vec<(String, u32)>)
        ensures
            weights_view(weights@) == weights_of(self@.peers),
    {
        let mut weights: Vec<(String, u32)> = Vec::new();
        let mut i: usize = 0;
        while i < self.peers.len()
            invariant
                i <= self.peers.len(),
                weights@.len() == i,
                weights_view(weights@) == weights_of(self@.peers.take(i as int)),
            decreases self.peers.len() - i,
        {
            let p = &self.peers[i];
            let ghost before = weights@;
            weights.push(p.snapshot_weight());
            proof {
                assert(self@.peers[i as int] == p@);
                assert forall|j: int| 0 <= j <= i implies weights_view(weights@)[j] == weights_of(
                    self@.peers.take(i as int + 1),
                )[j] by {
                    if j < i {
                        assert(weights@[j] == before[j]);
                        assert(weights_view(before)[j] == weights_of(
                            self@.peers.take(i as int),
                        )[j]);
                    } else {
                        assert(self@.peers.take(i as int + 1)[j] == p@);
                    }
                }
                assert(weights_view(weights@) =~= weights_of(self@.peers.take(i as int + 1)));
            }
            i = i + 1;
        }
        proof {
            assert(self@.peers.take(self.peers.len() as int) == self@.peers);
        }
        weights
    }

    /// Copies of the records of the peers heard of less than `timeout_ms` before `now`,
    /// in their order.
    pub fn get_alive_peers_at(&self, timeout_ms: i64, now: i64) -> (alive: Vec<PeerInfo>)
        ensures
            peers_view(alive@) == alive_peers(self@.peers, now as int, timeout_ms as int),
    {
        let mut alive: Vec<PeerInfo> = Vec::new();
        let mut i: usize = 0;
        proof {
            reveal(Seq::filter);
            assert(peers_view(alive@) =~= alive_peers(
                self@.peers.take(0),
                now as int,
                timeout_ms as int,
            ));
        }
        while i < self.peers.len()
            invariant
                i <= self.peers.len(),
                peers_view(alive@) == alive_peers(
                    self@.peers.take(i as int),
                    now as int,
                    timeout_ms as int,
                ),
            decreases self.peers.len() - i,
        {
            let p = &self.peers[i];
            proof {
                reveal(Seq::filter);
                assert(self@.peers[i as int] == p@);
                assert(self@.peers.take(i as int + 1).drop_last() == self@.peers.take(i as int));
            }
            if p.is_alive_at(now, timeout_ms) {
                alive.push(p.clone());
                assert(peers_view(alive@) =~= alive_peers(
                    self@.peers.take(i as int + 1),
                    now as int,
                    timeout_ms as int,
                ));
            }
            i = i + 1;
        }
        proof {
            assert(self@.peers.take(self.peers.len() as int) == self@.peers);
        }
        alive
    }

    /// Copies of the records of the peers heard of less than `timeout_ms` before the
    /// present time.
    pub fn get_alive_peers(&self, timeout_ms: i64) -> (alive: Vec<PeerInfo>)
        ensures
            exists|now: i64|
                peers_view(alive@) == #[trigger] alive_peers(
                    self@.peers,
                    now as int,
                    timeout_ms as int,
                ),
    {
        let now: i64 = now_millis();
        self.get_alive_peers_at(timeout_ms, now)
    }

    /// Attaches a connection: from now on messages are queued for it. A queue left by an
    /// earlier connection is dropped.
    pub fn attach_outbox(&mut self)
        ensures
            final(self)@ == (NodeView { outbox: Some(Seq::empty()), ..old(self)@ }),
    {
        proof {
            use_type_invariant(&*self);
        }
        self.outbox = Some(Vec::new());
        assert(messages_view(Seq::<MeshMessage>::empty()) =~= Seq::empty());
    }

    /// Detaches the connection: the queue and what waits in it are dropped.
    pub fn detach_outbox(&mut self)
        ensures
            final(self)@ == (NodeView { outbox: None, ..old(self)@ }),
    {
        proof {
            use_type_invariant(&*self);
        }
        self.outbox = None;
    }

    /// Whether a connection is attached.
    pub fn has_outbox(&self) -> (b: bool)
        ensures
            b == self@.outbox is Some,
    {
        self.outbox.is_some()
    }

    /// Queues `msg` for the attached connection; without one the message is dropped.
    pub fn send_message(&mut self, msg: MeshMessage)
        ensures
            final(self)@ == (NodeView { outbox: enqueued(old(self)@.outbox, msg@), ..old(self)@ }),
    {
        proof {
            use_type_invariant(&*self);
        }
        let mut outbox: Option<Vec<MeshMessage>> = None;
        std::mem::swap(&mut self.outbox, &mut outbox);
        match outbox {
            Some(mut q) => {
                q.push(msg);
                assert(messages_view(q@) =~= old(self)@.outbox->0.push(msg@));
                self.outbox = Some(q);
            },
            None => {},
        }
    }

    /// Takes the queued messages out, oldest first, and leaves the queue empty.
    pub fn take_outbound(&mut self) -> (messages: Vec<MeshMessage>)
        ensures
            final(self)@.id == old(self)@.id,
            final(self)@.peers == old(self)@.peers,
            match old(self)@.outbox {
                Some(q) => messages_view(messages@) == q && final(self)@.outbox == Some(
                    Seq::<MessageView>::empty(),
                ),
                None => messages@.len() == 0 && final(self)@.outbox is None,
            },
    {
        proof {
            use_type_invariant(&*self);
        }
        let mut outbox: Option<Vec<MeshMessage>> = None;
        std::mem::swap(&mut self.outbox, &mut outbox);
        match outbox {
            Some(q) => {
                self.outbox = Some(Vec::new());
                assert(messages_view(Seq::<MeshMessage>::empty()) =~= Seq::empty());
                q
            },
            None => Vec::new(),
        }
    }

    /// Queues a heartbeat of this node stamped `now`.
    pub fn broadcast_heartbeat_at(&mut self, now: i64)
        ensures
            final(self)@ == (NodeView {
                outbox: enqueued(
                    old(self)@.outbox,
                    MessageView::Heartbeat { node_id: old(self)@.id, timestamp: now },
                ),
                ..old(self)@
            }),
    {
        let msg = MeshMessage::Heartbeat { node_id: self.id.clone(), timestamp: now };
        self.send_message(msg);
    }

    /// Queues a heartbeat of this node stamped with the present time.
    pub fn broadcast_heartbeat(&mut self)
        ensures
            exists|now: i64|
                final(self)@ == (NodeView {
                    outbox: #[trigger] enqueued(
                        old(self)@.outbox,
                        MessageView::Heartbeat { node_id: old(self)@.id, timestamp: now },
                    ),
                    ..old(self)@
                }),
    {
        let now: i64 = now_millis();
        self.broadcast_heartbeat_at(now);
    }

    /// Queues a report of this node's metrics stamped `now`.
    pub fn broadcast_state_at(&mut self, cells: usize, generation: u32, load: u32, now: i64)
        ensures
            final(self)@ == (NodeView {
                outbox: enqueued(
                    old(self)@.outbox,
                    MessageView::StateSync {
                        node_id: old(self)@.id,
                        cells,
                        generation,
                        load,
                        timestamp: now,
                    },
                ),
                ..old(self)@
            }),
    {
        let msg = MeshMessage::StateSync {
            node_id: self.id.clone(),
            cells,
            generation,
            load,
            timestamp: now,
        };
        self.send_message(msg);
    }

    /// Queues a report of this node's metrics stamped with the present time.
    pub fn broadcast_state(&mut self, cells: usize, generation: u32, load: u32)
        ensures
            exists|now: i64|
                final(self)@ == (NodeView {
                    outbox: #[trigger] enqueued(
                        old(self)@.outbox,
                        MessageView::StateSync {
                            node_id: old(self)@.id,
                            cells,
                            generation,
                            load,
                            timestamp: now,
                        },
                    ),
                    ..old(self)@
                }),
    {
        let now: i64 = now_millis();
        self.broadcast_state_at(cells, generation, load, now);
    }

    /// Notes a fire of this node at `ts_ms` with every peer.
    pub fn note_fire_local_all(&mut self, ts_ms: i64)
        ensures
            final(self)@ == (NodeView {
                peers: local_fire_noted(old(self)@.peers, ts_ms),
                ..old(self)@
            }),
    {
        let mut peers = self.take_peers();
        let ghost start = peers_view(peers@);
        let mut i: usize = 0;
        while i < peers.len()
            invariant
                i <= peers.len(),
                peers.len() == start.len(),
                forall|j: int| 0 <= j < i ==> #[trigger] peers_view(peers@)[j] == (PeerView {
                    last_fire_local: ts_ms,
                    ..start[j]
                }),
                forall|j: int|
                    i <= j < peers.len() ==> #[trigger] peers_view(peers@)[j] == start[j],
                forall|j: int| 0 <= j < peers.len() ==> (#[trigger] peers_view(peers@)[j]).wf(),
            decreases peers.len() - i,
        {
            let ghost before = peers_view(peers@);
            assert(before[i as int] == start[i as int]);
            peers[i].note_fire_local(ts_ms);
            proof {
                let after = peers_view(peers@);
                assert forall|j: int| 0 <= j < i + 1 implies #[trigger] after[j] == (PeerView {
                    last_fire_local: ts_ms,
                    ..start[j]
                }) by {
                    if j < i {
                        assert(after[j] == before[j]);
                    }
                }
                assert forall|j: int| i + 1 <= j < peers.len() implies #[trigger] after[j]
                    == start[j] by {
                    assert(after[j] == before[j]);
                }
                assert forall|j: int| 0 <= j < peers.len() implies (#[trigger] after[j]).wf() by {
                    if j != i {
                        assert(after[j] == before[j]);
                    }
                }
            }
            i = i + 1;
        }
        assert(peers_view(peers@) =~= local_fire_noted(start, ts_ms));
        self.put_peers(peers);
    }

    /// Fires at `now`: queues the fire message and notes the fire with every peer. No
    /// weight is updated by this.
    pub fn send_fire_at(&mut self, now: i64)
        ensures
            final(self)@ == (NodeView {
                outbox: enqueued(
                    old(self)@.outbox,
                    MessageView::Fire { node_id: old(self)@.id, timestamp: now },
                ),
                peers: local_fire_noted(old(self)@.peers, now),
                ..old(self)@
            }),
    {
        let msg = MeshMessage::Fire { node_id: self.id.clone(), timestamp: now };
        self.send_message(msg);
        self.note_fire_local_all(now);
    }

    /// Fires at the present time.
    pub fn send_fire(&mut self)
        ensures
            exists|now: i64|
                final(self)@ == (NodeView {
                    outbox: enqueued(
                        old(self)@.outbox,
                        MessageView::Fire { node_id: old(self)@.id, timestamp: now },
                    ),
                    peers: #[trigger] local_fire_noted(old(self)@.peers, now),
                    ..old(self)@
                }),
    {
        let now: i64 = now_millis();
        self.send_fire_at(now);
    }

    /// Takes the handshake of the peer `peer_id` at `now`: a new record, connected, takes
    /// the place of any record that the peer had.
    pub fn accept_handshake_at(&mut self, peer_id: &str, now: i64)
        ensures
            final(self)@ == (NodeView {
                peers: upserted(old(self)@.peers, PeerView::fresh(peer_id@, now)),
                ..old(self)@
            }),
    {
        self.upsert(PeerInfo::new_at(peer_id.to_owned(), now));
    }

    /// Notes a heartbeat of the peer `peer_id` heard at `now`; nothing changes if the peer
    /// is not known.
    pub fn note_heartbeat_at(&mut self, peer_id: &str, now: i64)
        requires
            has_room_for_success(old(self)@.peers, peer_id@),
        ensures
            final(self)@ == (NodeView {
                peers: heard_heartbeat(old(self)@.peers, peer_id@, now),
                ..old(self)@
            }),
    {
        let found = self.find_peer(peer_id);
        let mut peers = self.take_peers();
        match found {
            Some(i) => {
                assert(old(self)@.peers[i as int].health.successes < u32::MAX);
                peers[i].update_heartbeat_at(now);
            },
            None => {},
        }
        assert(peers_view(peers@) =~= heard_heartbeat(old(self)@.peers, peer_id@, now));
        self.put_peers(peers);
    }

    /// Mirrors a state report of the peer `peer_id` heard at `now`; nothing changes if the
    /// peer is not known.
    pub fn note_state_at(
        &mut self,
        peer_id: &str,
        cells: usize,
        generation: u32,
        load: u32,
        now: i64,
    )
        requires
            has_room_for_success(old(self)@.peers, peer_id@),
        ensures
            final(self)@ == (NodeView {
                peers: heard_state(old(self)@.peers, peer_id@, cells, generation, load, now),
                ..old(self)@
            }),
    {
        let found = self.find_peer(peer_id);
        let mut peers = self.take_peers();
        match found {
            Some(i) => {
                assert(old(self)@.peers[i as int].health.successes < u32::MAX);
                peers[i].update_state_at(cells, generation, load, now);
            },
            None => {},
        }
        assert(peers_view(peers@) =~= heard_state(
            old(self)@.peers,
            peer_id@,
            cells,
            generation,
            load,
            now,
        ));
        self.put_peers(peers);
    }

    /// Notes a fire of the peer `peer_id` stamped `ts_ms` and updates the weight of the
    /// link with window `window_ms`; nothing changes if the peer is not known.
    pub fn note_fire_remote(&mut self, peer_id: &str, ts_ms: i64, window_ms: i64)
        ensures
            final(self)@ == (NodeView {
                peers: heard_fire(old(self)@.peers, peer_id@, ts_ms, window_ms),
                ..old(self)@
            }),
    {
        let found = self.find_peer(peer_id);
        let mut peers = self.take_peers();
        match found {
            Some(i) => {
                peers[i].note_fire_remote(ts_ms);
                peers[i].hebbian_update(window_ms);
            },
            None => {},
        }
        assert(peers_view(peers@) =~= heard_fire(old(self)@.peers, peer_id@, ts_ms, window_ms));
        self.put_peers(peers);
    }

    /// Notes that the link to the peer `peer_id` came up at `now`; nothing changes if the
    /// peer is not known.
    pub fn mark_connected_at(&mut self, peer_id: &str, now: i64)
        requires
            has_room_for_success(old(self)@.peers, peer_id@),
        ensures
            final(self)@ == (NodeView {
                peers: with_link_up(old(self)@.peers, peer_id@, now),
                ..old(self)@
            }),
    {
        let found = self.find_peer(peer_id);
        let mut peers = self.take_peers();
        match found {
            Some(i) => {
                assert(old(self)@.peers[i as int].health.successes < u32::MAX);
                peers[i].set_connected(true);
                peers[i].record_success_at(now);
            },
            None => {},
        }
        assert(peers_view(peers@) =~= with_link_up(old(self)@.peers, peer_id@, now));
        self.put_peers(peers);
    }

    /// Notes that the link to the peer `peer_id` went down at `now`; nothing changes if
    /// the peer is not known.
    pub fn mark_disconnected_at(&mut self, peer_id: &str, now: i64)
        requires
            has_room_for_failure(old(self)@.peers, peer_id@),
        ensures
            final(self)@ == (NodeView {
                peers: with_link_down(old(self)@.peers, peer_id@, now),
                ..old(self)@
            }),
    {
        let found = self.find_peer(peer_id);
        let mut peers = self.take_peers();
        match found {
            Some(i) => {
                assert(old(self)@.peers[i as int].health.failures < u32::MAX);
                peers[i].set_connected(false);
                peers[i].record_failure_at(now);
            },
            None => {},
        }
        assert(peers_view(peers@) =~= with_link_down(old(self)@.peers, peer_id@, now));
        self.put_peers(peers);
    }

    /// Counts a failure at `now` against the peer `peer_id`; nothing changes if the peer
    /// is not known.
    pub fn record_peer_failure_at(&mut self, peer_id: &str, now: i64)
        requires
            has_room_for_failure(old(self)@.peers, peer_id@),
        ensures
            final(self)@ == (NodeView {
                peers: with_link_failed(old(self)@.peers, peer_id@, now),
                ..old(self)@
            }),
    {
        let found = self.find_peer(peer_id);
        let mut peers = self.take_peers();
        match found {
            Some(i) => {
                assert(old(self)@.peers[i as int].health.failures < u32::MAX);
                peers[i].record_failure_at(now);
            },
            None => {},
        }
        assert(peers_view(peers@) =~= with_link_failed(old(self)@.peers, peer_id@, now));
        self.put_peers(peers);
    }

    /// Counts a failure at `now` against every peer: what a failed write on the shared
    /// outbound queue amounts to, whichever peer was on the other end.
    pub fn record_failure_all_at(&mut self, now: i64)
        requires
            all_have_room_for_failure(old(self)@.peers),
        ensures
            final(self)@ == (NodeView { peers: all_failed(old(self)@.peers, now), ..old(self)@ }),
    {
        let mut peers = self.take_peers();
        let ghost start = peers_view(peers@);
        let mut i: usize = 0;
        while i < peers.len()
            invariant
                i <= peers.len(),
                peers.len() == start.len(),
                forall|j: int|
                    0 <= j < start.len() ==> (#[trigger] start[j]).health.failures < u32::MAX,
                forall|j: int|
                    0 <= j < i ==> #[trigger] peers_view(peers@)[j] == start[j].after_failure(now),
                forall|j: int|
                    i <= j < peers.len() ==> #[trigger] peers_view(peers@)[j] == start[j],
                forall|j: int| 0 <= j < peers.len() ==> (#[trigger] peers_view(peers@)[j]).wf(),
            decreases peers.len() - i,
        {
            let ghost before = peers_view(peers@);
            assert(before[i as int] == start[i as int]);
            peers[i].record_failure_at(now);
            proof {
                let after = peers_view(peers@);
                assert forall|j: int| 0 <= j < i + 1 implies #[trigger] after[j]
                    == start[j].after_failure(now) by {
                    if j < i {
                        assert(after[j] == before[j]);
                    }
                }
                assert forall|j: int| i + 1 <= j < peers.len() implies #[trigger] after[j]
                    == start[j] by {
                    assert(after[j] == before[j]);
                }
                assert forall|j: int| 0 <= j < peers.len() implies (#[trigger] after[j]).wf() by {
                    if j != i {
                        assert(after[j] == before[j]);
                    }
                }
            }
            i = i + 1;
        }
        assert(peers_view(peers@) =~= all_failed(start, now));
        self.put_peers(peers);
    }

    /// Marks the link of every stale peer as down: one that counts as connected but was
    /// not heard of for `timeout_ms` before `now`. The records stay in the registry.
    pub fn mark_stale_peers_at(&mut self, timeout_ms: i64, now: i64)
        requires
            stale_have_room_for_failure(old(self)@.peers, now as int, timeout_ms as int),
        ensures
            final(self)@ == (NodeView {
                peers: stale_marked(old(self)@.peers, now, timeout_ms),
                ..old(self)@
            }),
    {
        let mut peers = self.take_peers();
        let ghost start = peers_view(peers@);
        let mut i: usize = 0;
        while i < peers.len()
            invariant
                i <= peers.len(),
                peers.len() == start.len(),
                stale_have_room_for_failure(start, now as int, timeout_ms as int),
                forall|j: int| 0 <= j < i ==> #[trigger] peers_view(peers@)[j] == if is_stale(
                    start[j],
                    now as int,
                    timeout_ms as int,
                ) {
                    link_down(start[j], now)
                } else {
                    start[j]
                },
                forall|j: int|
                    i <= j < peers.len() ==> #[trigger] peers_view(peers@)[j] == start[j],
                forall|j: int| 0 <= j < peers.len() ==> (#[trigger] peers_view(peers@)[j]).wf(),
            decreases peers.len() - i,
        {
            let ghost before = peers_view(peers@);
            assert(before[i as int] == start[i as int]);
            let alive = peers[i].is_alive_at(now, timeout_ms);
            if !alive && peers[i].connected() {
                peers[i].set_connected(false);
                peers[i].record_failure_at(now);
            }
            proof {
                let after = peers_view(peers@);
                assert forall|j: int| 0 <= j < i + 1 implies #[trigger] after[j] == if is_stale(
                    start[j],
                    now as int,
                    timeout_ms as int,
                ) {
                    link_down(start[j], now)
                } else {
                    start[j]
                } by {
                    if j < i {
                        assert(after[j] == before[j]);
                    }
                }
                assert forall|j: int| i + 1 <= j < peers.len() implies #[trigger] after[j]
                    == start[j] by {
                    assert(after[j] == before[j]);
                }
                assert forall|j: int| 0 <= j < peers.len() implies (#[trigger] after[j]).wf() by {
                    if j != i {
                        assert(after[j] == before[j]);
                    }
                }
            }
            i = i + 1;
        }
        assert(peers_view(peers@) =~= stale_marked(start, now, timeout_ms));
        self.put_peers(peers);
    }

    /// Marks the link of every peer that is stale at the present time as down.
    pub fn mark_stale_peers(&mut self, timeout_ms: i64)
        requires
            connected_have_room_for_failure(old(self)@.peers),
        ensures
            exists|now: i64|
                final(self)@ == (NodeView {
                    peers: #[trigger] stale_marked(old(self)@.peers, now, timeout_ms),
                    ..old(self)@
                }),
    {
        let now: i64 = now_millis();
        self.mark_stale_peers_at(timeout_ms, now);
    }

    /// Identifier and address of every peer that is to be dialed again: not connected,
    /// with a known address, and with some quality left.
    pub fn peers_to_reconnect(&self) -> (targets: Vec<(String, String)>)
        ensures
            targets_view(targets@) == reconnect_targets(self@.peers),
    {
        let mut targets: Vec<(String, String)> = Vec::new();
        let mut i: usize = 0;
        proof {
            reveal(Seq::filter);
            assert(targets_view(targets@) =~= reconnect_targets(self@.peers.take(0)));
        }
        while i < self.peers.len()
            invariant
                i <= self.peers.len(),
                targets_view(targets@) == reconnect_targets(self@.peers.take(i as int)),
            decreases self.peers.len() - i,
        {
            let p = &self.peers[i];
            let ghost before = targets@;
            proof {
                reveal(Seq::filter);
                assert(self@.peers[i as int] == p@);
                assert(self@.peers.take(i as int + 1).drop_last() == self@.peers.take(i as int));
                assert(self@.peers.take(i as int + 1).last() == p@);
            }
            if !p.connected() && p.health().quality() > 0 {
                match p.url() {
                    Some(url) => {
                        targets.push((p.id().clone(), url.clone()));
                        proof {
                            let kept = self@.peers.take(i as int).filter(
                                |p: PeerView| needs_reconnect(p),
                            );
                            assert(needs_reconnect(p@));
                            assert(targets_view(before) == kept.map_values(
                                |p: PeerView| (p.id, p.url->0),
                            ));
                            assert(targets_view(targets@) =~= targets_view(before).push(
                                (p@.id, p@.url->0),
                            ));
                            assert(kept.push(p@).map_values(|p: PeerView| (p.id, p.url->0))
                                =~= kept.map_values(|p: PeerView| (p.id, p.url->0)).push(
                                (p@.id, p@.url->0),
                            ));
                        }
                    },
                    None => {},
                }
            }
            i = i + 1;
        }
        proof {
            assert(self@.peers.take(self.peers.len() as int) == self@.peers);
        }
        targets
    }

    /// The peer to route to at `now` for a task that fits a link to the degree
    /// `intent_match`: among the peers whose link is up and that were heard of within the
    /// alive timeout, the one with the highest score, and of several such the last in the
    /// registry. `None` if there is no such peer.
    pub fn pick_best_peer_at(&self, intent_match: u32, now: i64) -> (best: Option<String>)
        ensures
            is_best_pick(self@.peers, optional_id_view(best), intent_match as int, now as int),
    {
        let mut best: Option<usize> = None;
        let mut best_score: u128 = 0;
        let mut i: usize = 0;
        while i < self.peers.len()
            invariant
                i <= self.peers.len(),
                match best {
                    Some(b) => b < i && best_score == self@.peers[b as int].score(
                        intent_match as int,
                    ) && is_best_peer(
                        self@.peers.take(i as int),
                        b as int,
                        intent_match as int,
                        now as int,
                    ),
                    None => forall|j: int|
                        0 <= j < i ==> !is_routable(#[trigger] self@.peers[j], now as int),
                },
            decreases self.peers.len() - i,
        {
            let p = &self.peers[i];
            let ghost seen = self@.peers.take(i as int);
            let ghost next = self@.peers.take(i as int + 1);
            proof {
                assert(self@.peers[i as int] == p@);
                assert forall|j: int| 0 <= j < i implies #[trigger] next[j] == seen[j] by {}
                assert(next[i as int] == p@);
            }
            if p.connected() && p.is_alive_at(now, PEER_ALIVE_TIMEOUT_MS) {
                let score: u128 = p.score(intent_match);
                let better = match best {
                    Some(_) => score >= best_score,
                    None => true,
                };
                if better {
                    proof {
                        assert forall|j: int|
                            0 <= j < next.len() && is_routable(
                                #[trigger] next[j],
                                now as int,
                            ) implies next[j].score(intent_match as int) <= next[i as int].score(
                            intent_match as int,
                        ) by {
                            if j < i {
                                assert(is_routable(seen[j], now as int));
                                assert(is_routable(self@.peers[j], now as int));
                            }
                        }
                    }
                    best = Some(i);
                    best_score = score;
                } else {
                    proof {
                        let b = best->0 as int;
                        assert(next[b] == seen[b]);
                        assert forall|j: int|
                            0 <= j < next.len() && is_routable(
                                #[trigger] next[j],
                                now as int,
                            ) implies next[j].score(intent_match as int) <= next[b].score(
                            intent_match as int,
                        ) by {
                            if j < i {
                                assert(is_routable(seen[j], now as int));
                            }
                        }
                        assert forall|j: int|
                            b < j < next.len() && is_routable(
                                #[trigger] next[j],
                                now as int,
                            ) implies next[j].score(intent_match as int) < next[b].score(
                            intent_match as int,
                        ) by {
                            if j < i {
                                assert(is_routable(seen[j], now as int));
                            }
                        }
                    }
                }
            } else {
                proof {
                    if best is Some {
                        let b = best->0 as int;
                        assert(next[b] == seen[b]);
                        assert forall|j: int|
                            0 <= j < next.len() && is_routable(
                                #[trigger] next[j],
                                now as int,
                            ) implies next[j].score(intent_match as int) <= next[b].score(
                            intent_match as int,
                        ) by {
                            if j < i {
                                assert(is_routable(seen[j], now as int));
                            }
                        }
                        assert forall|j: int|
                            b < j < next.len() && is_routable(
                                #[trigger] next[j],
                                now as int,
                            ) implies next[j].score(intent_match as int) < next[b].score(
                            intent_match as int,
                        ) by {
                            if j < i {
                                assert(is_routable(seen[j], now as int));
                            }
                        }
                    }
                }
            }
            i = i + 1;
        }
        proof {
            assert(self@.peers.take(self.peers.len() as int) == self@.peers);
        }
        match best {
            Some(b) => {
                assert(self@.peers[b as int] == self.peers@[b as int]@);
                Some(self.peers[b].id().clone())
            },
            None => None,
        }
    }

    /// The peer to route to at the present time; see [`MeshNode::pick_best_peer_at`].
    pub fn pick_best_peer(&self, intent_match: u32) -> (best: Option<String>)
        ensures
            exists|now: i64|
                #[trigger] is_best_pick(
                    self@.peers,
                    optional_id_view(best),
                    intent_match as int,
                    now as int,
                ),
    {
        let now: i64 = now_millis();
        self.pick_best_peer_at(intent_match, now)
    }

    /// The places of all records by descending weight, records of equal weight in the
    /// order of the registry.
    fn ranking(&self) -> (order: Vec<usize>)
        ensures
            is_ranking(order@, self@.peers),
    {
        let mut order: Vec<usize> = Vec::new();
        let mut i: usize = 0;
        while i < self.peers.len()
            invariant
                i <= self.peers.len(),
                is_ranking(order@, self@.peers.take(i as int)),
            decreases self.peers.len() - i,
        {
            let weight: u32 = self.peers[i].weight();
            let ghost seen = self@.peers.take(i as int);
            let ghost next = self@.peers.take(i as int + 1);
            proof {
                assert(self@.peers[i as int] == self.peers@[i as int]@);
                assert forall|j: int| 0 <= j < i implies #[trigger] next[j] == seen[j] by {}
            }
            let mut pos: usize = 0;
            while pos < order.len() && self.peers[order[pos]].weight() >= weight
                invariant
                    pos <= order.len(),
                    i < self.peers.len(),
                    is_ranking(order@, seen),
                    seen == self@.peers.take(i as int),
                    forall|k: int|
                        0 <= k < pos ==> seen[#[trigger] order@[k] as int].weight >= weight,
                decreases order.len() - pos,
            {
                proof {
                    assert(order@[pos as int] < seen.len());
                    let at = order@[pos as int] as int;
                    assert(seen[at] == self.peers@[at]@);
                }
                pos = pos + 1;
            }
            proof {
                if pos < order.len() {
                    assert(order@[pos as int] < seen.len());
                    let at = order@[pos as int] as int;
                    assert(seen[at] == self.peers@[at]@);
                    assert forall|l: int| pos < l < order.len() implies seen[
                    #[trigger] order@[l] as int].weight < weight by {
                        assert(ranks_before(seen, order@[pos as int] as int, order@[l] as int));
                    }
                }
            }
            let ghost before = order@;
            order.insert(pos, i);
            proof {
                let after = order@;
                assert forall|k: int| 0 <= k < after.len() implies #[trigger] after[k]
                    < next.len() by {
                    if k < pos {
                        assert(after[k] == before[k]);
                    } else if k > pos {
                        assert(after[k] == before[k - 1]);
                    }
                }
                assert forall|k: int, l: int| 0 <= k < l < after.len() implies ranks_before(
                    next,
                    #[trigger] after[k] as int,
                    #[trigger] after[l] as int,
                ) by {
                    if l < pos {
                        assert(after[k] == before[k] && after[l] == before[l]);
                        assert(ranks_before(seen, before[k] as int, before[l] as int));
                    } else if l == pos {
                        assert(after[k] == before[k]);
                        assert(seen[before[k] as int].weight >= weight);
                    } else if k < pos {
                        assert(after[k] == before[k] && after[l] == before[l - 1]);
                        assert(ranks_before(seen, before[k] as int, before[l - 1] as int));
                    } else if k == pos {
                        assert(after[l] == before[l - 1]);
                        assert(seen[before[l - 1] as int].weight < weight);
                    } else {
                        assert(after[k] == before[k - 1] && after[l] == before[l - 1]);
                        assert(ranks_before(seen, before[k - 1] as int, before[l - 1] as int));
                    }
                }
            }
            i = i + 1;
        }
        proof {
            assert(self@.peers.take(self.peers.len() as int) == self@.peers);
        }
        order
    }

    /// Identifier, weight and quality of the `n` heaviest links, heaviest first, links of
    /// equal weight in the order of the registry; of all links if there are fewer than `n`.
    pub fn get_top_links(&self, n: usize) -> (links: Vec<(String, u32, u32)>)
        ensures
            links@.len() == top_count(self@.peers, n),
            forall|k: int, l: int|
                0 <= k < l < links@.len() ==> (#[trigger] links@[k]).1 >= (#[trigger] links@[l]).1,
            exists|order: Seq<usize>|
                is_ranking(order, self@.peers) && links_view(links@) == #[trigger] ranked_links(
                    self@.peers,
                    order,
                    n,
                ),
    {
        let order = self.ranking();
        let count: usize = if n <= order.len() {
            n
        } else {
            order.len()
        };
        let mut links: Vec<(String, u32, u32)> = Vec::new();
        let mut k: usize = 0;
        while k < count
            invariant
                k <= count,
                count == top_count(self@.peers, n),
                is_ranking(order@, self@.peers),
                links@.len() == k,
                forall|j: int|
                    0 <= j < k ==> links_view(links@)[j] == link_of(
                        self@.peers[#[trigger] order@[j] as int],
                    ),
            decreases count - k,
        {
            let ghost before = links@;
            assert(order@[k as int] < self@.peers.len());
            let p = &self.peers[order[k]];
            assert(self@.peers[order@[k as int] as int] == p@);
            links.push((p.id().clone(), p.weight(), p.health().quality()));
            proof {
                assert forall|j: int| 0 <= j < k + 1 implies links_view(links@)[j] == link_of(
                    self@.peers[#[trigger] order@[j] as int],
                ) by {
                    if j < k {
                        assert(links@[j] == before[j]);
                        assert(links_view(before)[j] == link_of(self@.peers[order@[j] as int]));
                    }
                }
            }
            k = k + 1;
        }
        proof {
            assert(links_view(links@) =~= ranked_links(self@.peers, order@, n));
            assert forall|a: int, b: int| 0 <= a < b < links@.len() implies (
            #[trigger] links@[a]).1 >= (#[trigger] links@[b]).1 by {
                assert(links_view(links@)[a] == link_of(self@.peers[order@[a] as int]));
                assert(links_view(links@)[b] == link_of(self@.peers[order@[b] as int]));
                assert(ranks_before(self@.peers, order@[a] as int, order@[b] as int));
            }
        }
        links
    }

    /// The loads of the peers heard of within the alive timeout before `now`.
    pub fn alive_loads_at(&self, now: i64) -> (loads: Vec<u32>)
        ensures
            loads@ == alive_loads(self@.peers, now as int),
    {
        let mut loads: Vec<u32> = Vec::new();
        let mut i: usize = 0;
        proof {
            reveal(Seq::filter);
            assert(loads@ =~= alive_loads(self@.peers.take(0), now as int));
        }
        while i < self.peers.len()
            invariant
                i <= self.peers.len(),
                loads@ == alive_loads(self@.peers.take(i as int), now as int),
            decreases self.peers.len() - i,
        {
            let p = &self.peers[i];
            proof {
                reveal(Seq::filter);
                assert(self@.peers[i as int] == p@);
                assert(self@.peers.take(i as int + 1).drop_last() == self@.peers.take(i as int));
                assert(self@.peers.take(i as int + 1).last() == p@);
            }
            if p.is_alive_at(now, PEER_ALIVE_TIMEOUT_MS) {
                loads.push(p.load());
                proof {
                    let kept = alive_peers(
                        self@.peers.take(i as int),
                        now as int,
                        PEER_ALIVE_TIMEOUT_MS as int,
                    );
                    assert(kept.push(p@).map_values(|p: PeerView| p.load) =~= kept.map_values(
                        |p: PeerView| p.load,
                    ).push(p@.load));
                }
            }
            i = i + 1;
        }
        proof {
            assert(self@.peers.take(self.peers.len() as int) == self@.peers);
        }
        loads
    }

    /// The link qualities of the peers heard of within the alive timeout before `now`.
    pub fn alive_qualities_at(&self, now: i64) -> (qualities: Vec<u32>)
        ensures
            qualities@ == alive_qualities(self@.peers, now as int),
    {
        let mut qualities: Vec<u32> = Vec::new();
        let mut i: usize = 0;
        proof {
            reveal(Seq::filter);
            assert(qualities@ =~= alive_qualities(self@.peers.take(0), now as int));
        }
        while i < self.peers.len()
            invariant
                i <= self.peers.len(),
                qualities@ == alive_qualities(self@.peers.take(i as int), now as int),
            decreases self.peers.len() - i,
        {
            let p = &self.peers[i];
            proof {
                reveal(Seq::filter);
                assert(self@.peers[i as int] == p@);
                assert(self@.peers.take(i as int + 1).drop_last() == self@.peers.take(i as int));
                assert(self@.peers.take(i as int + 1).last() == p@);
            }
            if p.is_alive_at(now, PEER_ALIVE_TIMEOUT_MS) {
                qualities.push(p.health().quality());
                proof {
                    let kept = alive_peers(
                        self@.peers.take(i as int),
                        now as int,
                        PEER_ALIVE_TIMEOUT_MS as int,
                    );
                    assert(kept.push(p@).map_values(|p: PeerView| p.health.quality)
                        =~= kept.map_values(|p: PeerView| p.health.quality).push(
                        p@.health.quality,
                    ));
                }
            }
            i = i + 1;
        }
        proof {
            assert(self@.peers.take(self.peers.len() as int) == self@.peers);
        }
        qualities
    }

    /// Every link whose weight is no longer the initial one, with its identifier, its
    /// weight and the distance of the weight from the initial one: what an observer of
    /// the network's activity takes note of.
    pub fn drifted_links(&self) -> (drifts: Vec<(String, u32, i64)>)
        ensures
            drifts_view(drifts@) == drifts_of(self@.peers),
    {
        let mut drifts: Vec<(String, u32, i64)> = Vec::new();
        let mut i: usize = 0;
        proof {
            reveal(Seq::filter);
            assert(drifts_view(drifts@) =~= drifts_of(self@.peers.take(0)));
        }
        while i < self.peers.len()
            invariant
                i <= self.peers.len(),
                drifts_view(drifts@) == drifts_of(self@.peers.take(i as int)),
            decreases self.peers.len() - i,
        {
            let p = &self.peers[i];
            let ghost before = drifts@;
            proof {
                reveal(Seq::filter);
                assert(self@.peers[i as int] == p@);
                assert(self@.peers.take(i as int + 1).drop_last() == self@.peers.take(i as int));
                assert(self@.peers.take(i as int + 1).last() == p@);
            }
            let weight: u32 = p.weight();
            if weight != WEIGHT_INITIAL {
                drifts.push((p.id().clone(), weight, weight as i64 - WEIGHT_INITIAL as i64));
                proof {
                    let kept = self@.peers.take(i as int).filter(|p: PeerView| has_drifted(p));
                    assert(drifts_view(before) == kept.map_values(
                        |p: PeerView| (p.id, p.weight, (p.weight - WEIGHT_INITIAL) as i64),
                    ));
                    assert(drifts_view(drifts@) =~= drifts_view(before).push(
                        (p@.id, p@.weight, (p@.weight - WEIGHT_INITIAL) as i64),
                    ));
                    assert(kept.push(p@).map_values(
                        |p: PeerView| (p.id, p.weight, (p.weight - WEIGHT_INITIAL) as i64),
                    ) =~= kept.map_values(
                        |p: PeerView| (p.id, p.weight, (p.weight - WEIGHT_INITIAL) as i64),
                    ).push((p@.id, p@.weight, (p@.weight - WEIGHT_INITIAL) as i64)));
                }
            }
            i = i + 1;
        }
        proof {
            assert(self@.peers.take(self.peers.len() as int) == self@.peers);
        }
        drifts
    }
}

} // verus!
