//! The registry of peers as a mathematical object: a sequence of records, no identifier
//! twice, read as a map from identifier to record. Here stand the changes that the node
//! makes to it, the questions that the node answers from it, and the laws that hold of
//! them.

use crate::message::{MeshMessage, MessageView};
use crate::peer::{PeerInfo, PeerView, PEER_ALIVE_TIMEOUT_MS, WEIGHT_INITIAL};
use vstd::prelude::*;

verus! {

/// Whether no two of the records bear the same identifier.
pub open spec fn distinct_ids(peers: Seq<PeerView>) -> bool {
    forall|i: int, j: int|
        0 <= i < j < peers.len() ==> (#[trigger] peers[i]).id != (#[trigger] peers[j]).id
}

/// Whether one of the records bears the identifier `id`.
pub open spec fn has_id(peers: Seq<PeerView>, id: Seq<char>) -> bool {
    exists|i: int| 0 <= i < peers.len() && (#[trigger] peers[i]).id == id
}

/// The records as a map from identifier to record. Where an identifier occurs more than
/// once, the map holds one of its records.
pub open spec fn by_id(peers: Seq<PeerView>) -> Map<Seq<char>, PeerView> {
    Map::new(
        |id: Seq<char>| has_id(peers, id),
        |id: Seq<char>|
            peers[choose|i: int| 0 <= i < peers.len() && (#[trigger] peers[i]).id == id],
    )
}

/// The records with the one that bears `id`, if there is one, changed by `change`, and
/// every other record as it was.
pub open spec fn changed_at(
    peers: Seq<PeerView>,
    id: Seq<char>,
    change: spec_fn(PeerView) -> PeerView,
) -> Seq<PeerView> {
    peers.map_values(
        |q: PeerView|
            if q.id == id {
                change(q)
            } else {
                q
            },
    )
}

/// The records with `p` put in: in the place of the record with its identifier, if there
/// is one, and else at the end.
pub open spec fn upserted(peers: Seq<PeerView>, p: PeerView) -> Seq<PeerView> {
    if has_id(peers, p.id) {
        peers.map_values(
            |q: PeerView|
                if q.id == p.id {
                    p
                } else {
                    q
                },
        )
    } else {
        peers.push(p)
    }
}

/// The records with the weight of the one that bears `id`, if there is one, set to `w`
/// brought within that record's bounds.
pub open spec fn with_link_weight(peers: Seq<PeerView>, id: Seq<char>, w: u32) -> Seq<PeerView> {
    changed_at(peers, id, |q: PeerView| q.with_weight(w))
}

/// The records after the weights of a list of identifiers and weights have been set, one
/// after the other, first to last.
pub open spec fn with_link_weights(peers: Seq<PeerView>, weights: Seq<(Seq<char>, u32)>) -> Seq<
    PeerView,
>
    decreases weights.len(),
{
    if weights.len() == 0 {
        peers
    } else {
        with_link_weight(
            with_link_weights(peers, weights.drop_last()),
            weights.last().0,
            weights.last().1,
        )
    }
}

/// The records of the peers heard of less than `timeout_ms` before `now`, in their order.
pub open spec fn alive_peers(peers: Seq<PeerView>, now: int, timeout_ms: int) -> Seq<PeerView> {
    peers.filter(|p: PeerView| p.alive_at(now, timeout_ms))
}

/// The loads of the peers heard of within the alive timeout before `now`, in the order of
/// the records.
pub open spec fn alive_loads(peers: Seq<PeerView>, now: int) -> Seq<u32> {
    alive_peers(peers, now, PEER_ALIVE_TIMEOUT_MS as int).map_values(|p: PeerView| p.load)
}

/// The link qualities of the peers heard of within the alive timeout before `now`, in the
/// order of the records.
pub open spec fn alive_qualities(peers: Seq<PeerView>, now: int) -> Seq<u32> {
    alive_peers(peers, now, PEER_ALIVE_TIMEOUT_MS as int).map_values(
        |p: PeerView| p.health.quality,
    )
}

/// Among no peers none is alive.
pub proof fn lemma_no_peers_none_alive(now: int)
    ensures
        alive_loads(Seq::<PeerView>::empty(), now) == Seq::<u32>::empty(),
        alive_qualities(Seq::<PeerView>::empty(), now) == Seq::<u32>::empty(),
{
    reveal(Seq::filter);
    assert(alive_loads(Seq::<PeerView>::empty(), now) =~= Seq::<u32>::empty());
    assert(alive_qualities(Seq::<PeerView>::empty(), now) =~= Seq::<u32>::empty());
}

/// Identifier, weight and quality of one link.
pub open spec fn link_of(p: PeerView) -> (Seq<char>, u32, u32) {
    (p.id, p.weight, p.health.quality)
}

/// Identifier, weight and quality of every link, in the order of the records.
pub open spec fn links_of(peers: Seq<PeerView>) -> Seq<(Seq<char>, u32, u32)> {
    peers.map_values(|p: PeerView| link_of(p))
}

/// Identifier and weight of every link, in the order of the records.
pub open spec fn weights_of(peers: Seq<PeerView>) -> Seq<(Seq<char>, u32)> {
    peers.map_values(|p: PeerView| (p.id, p.weight))
}

/// What a list of links holds, as plain values.
pub open spec fn links_view(links: Seq<(String, u32, u32)>) -> Seq<(Seq<char>, u32, u32)> {
    links.map_values(|l: (String, u32, u32)| (l.0@, l.1, l.2))
}

/// What a list of identifiers and weights holds, as plain values.
pub open spec fn weights_view(weights: Seq<(String, u32)>) -> Seq<(Seq<char>, u32)> {
    weights.map_values(|w: (String, u32)| (w.0@, w.1))
}

/// What a list of peer records holds, as plain values.
pub open spec fn peers_view(peers: Seq<PeerInfo>) -> Seq<PeerView> {
    peers.map_values(|p: PeerInfo| p@)
}

/// What a list of messages holds, as plain values.
pub open spec fn messages_view(messages: Seq<MeshMessage>) -> Seq<MessageView> {
    messages.map_values(|m: MeshMessage| m@)
}

/// The queue with `m` put at its end, where there is a queue.
pub open spec fn enqueued(outbox: Option<Seq<MessageView>>, m: MessageView) -> Option<
    Seq<MessageView>,
> {
    match outbox {
        Some(q) => Some(q.push(m)),
        None => None,
    }
}

/// The records after a heartbeat of the peer `id` was heard at `now`.
pub open spec fn heard_heartbeat(peers: Seq<PeerView>, id: Seq<char>, now: i64) -> Seq<PeerView> {
    changed_at(peers, id, |q: PeerView| q.after_heartbeat(now))
}

/// The records after a state report of the peer `id` was heard at `now`.
pub open spec fn heard_state(
    peers: Seq<PeerView>,
    id: Seq<char>,
    cells: usize,
    generation: u32,
    load: u32,
    now: i64,
) -> Seq<PeerView> {
    changed_at(peers, id, |q: PeerView| q.after_state(cells, generation, load, now))
}

/// The records after a fire of the peer `id`, stamped `ts_ms`, was heard: the time is
/// noted and the weight updated with window `window_ms`.
pub open spec fn heard_fire(peers: Seq<PeerView>, id: Seq<char>, ts_ms: i64, window_ms: i64) -> Seq<
    PeerView,
> {
    changed_at(
        peers,
        id,
        |q: PeerView|
            (PeerView { last_fire_remote: ts_ms, ..q }).after_hebbian_update(window_ms as int),
    )
}

/// The record of a peer whose link came up at `now`: connected, one success more.
pub open spec fn link_up(p: PeerView, now: i64) -> PeerView {
    PeerView { connected: true, ..p.after_success(now) }
}

/// The record of a peer whose link went down at `now`: not connected, one failure more.
pub open spec fn link_down(p: PeerView, now: i64) -> PeerView {
    PeerView { connected: false, ..p.after_failure(now) }
}

/// The records after the link to the peer `id` came up at `now`.
pub open spec fn with_link_up(peers: Seq<PeerView>, id: Seq<char>, now: i64) -> Seq<PeerView> {
    changed_at(peers, id, |q: PeerView| link_up(q, now))
}

/// The records after the link to the peer `id` went down at `now`.
pub open spec fn with_link_down(peers: Seq<PeerView>, id: Seq<char>, now: i64) -> Seq<PeerView> {
    changed_at(peers, id, |q: PeerView| link_down(q, now))
}

/// The records after something failed at `now` on the link to the peer `id`.
pub open spec fn with_link_failed(peers: Seq<PeerView>, id: Seq<char>, now: i64) -> Seq<PeerView> {
    changed_at(peers, id, |q: PeerView| q.after_failure(now))
}

/// The records after a failure at `now` was counted against every peer.
pub open spec fn all_failed(peers: Seq<PeerView>, now: i64) -> Seq<PeerView> {
    peers.map_values(|q: PeerView| q.after_failure(now))
}

/// The records after a fire of this node at `ts_ms` was noted with every peer.
pub open spec fn local_fire_noted(peers: Seq<PeerView>, ts_ms: i64) -> Seq<PeerView> {
    peers.map_values(|q: PeerView| PeerView { last_fire_local: ts_ms, ..q })
}

/// Whether a peer counts as connected but was not heard of for `timeout_ms` before `now`.
pub open spec fn is_stale(p: PeerView, now: int, timeout_ms: int) -> bool {
    p.connected && !p.alive_at(now, timeout_ms)
}

/// The records after every stale peer's link was marked as down.
pub open spec fn stale_marked(peers: Seq<PeerView>, now: i64, timeout_ms: i64) -> Seq<PeerView> {
    peers.map_values(
        |q: PeerView|
            if is_stale(q, now as int, timeout_ms as int) {
                link_down(q, now)
            } else {
                q
            },
    )
}

/// Whether one more success can be counted for the peer `id`: its counter of successes,
/// if the peer is known, is not full.
pub open spec fn has_room_for_success(peers: Seq<PeerView>, id: Seq<char>) -> bool {
    forall|i: int|
        0 <= i < peers.len() && (#[trigger] peers[i]).id == id ==> peers[i].health.successes
            < u32::MAX
}

/// Whether one more failure can be counted for the peer `id`: its counter of failures,
/// if the peer is known, is not full.
pub open spec fn has_room_for_failure(peers: Seq<PeerView>, id: Seq<char>) -> bool {
    forall|i: int|
        0 <= i < peers.len() && (#[trigger] peers[i]).id == id ==> peers[i].health.failures
            < u32::MAX
}

/// Whether one more failure can be counted for every peer.
pub open spec fn all_have_room_for_failure(peers: Seq<PeerView>) -> bool {
    forall|i: int| 0 <= i < peers.len() ==> (#[trigger] peers[i]).health.failures < u32::MAX
}

/// Whether one more failure can be counted for every peer that is stale at `now`.
pub open spec fn stale_have_room_for_failure(
    peers: Seq<PeerView>,
    now: int,
    timeout_ms: int,
) -> bool {
    forall|i: int|
        0 <= i < peers.len() && is_stale(#[trigger] peers[i], now, timeout_ms)
            ==> peers[i].health.failures < u32::MAX
}

/// Whether one more failure can be counted for every peer whose link counts as up, that
/// is for every peer that can be stale at any time.
pub open spec fn connected_have_room_for_failure(peers: Seq<PeerView>) -> bool {
    forall|i: int|
        0 <= i < peers.len() && (#[trigger] peers[i]).connected ==> peers[i].health.failures
            < u32::MAX
}

/// Whether the peer is to be dialed again: not connected, with a known address, and with
/// some quality left.
pub open spec fn needs_reconnect(p: PeerView) -> bool {
    !p.connected && p.url is Some && p.health.quality > 0
}

/// Identifier and address of every peer that is to be dialed again, in the order of the
/// records.
pub open spec fn reconnect_targets(peers: Seq<PeerView>) -> Seq<(Seq<char>, Seq<char>)> {
    peers.filter(|p: PeerView| needs_reconnect(p)).map_values(|p: PeerView| (p.id, p.url->0))
}

/// What a list of identifiers and addresses holds, as plain values.
pub open spec fn targets_view(targets: Seq<(String, String)>) -> Seq<(Seq<char>, Seq<char>)> {
    targets.map_values(|t: (String, String)| (t.0@, t.1@))
}

/// Whether messages can be routed to the peer at `now`: its link counts as up and it was
/// heard of within the alive timeout.
pub open spec fn is_routable(p: PeerView, now: int) -> bool {
    p.connected && p.alive_at(now, PEER_ALIVE_TIMEOUT_MS as int)
}

/// Whether the record at place `i` is the best to route to at `now`: it is routable, no
/// routable peer scores higher, and those after it score lower.
pub open spec fn is_best_peer(peers: Seq<PeerView>, i: int, intent_match: int, now: int) -> bool {
    &&& 0 <= i < peers.len()
    &&& is_routable(peers[i], now)
    &&& forall|j: int|
        0 <= j < peers.len() && is_routable(#[trigger] peers[j], now) ==> peers[j].score(
            intent_match,
        ) <= peers[i].score(intent_match)
    &&& forall|j: int|
        i < j < peers.len() && is_routable(#[trigger] peers[j], now) ==> peers[j].score(
            intent_match,
        ) < peers[i].score(intent_match)
}

/// Whether `pick` is the choice among `peers` at `now`: the identifier of the best peer
/// to route to, or `None` where no peer is routable.
pub open spec fn is_best_pick(
    peers: Seq<PeerView>,
    pick: Option<Seq<char>>,
    intent_match: int,
    now: int,
) -> bool {
    match pick {
        Some(id) => exists|i: int|
            #[trigger] is_best_peer(peers, i, intent_match, now) && peers[i].id == id,
        None => forall|j: int| 0 <= j < peers.len() ==> !is_routable(#[trigger] peers[j], now),
    }
}

/// What an identifier that may be missing holds, as plain values.
pub open spec fn optional_id_view(id: Option<String>) -> Option<Seq<char>> {
    match id {
        Some(s) => Some(s@),
        None => None,
    }
}

/// Whether the link at place `a` comes before the link at place `b` in the ranking: it is
/// heavier, or as heavy and earlier in the registry.
pub open spec fn ranks_before(peers: Seq<PeerView>, a: int, b: int) -> bool {
    peers[a].weight > peers[b].weight || (peers[a].weight == peers[b].weight && a < b)
}

/// Whether `order` lists the places of all records by descending weight, records of equal
/// weight in the order of the registry. There is exactly one such list.
pub open spec fn is_ranking(order: Seq<usize>, peers: Seq<PeerView>) -> bool {
    &&& order.len() == peers.len()
    &&& forall|k: int| 0 <= k < order.len() ==> #[trigger] order[k] < peers.len()
    &&& forall|k: int, l: int|
        0 <= k < l < order.len() ==> ranks_before(
            peers,
            #[trigger] order[k] as int,
            #[trigger] order[l] as int,
        )
}

/// The number of links that a ranking cut at `n` holds.
pub open spec fn top_count(peers: Seq<PeerView>, n: usize) -> nat {
    if n <= peers.len() {
        n as nat
    } else {
        peers.len()
    }
}

/// Identifier, weight and quality of the first `n` links in the order `order`, or of all
/// if there are fewer.
pub open spec fn ranked_links(peers: Seq<PeerView>, order: Seq<usize>, n: usize) -> Seq<
    (Seq<char>, u32, u32),
> {
    Seq::new(top_count(peers, n), |k: int| link_of(peers[order[k] as int]))
}

/// Whether the weight of the link is no longer the initial one.
pub open spec fn has_drifted(p: PeerView) -> bool {
    p.weight != WEIGHT_INITIAL
}

/// Identifier, weight and distance of the weight from the initial one, for every link
/// whose weight is no longer the initial one, in the order of the records.
pub open spec fn drifts_of(peers: Seq<PeerView>) -> Seq<(Seq<char>, u32, i64)> {
    peers.filter(|p: PeerView| has_drifted(p)).map_values(
        |p: PeerView| (p.id, p.weight, (p.weight - WEIGHT_INITIAL) as i64),
    )
}

/// What a list of drifts holds, as plain values.
pub open spec fn drifts_view(drifts: Seq<(String, u32, i64)>) -> Seq<(Seq<char>, u32, i64)> {
    drifts.map_values(|d: (String, u32, i64)| (d.0@, d.1, d.2))
}

/// A peer whose link has no quality left is not dialed again, and no further failure
/// changes that.
pub proof fn lemma_exhausted_peer_is_not_dialed(p: PeerView, now: i64)
    requires
        p.health.quality == 0,
    ensures
        !needs_reconnect(p),
        p.after_failure(now).health.quality == 0,
        !needs_reconnect(p.after_failure(now)),
        !needs_reconnect(link_down(p, now)),
{
}

/// Every peer that is dialed again is known, is not connected, has the address that is
/// dialed, and has some quality left.
pub proof fn lemma_targets_need_reconnect(peers: Seq<PeerView>, k: int)
    requires
        0 <= k < reconnect_targets(peers).len(),
    ensures
        exists|i: int|
            0 <= i < peers.len() && needs_reconnect(#[trigger] peers[i]) && reconnect_targets(
                peers,
            )[k] == (peers[i].id, peers[i].url->0),
    decreases peers.len(),
{
    reveal(Seq::filter);
    let kept = peers.filter(|p: PeerView| needs_reconnect(p));
    if peers.len() > 0 {
        let front = peers.drop_last();
        let front_kept = front.filter(|p: PeerView| needs_reconnect(p));
        if needs_reconnect(peers.last()) && k == front_kept.len() {
            assert(kept == front_kept.push(peers.last()));
            assert(peers[peers.len() - 1] == peers.last());
        } else {
            if needs_reconnect(peers.last()) {
                assert(kept == front_kept.push(peers.last()));
            } else {
                assert(kept == front_kept);
            }
            assert(reconnect_targets(peers)[k] == reconnect_targets(front)[k]);
            lemma_targets_need_reconnect(front, k);
            let i = choose|i: int|
                0 <= i < front.len() && needs_reconnect(#[trigger] front[i]) && reconnect_targets(
                    front,
                )[k] == (front[i].id, front[i].url->0);
            assert(peers[i] == front[i]);
        }
    }
}

/// Putting a record in keeps the identifiers distinct, makes its identifier known, and
/// takes no record of another identifier out.
pub proof fn lemma_upserted(peers: Seq<PeerView>, p: PeerView)
    requires
        distinct_ids(peers),
    ensures
        distinct_ids(upserted(peers, p)),
        has_id(upserted(peers, p), p.id),
        upserted(peers, p).len() >= peers.len(),
        forall|id: Seq<char>| has_id(peers, id) ==> has_id(upserted(peers, p), id),
{
    let after = upserted(peers, p);
    if has_id(peers, p.id) {
        let i = choose|i: int| 0 <= i < peers.len() && (#[trigger] peers[i]).id == p.id;
        assert(after[i].id == p.id);
        assert forall|a: int, b: int| 0 <= a < b < after.len() implies (#[trigger] after[a]).id != (
        #[trigger] after[b]).id by {
            assert(after[a].id == peers[a].id);
            assert(after[b].id == peers[b].id);
        }
        assert forall|id: Seq<char>| has_id(peers, id) implies has_id(after, id) by {
            let j = choose|j: int| 0 <= j < peers.len() && (#[trigger] peers[j]).id == id;
            assert(after[j].id == id);
        }
    } else {
        assert(after[peers.len() as int].id == p.id);
        assert forall|a: int, b: int| 0 <= a < b < after.len() implies (#[trigger] after[a]).id != (
        #[trigger] after[b]).id by {
            if b < peers.len() {
                assert(after[a] == peers[a] && after[b] == peers[b]);
            } else {
                assert(after[a] == peers[a]);
            }
        }
        assert forall|id: Seq<char>| has_id(peers, id) implies has_id(after, id) by {
            let j = choose|j: int| 0 <= j < peers.len() && (#[trigger] peers[j]).id == id;
            assert(after[j] == peers[j]);
        }
    }
}

/// A ranking cut at `n` holds `n` links, or all if there are fewer, and no link in it
/// is lighter than one after it.
pub proof fn lemma_ranked_links_descend(peers: Seq<PeerView>, order: Seq<usize>, n: usize)
    requires
        is_ranking(order, peers),
    ensures
        ranked_links(peers, order, n).len() == if n <= peers.len() {
            n as nat
        } else {
            peers.len()
        },
        forall|k: int, l: int|
            0 <= k < l < ranked_links(peers, order, n).len() ==> (#[trigger] ranked_links(
                peers,
                order,
                n,
            )[k]).1 >= (#[trigger] ranked_links(peers, order, n)[l]).1,
{
    let links = ranked_links(peers, order, n);
    assert forall|k: int, l: int| 0 <= k < l < links.len() implies (#[trigger] links[k]).1 >= (
    #[trigger] links[l]).1 by {
        assert(ranks_before(peers, order[k] as int, order[l] as int));
    }
}

/// Distinct places, as many as there are and each below their number, are all the places
/// below that number.
proof fn lemma_places_all_occur(s: Seq<usize>, x: usize)
    requires
        forall|k: int| 0 <= k < s.len() ==> #[trigger] s[k] < s.len(),
        forall|k: int, l: int| 0 <= k < l < s.len() ==> #[trigger] s[k] != #[trigger] s[l],
        x < s.len(),
    ensures
        exists|k: int| 0 <= k < s.len() && s[k] == x,
    decreases s.len(),
{
    let n = s.len() as int;
    let top = (n - 1) as usize;
    if exists|j: int| 0 <= j < n && s[j] == top {
        let j = choose|j: int| 0 <= j < n && s[j] == top;
        if x != top {
            let rest = s.remove(j);
            assert forall|k: int| 0 <= k < rest.len() implies #[trigger] rest[k] < rest.len() by {
                if k < j {
                    assert(rest[k] == s[k]);
                    assert(s[k] != s[j]);
                } else {
                    assert(rest[k] == s[k + 1]);
                    assert(s[j] != s[k + 1]);
                }
            }
            assert forall|k: int, l: int| 0 <= k < l < rest.len() implies #[trigger] rest[k]
                != #[trigger] rest[l] by {
                let from_k = if k < j {
                    k
                } else {
                    k + 1
                };
                let from_l = if l < j {
                    l
                } else {
                    l + 1
                };
                assert(rest[k] == s[from_k]);
                assert(rest[l] == s[from_l]);
                assert(s[from_k] != s[from_l]);
            }
            lemma_places_all_occur(rest, x);
            let k = choose|k: int| 0 <= k < rest.len() && rest[k] == x;
            if k < j {
                assert(s[k] == x);
            } else {
                assert(s[k + 1] == x);
            }
        }
    } else {
        if n == 1 {
            assert(s[0] == top);
        } else {
            let front = s.drop_last();
            assert forall|k: int| 0 <= k < front.len() implies #[trigger] front[k]
                < front.len() by {
                assert(front[k] == s[k]);
            }
            assert forall|k: int, l: int| 0 <= k < l < front.len() implies #[trigger] front[k]
                != #[trigger] front[l] by {
                assert(front[k] == s[k] && front[l] == s[l]);
                assert(s[k] != s[l]);
            }
            let last = s[n - 1];
            lemma_places_all_occur(front, last);
            let k = choose|k: int| 0 <= k < front.len() && front[k] == last;
            assert(front[k] == s[k]);
            assert(s[k] != s[n - 1]);
        }
    }
}

/// Where two rankings of the same records agree before place `i`, the record that the
/// first has at `i` does not rank before the one that the second has there.
proof fn lemma_rankings_cannot_part(peers: Seq<PeerView>, a: Seq<usize>, b: Seq<usize>, i: int)
    requires
        is_ranking(a, peers),
        is_ranking(b, peers),
        0 <= i < a.len(),
        forall|j: int| 0 <= j < i ==> a[j] == b[j],
    ensures
        !ranks_before(peers, a[i] as int, b[i] as int),
{
    if ranks_before(peers, a[i] as int, b[i] as int) {
        assert forall|k: int, l: int| 0 <= k < l < b.len() implies #[trigger] b[k]
            != #[trigger] b[l] by {
            assert(ranks_before(peers, b[k] as int, b[l] as int));
        }
        lemma_places_all_occur(b, a[i]);
        let k = choose|k: int| 0 <= k < b.len() && b[k] == a[i];
        if k < i {
            assert(a[k] == b[k]);
            assert(ranks_before(peers, a[k] as int, a[i] as int));
        } else if k > i {
            assert(ranks_before(peers, b[i] as int, b[k] as int));
        }
    }
}

/// Two rankings of the same records agree in their first `k` places.
proof fn lemma_rankings_agree(peers: Seq<PeerView>, a: Seq<usize>, b: Seq<usize>, k: int)
    requires
        is_ranking(a, peers),
        is_ranking(b, peers),
        0 <= k <= a.len(),
    ensures
        forall|j: int| 0 <= j < k ==> a[j] == b[j],
    decreases k,
{
    if k > 0 {
        lemma_rankings_agree(peers, a, b, k - 1);
        let i = k - 1;
        assert(a[i] < peers.len() && b[i] < peers.len());
        lemma_rankings_cannot_part(peers, a, b, i);
        lemma_rankings_cannot_part(peers, b, a, i);
    }
}

/// There is one ranking of given records and no other: the order of the heaviest links
/// is fixed by the weights and the order of the registry.
pub proof fn lemma_ranking_is_unique(peers: Seq<PeerView>, a: Seq<usize>, b: Seq<usize>, n: usize)
    requires
        is_ranking(a, peers),
        is_ranking(b, peers),
    ensures
        a == b,
        ranked_links(peers, a, n) == ranked_links(peers, b, n),
{
    lemma_rankings_agree(peers, a, b, a.len() as int);
    assert(a =~= b);
}

/// Of given records at most one is the best to route to.
pub proof fn lemma_best_peer_is_unique(
    peers: Seq<PeerView>,
    i: int,
    j: int,
    intent_match: int,
    now: int,
)
    requires
        is_best_peer(peers, i, intent_match, now),
        is_best_peer(peers, j, intent_match, now),
    ensures
        i == j,
{
    if i < j {
        assert(is_routable(peers[j], now));
        assert(is_routable(peers[i], now));
    } else if j < i {
        assert(is_routable(peers[i], now));
        assert(is_routable(peers[j], now));
    }
}

/// Among records of distinct identifiers, the map holds under each identifier the record
/// that bears it.
pub proof fn lemma_by_id_holds_each(peers: Seq<PeerView>, i: int)
    requires
        distinct_ids(peers),
        0 <= i < peers.len(),
    ensures
        by_id(peers).dom().contains(peers[i].id),
        by_id(peers)[peers[i].id] == peers[i],
{
    let id = peers[i].id;
    assert(has_id(peers, id));
    let j = choose|j: int| 0 <= j < peers.len() && (#[trigger] peers[j]).id == id;
    if j < i {
        assert(peers[j].id != peers[i].id);
    } else if i < j {
        assert(peers[i].id != peers[j].id);
    }
}

/// Putting a record in is an insertion into the map from identifier to record: the
/// record stands under its identifier, in the place of what stood there, and every other
/// identifier keeps its record.
pub proof fn lemma_upserted_is_insert(peers: Seq<PeerView>, p: PeerView)
    requires
        distinct_ids(peers),
    ensures
        by_id(upserted(peers, p)) == by_id(peers).insert(p.id, p),
{
    let after = upserted(peers, p);
    let want = by_id(peers).insert(p.id, p);
    lemma_upserted(peers, p);
    assert forall|id: Seq<char>| by_id(after).dom().contains(id) <==> want.dom().contains(
        id,
    ) by {
        if has_id(after, id) && id != p.id {
            let j = choose|j: int| 0 <= j < after.len() && (#[trigger] after[j]).id == id;
            if has_id(peers, p.id) {
                assert(after[j] == peers[j]);
            } else {
                assert(j < peers.len());
                assert(after[j] == peers[j]);
            }
            assert(has_id(peers, id));
        }
    }
    assert forall|id: Seq<char>| by_id(after).dom().contains(id) implies by_id(after)[id]
        == want[id] by {
        let j = choose|j: int| 0 <= j < after.len() && (#[trigger] after[j]).id == id;
        lemma_by_id_holds_each(after, j);
        if id != p.id {
            if has_id(peers, p.id) {
                assert(after[j] == peers[j]);
            } else {
                assert(j < peers.len());
                assert(after[j] == peers[j]);
            }
            lemma_by_id_holds_each(peers, j);
        } else {
            if has_id(peers, p.id) {
                assert(after[j] == p);
            } else {
                if j < peers.len() {
                    assert(after[j] == peers[j]);
                    assert(has_id(peers, p.id));
                }
                assert(after[j] == p);
            }
        }
    }
    assert(by_id(after) =~= want);
}

/// Changing the record of one identifier is an update of the map from identifier to
/// record at that identifier, where the change keeps the identifier: the changed record
/// stands where the record stood, every other identifier keeps its record, and an
/// identifier that is not known changes nothing.
pub proof fn lemma_changed_at_is_update(
    peers: Seq<PeerView>,
    id: Seq<char>,
    change: spec_fn(PeerView) -> PeerView,
)
    requires
        distinct_ids(peers),
        forall|q: PeerView| (#[trigger] change(q)).id == q.id,
    ensures
        distinct_ids(changed_at(peers, id, change)),
        changed_at(peers, id, change).len() == peers.len(),
        by_id(changed_at(peers, id, change)) == if has_id(peers, id) {
            by_id(peers).insert(id, change(by_id(peers)[id]))
        } else {
            by_id(peers)
        },
{
    let after = changed_at(peers, id, change);
    let want = if has_id(peers, id) {
        by_id(peers).insert(id, change(by_id(peers)[id]))
    } else {
        by_id(peers)
    };
    assert forall|a: int| 0 <= a < after.len() implies (#[trigger] after[a]).id == peers[a].id by {}
    assert forall|a: int, b: int| 0 <= a < b < after.len() implies (#[trigger] after[a]).id != (
    #[trigger] after[b]).id by {
        assert(after[a].id == peers[a].id);
        assert(after[b].id == peers[b].id);
    }
    assert forall|k: Seq<char>| has_id(after, k) <==> has_id(peers, k) by {
        if has_id(after, k) {
            let j = choose|j: int| 0 <= j < after.len() && (#[trigger] after[j]).id == k;
            assert(peers[j].id == k);
        }
        if has_id(peers, k) {
            let j = choose|j: int| 0 <= j < peers.len() && (#[trigger] peers[j]).id == k;
            assert(after[j].id == k);
        }
    }
    assert forall|k: Seq<char>| by_id(after).dom().contains(k) implies by_id(after)[k]
        == want[k] by {
        let j = choose|j: int| 0 <= j < after.len() && (#[trigger] after[j]).id == k;
        lemma_by_id_holds_each(after, j);
        assert(peers[j].id == k);
        lemma_by_id_holds_each(peers, j);
    }
    assert(by_id(after) =~= want);
}

/// Marking stale peers counts each lapse once: a sweep at the same time right after
/// another changes nothing more.
pub proof fn lemma_stale_marking_counts_once(peers: Seq<PeerView>, now: i64, timeout_ms: i64)
    ensures
        stale_marked(stale_marked(peers, now, timeout_ms), now, timeout_ms) == stale_marked(
            peers,
            now,
            timeout_ms,
        ),
{
    let once = stale_marked(peers, now, timeout_ms);
    assert forall|i: int| 0 <= i < once.len() implies !is_stale(
        #[trigger] once[i],
        now as int,
        timeout_ms as int,
    ) by {
        assert(once[i] == if is_stale(peers[i], now as int, timeout_ms as int) {
            link_down(peers[i], now)
        } else {
            peers[i]
        });
    }
    assert(stale_marked(once, now, timeout_ms) =~= once);
}

/// While no counter of any record is full, there is room to count a success or a
/// failure for any peer, for all peers and for the stale ones.
pub proof fn lemma_room_for_every_count(
    peers: Seq<PeerView>,
    id: Seq<char>,
    now: int,
    timeout_ms: int,
)
    requires
        forall|i: int|
            0 <= i < peers.len() ==> {
                &&& (#[trigger] peers[i]).health.successes < u32::MAX
                &&& peers[i].health.failures < u32::MAX
            },
    ensures
        has_room_for_success(peers, id),
        has_room_for_failure(peers, id),
        all_have_room_for_failure(peers),
        connected_have_room_for_failure(peers),
        stale_have_room_for_failure(peers, now, timeout_ms),
{
}

} // verus!
