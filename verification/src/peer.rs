//! One record per known peer: identity, liveness, mirrored remote metrics, link health and
//! the adaptive link weight with its learning rule.
//!
//! Weights, rates and loads are in millionths (see [`crate::units::UNIT`]); times are
//! milliseconds of the wall clock.

use crate::clock::now_millis;
use crate::health::{ConnectionHealth, HealthView};
use crate::units::{clamp_int, lemma_scaled_shrinks, scale, scaled, UNIT};
use vstd::prelude::*;

verus! {

/// Weight of a new link, in millionths.
pub const WEIGHT_INITIAL: u32 = 300_000;

/// Lower bound of a new link's weight, in millionths.
pub const WEIGHT_MIN: u32 = 100_000;

/// Upper bound of a new link's weight, in millionths.
pub const WEIGHT_MAX: u32 = 1_000_000;

/// Learning rate of a new link when fires coincide, in millionths.
pub const ETA_POSITIVE: u32 = 60_000;

/// Learning rate of a new link when fires do not coincide, in millionths.
pub const ETA_NEGATIVE: u32 = 30_000;

/// Forgetting rate of a new link, in millionths per second.
pub const DECAY_RATE: u32 = 2_000;

/// The window within which a local and a remote fire count as coincident, in milliseconds.
pub const HEBBIAN_FIRE_WINDOW_MS: i64 = 120;

/// A peer not heard of for this long is no longer alive, in milliseconds.
pub const PEER_ALIVE_TIMEOUT_MS: i64 = 15_000;

/// The highest weight that a coincident fire still raises, for a link with the initial
/// rates and bounds and the standard window.
pub const COFIRE_GAIN_LIMIT: u32 = 996_223;

/// The factor, in millionths, by which a weight is kept over `window_ms` milliseconds of
/// forgetting at rate `decay`: one whole less `decay` times the seconds, within zero and
/// one whole.
pub open spec fn decay_factor(decay: int, window_ms: int) -> int {
    clamp_int(UNIT - decay * window_ms / 1000, 0, UNIT as int)
}

/// What a peer record holds, as plain values.
pub struct PeerView {
    pub id: Seq<char>,
    /// When the peer was last heard of.
    pub last_seen: i64,
    pub cells: usize,
    pub generation: u32,
    /// The peer's load in millionths, as it last reported it.
    pub load: u32,
    pub health: HealthView,
    /// Where to dial the peer; set only for a peer registered for reconnection.
    pub url: Option<Seq<char>>,
    pub connected: bool,
    pub weight: u32,
    pub w_min: u32,
    pub w_max: u32,
    pub eta_pos: u32,
    pub eta_neg: u32,
    pub decay: u32,
    /// Time of this node's last fire, zero for never.
    pub last_fire_local: i64,
    /// Time of the peer's last fire, zero for never.
    pub last_fire_remote: i64,
}

impl PeerView {
    /// The weight lies within its bounds, neither learning rate exceeds one whole, and
    /// the health record is well formed.
    pub open spec fn wf(self) -> bool {
        &&& self.health.wf()
        &&& self.w_min <= self.weight <= self.w_max
        &&& self.eta_pos <= UNIT
        &&& self.eta_neg <= UNIT
    }

    /// The record with the initial weight, bounds and rates, nothing mirrored, never
    /// fired, and a fresh health record.
    pub open spec fn initial(
        id: Seq<char>,
        url: Option<Seq<char>>,
        connected: bool,
        now: i64,
    ) -> PeerView {
        PeerView {
            id,
            last_seen: now,
            cells: 0,
            generation: 0,
            load: 0,
            health: HealthView::fresh(now),
            url,
            connected,
            weight: WEIGHT_INITIAL,
            w_min: WEIGHT_MIN,
            w_max: WEIGHT_MAX,
            eta_pos: ETA_POSITIVE,
            eta_neg: ETA_NEGATIVE,
            decay: DECAY_RATE,
            last_fire_local: 0,
            last_fire_remote: 0,
        }
    }

    /// The record of a peer first heard of at `now`: connected, with no address.
    pub open spec fn fresh(id: Seq<char>, now: i64) -> PeerView {
        PeerView::initial(id, None, true, now)
    }

    /// The record of a peer registered at `now` for reconnection at `url`: not connected.
    pub open spec fn registered(id: Seq<char>, url: Seq<char>, now: i64) -> PeerView {
        PeerView::initial(id, Some(url), false, now)
    }

    /// The bounds and rates are the initial ones.
    pub open spec fn has_initial_rates(self) -> bool {
        &&& self.w_min == WEIGHT_MIN
        &&& self.w_max == WEIGHT_MAX
        &&& self.eta_pos == ETA_POSITIVE
        &&& self.eta_neg == ETA_NEGATIVE
        &&& self.decay == DECAY_RATE
    }

    /// The peer was heard of less than `timeout_ms` before `now`.
    pub open spec fn alive_at(self, now: int, timeout_ms: int) -> bool {
        now - self.last_seen < timeout_ms
    }

    /// Both this node and the peer have fired at some time.
    pub open spec fn both_fired(self) -> bool {
        self.last_fire_local > 0 && self.last_fire_remote > 0
    }

    /// Both have fired, at most `window_ms` apart.
    pub open spec fn cofired(self, window_ms: int) -> bool {
        &&& self.both_fired()
        &&& self.last_fire_local - self.last_fire_remote <= window_ms
        &&& self.last_fire_remote - self.last_fire_local <= window_ms
    }

    /// The weight after forgetting over `window_ms`.
    pub open spec fn decayed_weight(self, window_ms: int) -> int {
        scaled(self.weight as int, decay_factor(self.decay as int, window_ms))
    }

    /// The weight after one update with window `window_ms`: forgetting first; then, if
    /// both have fired, a step of `eta_pos` of the way to `w_max` when the fires coincide
    /// and a step of `eta_neg` of the way to `w_min` when they do not; at last the bounds.
    pub open spec fn weight_after_update(self, window_ms: int) -> int {
        let decayed = self.decayed_weight(window_ms);
        let learned = if !self.both_fired() {
            decayed
        } else if self.cofired(window_ms) {
            decayed + scaled(self.eta_pos as int, self.w_max - decayed)
        } else {
            decayed - scaled(self.eta_neg as int, decayed - self.w_min)
        };
        clamp_int(learned, self.w_min as int, self.w_max as int)
    }

    /// The record after one update of the weight.
    pub open spec fn after_hebbian_update(self, window_ms: int) -> PeerView {
        PeerView { weight: self.weight_after_update(window_ms) as u32, ..self }
    }

    /// The record after a heartbeat heard at `now`.
    pub open spec fn after_heartbeat(self, now: i64) -> PeerView {
        PeerView { last_seen: now, health: self.health.after_success(now), ..self }
    }

    /// The record after a state report heard at `now`.
    pub open spec fn after_state(
        self,
        cells: usize,
        generation: u32,
        load: u32,
        now: i64,
    ) -> PeerView {
        PeerView {
            cells,
            generation,
            load,
            last_seen: now,
            health: self.health.after_success(now),
            ..self
        }
    }

    /// The record after the link worked at `now`.
    pub open spec fn after_success(self, now: i64) -> PeerView {
        PeerView { health: self.health.after_success(now), ..self }
    }

    /// The record after the link failed at `now`.
    pub open spec fn after_failure(self, now: i64) -> PeerView {
        PeerView { health: self.health.after_failure(now), ..self }
    }

    /// The record with its weight set to `w`, brought within the bounds.
    pub open spec fn with_weight(self, w: u32) -> PeerView {
        PeerView {
            weight: clamp_int(w as int, self.w_min as int, self.w_max as int) as u32,
            ..self
        }
    }

    /// Weight times quality times `intent_match`, each in millionths.
    pub open spec fn score(self, intent_match: int) -> int {
        self.weight * self.health.quality * intent_match
    }

    /// The record after a run of weight updates, applied first to last; before each
    /// update the fire times are set to those of the step.
    pub open spec fn after_updates(self, steps: Seq<FireStep>) -> PeerView
        decreases steps.len(),
    {
        if steps.len() == 0 {
            self
        } else {
            let before = self.after_updates(steps.drop_last());
            let step = steps.last();
            (PeerView {
                last_fire_local: step.local,
                last_fire_remote: step.remote,
                ..before
            }).after_hebbian_update(step.window_ms as int)
        }
    }
}

/// The fire times and the window of one weight update.
pub struct FireStep {
    pub local: i64,
    pub remote: i64,
    pub window_ms: i64,
}

/// The state of one known peer.
#[derive(Debug)]
pub struct PeerInfo {
    id: String,
    last_seen: i64,
    cells: usize,
    generation: u32,
    load: u32,
    health: ConnectionHealth,
    url: Option<String>,
    connected: bool,
    weight: u32,
    w_min: u32,
    w_max: u32,
    eta_pos: u32,
    eta_neg: u32,
    decay: u32,
    last_fire_local: i64,
    last_fire_remote: i64,
}

impl View for PeerInfo {
    type V = PeerView;

    closed spec fn view(&self) -> PeerView {
        PeerView {
            id: self.id@,
            last_seen: self.last_seen,
            cells: self.cells,
            generation: self.generation,
            load: self.load,
            health: self.health@,
            url: match self.url {
                Some(u) => Some(u@),
                None => None,
            },
            connected: self.connected,
            weight: self.weight,
            w_min: self.w_min,
            w_max: self.w_max,
            eta_pos: self.eta_pos,
            eta_neg: self.eta_neg,
            decay: self.decay,
            last_fire_local: self.last_fire_local,
            last_fire_remote: self.last_fire_remote,
        }
    }
}

impl Clone for PeerInfo {
    fn clone(&self) -> (r: Self)
        ensures
            r@ == self@,
    {
        proof {
            use_type_invariant(self);
        }
        PeerInfo {
            id: self.id.clone(),
            last_seen: self.last_seen,
            cells: self.cells,
            generation: self.generation,
            load: self.load,
            health: self.health.clone(),
            url: match &self.url {
                Some(u) => Some(u.clone()),
                None => None,
            },
            connected: self.connected,
            weight: self.weight,
            w_min: self.w_min,
            w_max: self.w_max,
            eta_pos: self.eta_pos,
            eta_neg: self.eta_neg,
            decay: self.decay,
            last_fire_local: self.last_fire_local,
            last_fire_remote: self.last_fire_remote,
        }
    }
}

/// Computes `decay_factor(decay, window_ms)`.
fn decay_factor_of(decay: u32, window_ms: i64) -> (f: u32)
    ensures
        f == decay_factor(decay as int, window_ms as int),
        f <= UNIT,
{
    if window_ms <= 0 {
        assert(decay * window_ms <= 0) by (nonlinear_arith)
            requires
                decay >= 0,
                window_ms <= 0,
        ;
        return UNIT;
    }
    assert(0 <= decay * window_ms <= 0xFFFF_FFFF * 0x7FFF_FFFF_FFFF_FFFF) by (nonlinear_arith)
        requires
            0 <= decay <= 0xFFFF_FFFF,
            0 < window_ms <= 0x7FFF_FFFF_FFFF_FFFF,
    ;
    let loss: u128 = decay as u128 * window_ms as u128 / 1000;
    if loss >= 1_000_000 {
        0
    } else {
        UNIT - loss as u32
    }
}

impl PeerInfo {
    #[verifier::type_invariant]
    spec fn inv(self) -> bool {
        self@.wf()
    }

    fn initial(id: String, url: Option<String>, connected: bool, now: i64) -> (p: Self)
        ensures
            p@ == PeerView::initial(
                id@,
                match url {
                    Some(u) => Some(u@),
                    None => None,
                },
                connected,
                now,
            ),
    {
        PeerInfo {
            id,
            last_seen: now,
            cells: 0,
            generation: 0,
            load: 0,
            health: ConnectionHealth::new_at(now),
            url,
            connected,
            weight: WEIGHT_INITIAL,
            w_min: WEIGHT_MIN,
            w_max: WEIGHT_MAX,
            eta_pos: ETA_POSITIVE,
            eta_neg: ETA_NEGATIVE,
            decay: DECAY_RATE,
            last_fire_local: 0,
            last_fire_remote: 0,
        }
    }

    /// The record of a peer first heard of at `now`.
    pub fn new_at(id: String, now: i64) -> (p: Self)
        ensures
            p@ == PeerView::fresh(id@, now),
            p@.wf(),
    {
        Self::initial(id, None, true, now)
    }

    /// The record of a peer first heard of at the present time.
    pub fn new(id: String) -> (p: Self)
        ensures
            exists|now: i64| p@ == PeerView::fresh(id@, now),
            p@.wf(),
    {
        let now: i64 = now_millis();
        Self::new_at(id, now)
    }

    /// The record of a peer registered at `now` for reconnection at `url`.
    pub fn with_url_at(id: String, url: String, now: i64) -> (p: Self)
        ensures
            p@ == PeerView::registered(id@, url@, now),
            p@.wf(),
    {
        Self::initial(id, Some(url), false, now)
    }

    /// The record of a peer registered at the present time for reconnection at `url`.
    pub fn with_url(id: String, url: String) -> (p: Self)
        ensures
            exists|now: i64| p@ == PeerView::registered(id@, url@, now),
            p@.wf(),
    {
        let now: i64 = now_millis();
        Self::with_url_at(id, url, now)
    }

    /// Notes a heartbeat heard at `now`: the peer was seen, and the link worked.
    pub fn update_heartbeat_at(&mut self, now: i64)
        requires
            old(self)@.health.successes < u32::MAX,
        ensures
            final(self)@ == old(self)@.after_heartbeat(now),
            final(self)@.wf(),
    {
        proof {
            use_type_invariant(&*self);
        }
        self.last_seen = now;
        self.record_success_at(now);
    }

    /// Notes a heartbeat heard at the present time.
    pub fn update_heartbeat(&mut self)
        requires
            old(self)@.health.successes < u32::MAX,
        ensures
            exists|now: i64| final(self)@ == old(self)@.after_heartbeat(now),
            final(self)@.wf(),
    {
        let now: i64 = now_millis();
        self.update_heartbeat_at(now);
    }

    /// Mirrors a state report heard at `now`: the peer was seen, and the link worked.
    pub fn update_state_at(&mut self, cells: usize, generation: u32, load: u32, now: i64)
        requires
            old(self)@.health.successes < u32::MAX,
        ensures
            final(self)@ == old(self)@.after_state(cells, generation, load, now),
            final(self)@.wf(),
    {
        proof {
            use_type_invariant(&*self);
        }
        self.cells = cells;
        self.generation = generation;
        self.load = load;
        self.last_seen = now;
        self.record_success_at(now);
    }

    /// Mirrors a state report heard at the present time.
    pub fn update_state(&mut self, cells: usize, generation: u32, load: u32)
        requires
            old(self)@.health.successes < u32::MAX,
        ensures
            exists|now: i64| final(self)@ == old(self)@.after_state(cells, generation, load, now),
            final(self)@.wf(),
    {
        let now: i64 = now_millis();
        self.update_state_at(cells, generation, load, now);
    }

    /// Notes that the link worked at `now`, without the peer having been heard.
    pub fn record_success_at(&mut self, now: i64)
        requires
            old(self)@.health.successes < u32::MAX,
        ensures
            final(self)@ == old(self)@.after_success(now),
            final(self)@.wf(),
    {
        proof {
            use_type_invariant(&*self);
        }
        // The health record is changed on a copy and put back whole: a record that keeps
        // an invariant lends out no part of itself for changing.
        let mut health = self.health.clone();
        health.record_success_at(now);
        self.health = health;
    }

    /// Notes that the link failed at `now`.
    pub fn record_failure_at(&mut self, now: i64)
        requires
            old(self)@.health.failures < u32::MAX,
        ensures
            final(self)@ == old(self)@.after_failure(now),
            final(self)@.wf(),
    {
        proof {
            use_type_invariant(&*self);
        }
        let mut health = self.health.clone();
        health.record_failure_at(now);
        self.health = health;
    }

    /// Notes that the link failed at the present time.
    pub fn record_failure(&mut self)
        requires
            old(self)@.health.failures < u32::MAX,
        ensures
            exists|now: i64| final(self)@ == old(self)@.after_failure(now),
            final(self)@.wf(),
    {
        let now: i64 = now_millis();
        self.record_failure_at(now);
    }

    /// Marks the link as up or down.
    pub fn set_connected(&mut self, connected: bool)
        ensures
            final(self)@ == (PeerView { connected, ..old(self)@ }),
            final(self)@.wf(),
    {
        proof {
            use_type_invariant(&*self);
        }
        self.connected = connected;
    }

    /// Whether the peer was heard of less than `timeout_ms` before `now`.
    pub fn is_alive_at(&self, now: i64, timeout_ms: i64) -> (b: bool)
        ensures
            b == self@.alive_at(now as int, timeout_ms as int),
    {
        (now as i128) - (self.last_seen as i128) < timeout_ms as i128
    }

    /// Whether the peer was heard of less than `timeout_ms` before the present time.
    pub fn is_alive(&self, timeout_ms: i64) -> (b: bool)
        ensures
            exists|now: i64| b == self@.alive_at(now as int, timeout_ms as int),
    {
        let now: i64 = now_millis();
        let b = self.is_alive_at(now, timeout_ms);
        assert(b == self@.alive_at(now as int, timeout_ms as int));
        b
    }

    /// Records the time of a fire of this node.
    pub fn note_fire_local(&mut self, ts_ms: i64)
        ensures
            final(self)@ == (PeerView { last_fire_local: ts_ms, ..old(self)@ }),
            final(self)@.wf(),
    {
        proof {
            use_type_invariant(&*self);
        }
        self.last_fire_local = ts_ms;
    }

    /// Records the time of a fire of the peer.
    pub fn note_fire_remote(&mut self, ts_ms: i64)
        ensures
            final(self)@ == (PeerView { last_fire_remote: ts_ms, ..old(self)@ }),
            final(self)@.wf(),
    {
        proof {
            use_type_invariant(&*self);
        }
        self.last_fire_remote = ts_ms;
    }

    /// Updates the weight by the learning rule with window `window_ms`; see
    /// [`PeerView::weight_after_update`]. The weight stays within its bounds.
    pub fn hebbian_update(&mut self, window_ms: i64)
        ensures
            final(self)@ == old(self)@.after_hebbian_update(window_ms as int),
            final(self)@.wf(),
            old(self)@.w_min <= final(self)@.weight <= old(self)@.w_max,
    {
        proof {
            use_type_invariant(&*self);
        }
        let factor: u32 = decay_factor_of(self.decay, window_ms);
        let decayed: u64 = scale(self.weight, factor);
        proof {
            lemma_scaled_shrinks(self.weight as int, factor as int);
        }
        let mut learned: u64 = decayed;
        if self.last_fire_local > 0 && self.last_fire_remote > 0 {
            let gap: i128 = self.last_fire_local as i128 - self.last_fire_remote as i128;
            let window: i128 = window_ms as i128;
            if gap <= window && -gap <= window {
                let room: u32 = self.w_max - decayed as u32;
                proof {
                    lemma_scaled_shrinks(room as int, self.eta_pos as int);
                    assert(scaled(self.eta_pos as int, room as int) == scaled(
                        room as int,
                        self.eta_pos as int,
                    )) by (nonlinear_arith);
                }
                learned = decayed + scale(self.eta_pos, room);
            } else if decayed >= self.w_min as u64 {
                let excess: u32 = decayed as u32 - self.w_min;
                proof {
                    lemma_scaled_shrinks(excess as int, self.eta_neg as int);
                    assert(scaled(self.eta_neg as int, excess as int) == scaled(
                        excess as int,
                        self.eta_neg as int,
                    )) by (nonlinear_arith);
                }
                learned = decayed - scale(self.eta_neg, excess);
            } else {
                proof {
                    let excess = decayed as int - self.w_min as int;
                    lemma_scaled_shrinks(excess, self.eta_neg as int);
                    assert(scaled(self.eta_neg as int, excess) == scaled(
                        excess,
                        self.eta_neg as int,
                    )) by (nonlinear_arith);
                }
                learned = self.w_min as u64;
            }
        }
        self.weight = if learned < self.w_min as u64 {
            self.w_min
        } else if learned > self.w_max as u64 {
            self.w_max
        } else {
            learned as u32
        };
    }

    /// The routing score of the link for a task that fits it to the degree
    /// `intent_match`: weight times quality times `intent_match`, each in millionths.
    pub fn score(&self, intent_match: u32) -> (s: u128)
        ensures
            s == self@.score(intent_match as int),
            s == self@.weight * self@.health.quality * intent_match,
    {
        let quality: u32 = self.health.quality();
        assert(self.weight * quality <= 0xFFFF_FFFF * 0xFFFF_FFFF) by (nonlinear_arith)
            requires
                self.weight <= 0xFFFF_FFFF,
                quality <= 0xFFFF_FFFF,
        ;
        let link: u128 = self.weight as u128 * quality as u128;
        assert(link * intent_match <= 0xFFFF_FFFF * 0xFFFF_FFFF * 0xFFFF_FFFF) by (nonlinear_arith)
            requires
                0 <= link <= 0xFFFF_FFFF * 0xFFFF_FFFF,
                intent_match <= 0xFFFF_FFFF,
        ;
        link * intent_match as u128
    }

    /// The identifier and the weight, for keeping outside the process.
    pub fn snapshot_weight(&self) -> (s: (String, u32))
        ensures
            s.0@ == self@.id,
            s.1 == self@.weight,
    {
        (self.id.clone(), self.weight)
    }

    /// Sets the weight to `w` brought within the bounds.
    pub fn load_weight(&mut self, w: u32)
        ensures
            final(self)@ == old(self)@.with_weight(w),
            final(self)@.wf(),
    {
        proof {
            use_type_invariant(&*self);
        }
        self.weight = if w < self.w_min {
            self.w_min
        } else if w > self.w_max {
            self.w_max
        } else {
            w
        };
    }

    /// The peer's identifier.
    pub fn id(&self) -> (s: &String)
        ensures
            s@ == self@.id,
    {
        &self.id
    }

    /// When the peer was last heard of.
    pub fn last_seen(&self) -> (t: i64)
        ensures
            t == self@.last_seen,
    {
        self.last_seen
    }

    /// The number of cells the peer last reported.
    pub fn cells(&self) -> (n: usize)
        ensures
            n == self@.cells,
    {
        self.cells
    }

    /// The generation the peer last reported.
    pub fn generation(&self) -> (n: u32)
        ensures
            n == self@.generation,
    {
        self.generation
    }

    /// The load the peer last reported, in millionths.
    pub fn load(&self) -> (l: u32)
        ensures
            l == self@.load,
    {
        self.load
    }

    /// The health of the link to the peer.
    pub fn health(&self) -> (h: &ConnectionHealth)
        ensures
            h@ == self@.health,
            self@.wf(),
    {
        proof {
            use_type_invariant(self);
        }
        &self.health
    }

    /// Where to dial the peer, if it was registered for reconnection.
    pub fn url(&self) -> (u: &Option<String>)
        ensures
            match *u {
                Some(s) => self@.url == Some(s@),
                None => self@.url is None,
            },
    {
        &self.url
    }

    /// Whether the link is up.
    pub fn connected(&self) -> (b: bool)
        ensures
            b == self@.connected,
    {
        self.connected
    }

    /// The weight of the link, in millionths, within its bounds.
    pub fn weight(&self) -> (w: u32)
        ensures
            w == self@.weight,
            self@.wf(),
    {
        proof {
            use_type_invariant(self);
        }
        self.weight
    }

    /// The bounds of the weight, lower and upper, in millionths.
    pub fn weight_bounds(&self) -> (b: (u32, u32))
        ensures
            b.0 == self@.w_min,
            b.1 == self@.w_max,
    {
        (self.w_min, self.w_max)
    }

    /// The learning rates for coincident and for separate fires, and the forgetting rate.
    pub fn rates(&self) -> (r: (u32, u32, u32))
        ensures
            r.0 == self@.eta_pos,
            r.1 == self@.eta_neg,
            r.2 == self@.decay,
    {
        (self.eta_pos, self.eta_neg, self.decay)
    }

    /// The times of the last fire of this node and of the peer, zero for never.
    pub fn last_fires(&self) -> (t: (i64, i64))
        ensures
            t.0 == self@.last_fire_local,
            t.1 == self@.last_fire_remote,
    {
        (self.last_fire_local, self.last_fire_remote)
    }
}

/// One update keeps a weight within its bounds, whatever the fire times and the window.
pub proof fn lemma_update_keeps_bounds(p: PeerView, window_ms: int)
    requires
        p.w_min <= p.w_max,
    ensures
        p.w_min <= p.weight_after_update(window_ms) <= p.w_max,
        p.wf() ==> p.after_hebbian_update(window_ms).wf(),
{
}

/// Any run of updates keeps a weight within its bounds.
pub proof fn lemma_updates_keep_bounds(p: PeerView, steps: Seq<FireStep>)
    requires
        p.wf(),
    ensures
        p.after_updates(steps).wf(),
        p.after_updates(steps).w_min == p.w_min,
        p.after_updates(steps).w_max == p.w_max,
        p.w_min <= p.after_updates(steps).weight <= p.w_max,
    decreases steps.len(),
{
    if steps.len() > 0 {
        lemma_updates_keep_bounds(p, steps.drop_last());
        let before = p.after_updates(steps.drop_last());
        let step = steps.last();
        let fired = PeerView {
            last_fire_local: step.local,
            last_fire_remote: step.remote,
            ..before
        };
        lemma_update_keeps_bounds(fired, step.window_ms as int);
    }
}

/// With the initial rates and bounds and the standard window, a coincident fire raises
/// the weight strictly, and never above the upper bound, exactly as long as the weight is
/// at most `COFIRE_GAIN_LIMIT`; above that, forgetting outweighs the step.
pub proof fn lemma_cofire_strengthens(p: PeerView)
    requires
        p.wf(),
        p.has_initial_rates(),
        p.cofired(HEBBIAN_FIRE_WINDOW_MS as int),
    ensures
        p.weight <= COFIRE_GAIN_LIMIT <==> p.weight_after_update(HEBBIAN_FIRE_WINDOW_MS as int)
            > p.weight,
        p.weight_after_update(HEBBIAN_FIRE_WINDOW_MS as int) <= p.w_max,
{
    let decayed = p.decayed_weight(120);
    assert(decay_factor(p.decay as int, 120) == 999_760);
    assert(decayed == p.weight * 999_760 / 1_000_000);
    assert(scaled(p.eta_pos as int, p.w_max - decayed) == 60_000 * (1_000_000 - decayed)
        / 1_000_000);
}

/// With the initial rates and bounds and the standard window, fires that do not coincide
/// lower the weight strictly, and never below the lower bound, exactly as long as the
/// weight is above the lower bound.
pub proof fn lemma_separate_fires_weaken(p: PeerView)
    requires
        p.wf(),
        p.has_initial_rates(),
        p.both_fired(),
        !p.cofired(HEBBIAN_FIRE_WINDOW_MS as int),
    ensures
        p.weight > p.w_min <==> p.weight_after_update(HEBBIAN_FIRE_WINDOW_MS as int) < p.weight,
        p.weight_after_update(HEBBIAN_FIRE_WINDOW_MS as int) >= p.w_min,
{
    let decayed = p.decayed_weight(120);
    assert(decay_factor(p.decay as int, 120) == 999_760);
    assert(decayed == p.weight * 999_760 / 1_000_000);
    assert(scaled(p.eta_neg as int, decayed - p.w_min) == 30_000 * (decayed - 100_000)
        / 1_000_000);
}

/// Unless both this node and the peer have fired, an update never raises the weight:
/// it only forgets.
pub proof fn lemma_update_without_fires_only_forgets(p: PeerView, window_ms: int)
    requires
        p.wf(),
        !p.both_fired(),
    ensures
        p.weight_after_update(window_ms) <= p.weight,
        p.weight_after_update(window_ms) == clamp_int(
            p.decayed_weight(window_ms),
            p.w_min as int,
            p.w_max as int,
        ),
{
    lemma_scaled_shrinks(p.weight as int, decay_factor(p.decay as int, window_ms));
}

/// A peer heard of at `now`, by its handshake, a heartbeat or a state report, is alive
/// from then until the timeout has passed.
pub proof fn lemma_heard_peer_is_alive(
    p: PeerView,
    cells: usize,
    generation: u32,
    load: u32,
    now: i64,
    later: int,
    timeout_ms: int,
)
    requires
        now <= later < now + timeout_ms,
    ensures
        PeerView::fresh(p.id, now).alive_at(later, timeout_ms),
        p.after_heartbeat(now).alive_at(later, timeout_ms),
        p.after_state(cells, generation, load, now).alive_at(later, timeout_ms),
        !p.after_heartbeat(now).alive_at(now + timeout_ms, timeout_ms),
{
}

} // verus!
