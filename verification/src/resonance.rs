//! Load resonance: how closely a node's load matches the mean load of the peers it hears,
//! and the nudge that brings it closer.
//!
//! Loads, strengths and resonances are in millionths (see [`crate::units::UNIT`]). Only
//! the peers heard of within the alive timeout count.

use crate::clock::now_millis;
use crate::node::MeshNode;
use crate::peer::PeerView;
use crate::registry::{alive_loads, alive_qualities, lemma_no_peers_none_alive};
use crate::stats::{
    greatest, least, lemma_mean_bounds, max_of, mean, mean_of, min_of, variance, variance_of,
};
use crate::units::{clamp_int, lemma_scaled_shrinks, scale, scaled, UNIT};
use vstd::prelude::*;

verus! {

/// The correction strength of a mesh whose links have no quality left, in millionths.
pub const MIN_STRENGTH: u32 = 50_000;

/// The correction strength of a node that knows no peer, in millionths.
pub const BASE_STRENGTH: u32 = 100_000;

/// The correction strength of a mesh whose links are all of full quality, in millionths.
pub const MAX_STRENGTH: u32 = 200_000;

/// The span of the correction strength, in millionths.
pub const STRENGTH_RANGE: u32 = 150_000;

/// The distance between two numbers.
pub open spec fn distance(a: int, b: int) -> int {
    if a >= b {
        a - b
    } else {
        b - a
    }
}

/// The resonance of a node with load `local` among peers with the loads `loads`: one whole
/// less the distance of `local` from their mean, and zero where that distance exceeds one
/// whole. Among no peers the resonance is full.
pub open spec fn resonance_of(loads: Seq<u32>, local: int) -> int {
    if loads.len() == 0 {
        UNIT as int
    } else if distance(local, mean(loads)) >= UNIT {
        0
    } else {
        UNIT - distance(local, mean(loads))
    }
}

/// The correction of a load `local` toward the mean of `loads`: their difference times
/// `strength`, rounded toward zero. Among no peers there is nothing to correct.
pub open spec fn correction_of(loads: Seq<u32>, local: int, strength: int) -> int {
    if loads.len() == 0 {
        0
    } else if mean(loads) >= local {
        scaled(mean(loads) - local, strength)
    } else {
        -scaled(local - mean(loads), strength)
    }
}

/// The correction strength for a registry of `known` peers of which those heard of have
/// the link qualities `qualities`: the base strength where no peer is known, the least
/// where none is heard of, and else the least plus the mean quality's share of the span,
/// kept within the least and the greatest strength.
pub open spec fn strength_of(known: nat, qualities: Seq<u32>) -> int {
    if known == 0 {
        BASE_STRENGTH as int
    } else if qualities.len() == 0 {
        MIN_STRENGTH as int
    } else {
        clamp_int(
            MIN_STRENGTH + scaled(mean(qualities), STRENGTH_RANGE as int),
            MIN_STRENGTH as int,
            MAX_STRENGTH as int,
        )
    }
}

/// The load that a node with load `local` takes on after one step of resonance among
/// `peers` at `now`: with no peer known, the same; else the load moved by the correction
/// at the adaptive strength, kept within zero and one whole.
pub open spec fn load_after_resonance(peers: Seq<PeerView>, local: int, now: int) -> int {
    if peers.len() == 0 {
        local
    } else {
        clamp_int(
            local + correction_of(
                alive_loads(peers, now),
                local,
                strength_of(peers.len(), alive_qualities(peers, now)),
            ),
            0,
            UNIT as int,
        )
    }
}

/// Load statistics of the peers that a node hears.
#[derive(Debug, Clone, Copy, PartialEq, Eq)]
pub struct ResonanceStats {
    /// The number of peers heard of within the alive timeout.
    pub peer_count: usize,
    /// Their mean load, in millionths.
    pub avg_load: u32,
    /// The least of their loads, in millionths.
    pub min_load: u32,
    /// The greatest of their loads, in millionths.
    pub max_load: u32,
    /// The resonance of the node among them, in millionths.
    pub resonance: u32,
    /// The population variance of their loads, in millionths.
    pub variance: u64,
}

/// The statistics of a node with load `local` among peers with the loads `loads`. Among
/// no peers the node's own load stands for the mean and the extremes.
pub open spec fn stats_of(loads: Seq<u32>, local: u32) -> ResonanceStats {
    if loads.len() == 0 {
        ResonanceStats {
            peer_count: 0,
            avg_load: local,
            min_load: local,
            max_load: local,
            resonance: UNIT,
            variance: 0,
        }
    } else {
        ResonanceStats {
            peer_count: loads.len() as usize,
            avg_load: mean(loads) as u32,
            min_load: least(loads) as u32,
            max_load: greatest(loads) as u32,
            resonance: resonance_of(loads, local as int) as u32,
            variance: variance(loads) as u64,
        }
    }
}

/// Computes `resonance_of(loads, local)`.
pub fn resonance_among(loads: &Vec<u32>, local: u32) -> (r: u32)
    ensures
        r == resonance_of(loads@, local as int),
        r <= UNIT,
{
    if loads.len() == 0 {
        return UNIT;
    }
    let avg: u32 = mean_of(loads);
    let gap: u32 = if local >= avg {
        local - avg
    } else {
        avg - local
    };
    if gap >= UNIT {
        0
    } else {
        UNIT - gap
    }
}

/// Computes `correction_of(loads, local, strength)`.
pub fn correction_among(loads: &Vec<u32>, local: u32, strength: u32) -> (c: i64)
    ensures
        c == correction_of(loads@, local as int, strength as int),
{
    if loads.len() == 0 {
        return 0;
    }
    let avg: u32 = mean_of(loads);
    if avg >= local {
        let step: u64 = scale(avg - local, strength);
        proof {
            assert((avg - local) * strength <= 0xFFFF_FFFF * 0xFFFF_FFFF) by (nonlinear_arith)
                requires
                    0 <= avg - local <= 0xFFFF_FFFF,
                    0 <= strength <= 0xFFFF_FFFF,
            ;
        }
        step as i64
    } else {
        let step: u64 = scale(local - avg, strength);
        proof {
            assert((local - avg) * strength <= 0xFFFF_FFFF * 0xFFFF_FFFF) by (nonlinear_arith)
                requires
                    0 <= local - avg <= 0xFFFF_FFFF,
                    0 <= strength <= 0xFFFF_FFFF,
            ;
        }
        -(step as i64)
    }
}

/// Computes `strength_of(known, qualities)`.
pub fn strength_among(known: usize, qualities: &Vec<u32>) -> (s: u32)
    ensures
        s == strength_of(known as nat, qualities@),
        MIN_STRENGTH <= s <= MAX_STRENGTH,
{
    if known == 0 {
        return BASE_STRENGTH;
    }
    if qualities.len() == 0 {
        return MIN_STRENGTH;
    }
    let avg: u32 = mean_of(qualities);
    let share: u64 = scale(avg, STRENGTH_RANGE);
    if share >= STRENGTH_RANGE as u64 {
        MAX_STRENGTH
    } else {
        MIN_STRENGTH + share as u32
    }
}

/// Computes `stats_of(loads, local)`.
pub fn stats_among(loads: &Vec<u32>, local: u32) -> (stats: ResonanceStats)
    ensures
        stats == stats_of(loads@, local),
{
    if loads.len() == 0 {
        return ResonanceStats {
            peer_count: 0,
            avg_load: local,
            min_load: local,
            max_load: local,
            resonance: UNIT,
            variance: 0,
        };
    }
    ResonanceStats {
        peer_count: loads.len(),
        avg_load: mean_of(loads),
        min_load: min_of(loads),
        max_load: max_of(loads),
        resonance: resonance_among(loads, local),
        variance: variance_of(loads),
    }
}

impl MeshNode {
    /// The resonance at `now` of this node, whose load is `current_load`, among the peers
    /// it hears; full where it knows or hears none.
    pub fn compute_network_resonance_at(&self, current_load: u32, now: i64) -> (r: u32)
        ensures
            r == resonance_of(alive_loads(self@.peers, now as int), current_load as int),
            r <= UNIT,
            self@.peers.len() == 0 ==> r == UNIT,
    {
        proof {
            lemma_no_peers_none_alive(now as int);
            if self@.peers.len() == 0 {
                assert(self@.peers =~= Seq::<PeerView>::empty());
            }
        }
        let loads = self.alive_loads_at(now);
        resonance_among(&loads, current_load)
    }

    /// The resonance of this node at the present time.
    pub fn compute_network_resonance(&self, current_load: u32) -> (r: u32)
        ensures
            exists|now: i64|
                r == resonance_of(
                    #[trigger] alive_loads(self@.peers, now as int),
                    current_load as int,
                ),
            r <= UNIT,
            self@.peers.len() == 0 ==> r == UNIT,
    {
        let now: i64 = now_millis();
        self.compute_network_resonance_at(current_load, now)
    }

    /// The correction at `now` of this node's load toward the mean load of the peers it
    /// hears, at the given strength; zero where it knows or hears none.
    pub fn compute_resonance_correction_at(&self, current_load: u32, strength: u32, now: i64) -> (c:
        i64)
        ensures
            c == correction_of(
                alive_loads(self@.peers, now as int),
                current_load as int,
                strength as int,
            ),
            self@.peers.len() == 0 ==> c == 0,
    {
        proof {
            lemma_no_peers_none_alive(now as int);
            if self@.peers.len() == 0 {
                assert(self@.peers =~= Seq::<PeerView>::empty());
            }
        }
        let loads = self.alive_loads_at(now);
        correction_among(&loads, current_load, strength)
    }

    /// The correction of this node's load at the present time.
    pub fn compute_resonance_correction(&self, current_load: u32, strength: u32) -> (c: i64)
        ensures
            exists|now: i64|
                c == correction_of(
                    #[trigger] alive_loads(self@.peers, now as int),
                    current_load as int,
                    strength as int,
                ),
            self@.peers.len() == 0 ==> c == 0,
    {
        let now: i64 = now_millis();
        self.compute_resonance_correction_at(current_load, strength, now)
    }

    /// The correction strength at `now`, by the health of the links to the peers heard of.
    pub fn compute_adaptive_strength_at(&self, now: i64) -> (s: u32)
        ensures
            s == strength_of(self@.peers.len(), alive_qualities(self@.peers, now as int)),
            MIN_STRENGTH <= s <= MAX_STRENGTH,
            self@.peers.len() == 0 ==> s == BASE_STRENGTH,
    {
        let known: usize = self.get_peer_count();
        let qualities = self.alive_qualities_at(now);
        strength_among(known, &qualities)
    }

    /// The correction strength at the present time.
    pub fn compute_adaptive_strength(&self) -> (s: u32)
        ensures
            exists|now: i64|
                s == strength_of(
                    self@.peers.len(),
                    #[trigger] alive_qualities(self@.peers, now as int),
                ),
            MIN_STRENGTH <= s <= MAX_STRENGTH,
            self@.peers.len() == 0 ==> s == BASE_STRENGTH,
    {
        let now: i64 = now_millis();
        self.compute_adaptive_strength_at(now)
    }

    /// The load statistics at `now` of the peers that this node hears.
    pub fn get_resonance_stats_at(&self, current_load: u32, now: i64) -> (stats: ResonanceStats)
        ensures
            stats == stats_of(alive_loads(self@.peers, now as int), current_load),
    {
        let loads = self.alive_loads_at(now);
        stats_among(&loads, current_load)
    }

    /// The load statistics at the present time of the peers that this node hears.
    pub fn get_resonance_stats(&self, current_load: u32) -> (stats: ResonanceStats)
        ensures
            exists|now: i64|
                stats == stats_of(#[trigger] alive_loads(self@.peers, now as int), current_load),
    {
        let now: i64 = now_millis();
        self.get_resonance_stats_at(current_load, now)
    }

    /// One step of resonance at `now`: the load that this node, whose load is
    /// `current_load`, takes on. With no peer known the load stays as it is; else it moves
    /// by the correction at the adaptive strength and is kept within zero and one whole.
    pub fn apply_resonance_at(&self, current_load: u32, now: i64) -> (load: u32)
        ensures
            load == load_after_resonance(self@.peers, current_load as int, now as int),
            self@.peers.len() == 0 ==> load == current_load,
            self@.peers.len() > 0 ==> load <= UNIT,
    {
        if self.get_peer_count() == 0 {
            return current_load;
        }
        let strength: u32 = self.compute_adaptive_strength_at(now);
        let correction: i64 = self.compute_resonance_correction_at(current_load, strength, now);
        proof {
            let loads = alive_loads(self@.peers, now as int);
            lemma_mean_bounds(loads);
            if loads.len() > 0 {
                let gap = distance(current_load as int, mean(loads));
                assert(0 <= gap * strength <= 0xFFFF_FFFF * 200_000) by (nonlinear_arith)
                    requires
                        0 <= gap <= 0xFFFF_FFFF,
                        0 <= strength <= 200_000,
                ;
            }
        }
        let moved: i64 = current_load as i64 + correction;
        if moved < 0 {
            0
        } else if moved > UNIT as i64 {
            UNIT
        } else {
            moved as u32
        }
    }

    /// One step of resonance at the present time.
    pub fn apply_resonance(&self, current_load: u32) -> (load: u32)
        ensures
            exists|now: i64|
                load == #[trigger] load_after_resonance(
                    self@.peers,
                    current_load as int,
                    now as int,
                ),
            self@.peers.len() == 0 ==> load == current_load,
            self@.peers.len() > 0 ==> load <= UNIT,
    {
        let now: i64 = now_millis();
        self.apply_resonance_at(current_load, now)
    }
}

/// A node that knows no peer is in full resonance, has nothing to correct, takes the base
/// strength, and keeps its load in a step of resonance.
pub proof fn lemma_empty_registry(local: int, strength: int, now: int)
    ensures
        resonance_of(alive_loads(Seq::<PeerView>::empty(), now), local) == UNIT,
        correction_of(alive_loads(Seq::<PeerView>::empty(), now), local, strength) == 0,
        strength_of(0, alive_qualities(Seq::<PeerView>::empty(), now)) == BASE_STRENGTH,
        load_after_resonance(Seq::<PeerView>::empty(), local, now) == local,
{
    lemma_no_peers_none_alive(now);
}

/// A resonance lies between zero and one whole, and a strength between the least and the
/// greatest.
pub proof fn lemma_resonance_and_strength_in_range(
    loads: Seq<u32>,
    local: int,
    known: nat,
    qualities: Seq<u32>,
)
    ensures
        0 <= resonance_of(loads, local) <= UNIT,
        MIN_STRENGTH <= strength_of(known, qualities) <= MAX_STRENGTH,
{
}

/// At a strength of at most one whole, a correction moves a load toward the mean of the
/// peers' loads and never past it.
pub proof fn lemma_correction_moves_toward_mean(loads: Seq<u32>, local: int, strength: int)
    requires
        loads.len() > 0,
        0 <= strength <= UNIT,
    ensures
        mean(loads) >= local ==> local <= local + correction_of(loads, local, strength) <= mean(
            loads,
        ),
        mean(loads) <= local ==> mean(loads) <= local + correction_of(loads, local, strength)
            <= local,
{
    if mean(loads) >= local {
        lemma_scaled_shrinks(mean(loads) - local, strength);
    } else {
        lemma_scaled_shrinks(local - mean(loads), strength);
    }
}

/// A node whose load is the mean of its peers' loads is in full resonance and has
/// nothing to correct, at whatever strength.
pub proof fn lemma_at_the_mean_nothing_moves(loads: Seq<u32>, strength: int)
    ensures
        resonance_of(loads, mean(loads)) == UNIT,
        correction_of(loads, mean(loads), strength) == 0,
{
}

} // verus!
