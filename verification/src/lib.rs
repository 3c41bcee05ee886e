//! The coordination layer of a self-organising peer mesh, with its rules proved.
//!
//! A node of the mesh keeps a registry of the peers it knows. For each link it tracks a
//! health record ([`health`]), mirrors what the peer reports of itself, and learns a weight
//! from the coincidence of its own fires with the peer's ([`peer`]). The node
//! ([`node`]) answers from its registry which peers are alive, which links are the
//! heaviest, which peer is the best to route to and which peers are to be dialed again;
//! what these answers mean, and the laws they obey, is laid down over the registry as a
//! map from identifier to record ([`registry`]). From the loads of the
//! peers it hears, a node computes how closely it resonates with the mesh and the step
//! that brings its load closer to the mean ([`resonance`]). What happens on one
//! connection is a state machine ([`protocol`]) over the messages of the mesh
//! ([`message`]).
//!
//! The library holds state and takes decisions; it opens no socket, starts no task and
//! takes no lock. Whoever runs the sockets and timers calls it with what happened and
//! carries out what it answers. A function that needs the time takes it as an argument,
//! and its name ends in `_at`; beside most of them stands a form without that ending,
//! which reads the wall clock and calls the first.
//!
//! Fractions are fixed-point numbers in millionths ([`units`]): a quality of one whole
//! is `1_000_000`, the initial weight of three tenths is `300_000`. Sums and products are
//! exact in the integers; a quotient is cut to a whole number of millionths.
//!
//! [`collab`] holds the plain types that the modules around the mesh exchange.

mod clock;
pub mod collab;
pub mod health;
pub mod message;
pub mod node;
pub mod peer;
pub mod protocol;
pub mod registry;
pub mod resonance;
pub mod stats;
pub mod units;
