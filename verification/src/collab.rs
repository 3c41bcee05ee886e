//! Plain types that the collaborators of the mesh layer exchange with it and with each
//! other: the request and response shapes of the control surface, the bridge's settings,
//! the vocabulary of the cognitive, conscious and decision modules, and the kinds of cells
//! and processors.

pub mod api;
pub mod bridge;
pub mod cognitive;
pub mod conscious;
pub mod domino;
pub mod mind;
pub mod stem;
pub mod vnp;
