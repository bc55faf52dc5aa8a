//! A falling-sand automaton: a grid of typed cells that evolves tick by tick.
//!
//! Every tick has two phases. The intent phase scans the grid and lets each
//! cell propose at most one move; the commit phase arbitrates between the
//! proposals that share a destination and applies one winner per destination.

pub mod chance;
pub mod commit;
pub mod intent;
pub mod material;
pub mod rules;
pub mod tick;
pub mod world;
