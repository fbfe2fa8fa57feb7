//! A probabilistic forest-fire cellular automaton: a rectangular grid of
//! trees whose cells pass from `Alive` to `Burning` to `Burned`, driven by
//! a stochastic transition oracle.

pub mod forest;
pub mod lighter;
pub mod render;
