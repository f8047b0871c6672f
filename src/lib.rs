//! A genetic-algorithm engine that evolves the attribute tables of game
//! characters toward a designer's ranking and a set of balance targets.
pub mod random;
pub mod bundle;
pub mod rankings;
pub mod score;
pub mod individual;
pub mod population;
pub mod laws;
