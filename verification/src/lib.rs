//! A dice-expression engine for tabletop-RPG notation embedded in arithmetic
//! text.
//!
//! The engine scans free text for dice terms such as `3d6!<2` or `4dF`,
//! validates them, rolls them with a caller-supplied random source, and
//! renders two views of the input — one with each term replaced by the
//! bracketed roll breakdown, one with each term replaced by its kept sum —
//! together with the arithmetic total of the second view.

pub mod dice;
pub mod engine;
pub mod eval;
pub mod laws;
pub mod parse;
pub mod render;
pub mod roll;
pub mod rng;
pub mod scan;
pub mod text;
