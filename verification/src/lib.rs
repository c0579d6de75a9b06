//! The decision core of a dense linear-system solver suite.
//!
//! A solver for `A x = b` does two kinds of work. One is arithmetic on
//! matrix and vector entries. The other is bookkeeping: which shapes are
//! accepted, which row becomes the next pivot, how the row permutation
//! evolves, which unknowns are free, when an iteration stops and what
//! count it reports. This crate holds the second kind, stated over
//! integers and proved. Entries never enter it; where an entry's size
//! matters, the caller hands over a magnitude key (see [`pivot`]).

pub mod error;
pub mod permutation;
pub mod pivot;
pub mod shape;
pub mod iteration;
