//! Structural statistics for Apertium linguistic resource files, and the
//! bookkeeping that keeps concurrent recomputations of one file from
//! overlapping.

pub mod text;
pub mod kinds;
pub mod stats;
pub mod xml;
pub mod registry;
pub mod classify;
pub mod lexc;
pub mod tree;
pub mod lexd;
pub mod rlx;
pub mod listing;
pub mod names;
