//! State management for a joint-embedding prediction engine: a store of
//! named state vectors, bounded observation windows, and per-channel
//! moving-average predictors.  The arithmetic on vector components is left
//! to the caller; this crate decides which vectors are kept, which are
//! selected, and in what order.
use vstd::prelude::*;

pub mod window;
pub mod vector_db;
pub mod engine;
pub mod moving_average;
pub mod batch;
pub mod conservation;
pub mod prediction;

