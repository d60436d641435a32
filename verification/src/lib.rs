//! Core signal-path logic of a phase-distortion audio effect: a block
//! engine that regroups host-supplied sample blocks of arbitrary length
//! into fixed-size analysis windows, applying a per-channel window
//! transform at every window boundary and handing samples back to the
//! host exactly one window later.
//!
//! The engine never computes on the samples themselves; it only stores
//! and moves them. It is therefore generic over the sample type, and
//! everything it does is stated and proved over sequences of samples.
pub mod engine;
pub mod laws;
pub mod model;
pub mod transform;
