//! A safe completion/lifetime layer over a non-blocking, callback-driven,
//! tag-matched message engine.
//!
//! The engine submits operations without blocking and reports their
//! completion only while its owner drives an explicit progress step. This
//! crate manages what that model makes hard: request tokens that are
//! released exactly once, endpoint teardown that is triggered at most once
//! from either of two independent paths (an explicit close or an
//! engine-reported peer failure), and listener dispatch that hands every
//! inbound connection attempt out exactly once.
//!
//! The engine itself is modelled by [`engine::Engine`], a deterministic,
//! instrumented, in-process engine: sends and receives are matched by a
//! 64-bit tag under a mask, completions surface only during
//! [`worker::Worker::progress`], and every handle allocation, release,
//! forced close and step is counted so the layer's lifetime guarantees can
//! be observed as well as proved.

pub mod status;
pub mod engine;
pub mod worker;
pub mod endpoint;
pub mod listener;
