//! Relative-position self-attention for an XLNet-style layer, worked out on
//! tensor extents, and the bookkeeping of autoregressive decoding.
//!
//! Everything here works on plain values: extents of tensors, token ids and
//! integer scores. The floating-point arithmetic of a forward pass is left to
//! the caller, which asks this crate what to compute and in which layout.
//!
//! - [`shift`]: the relative shift of positional scores, and why it lines
//!   scores up with key positions.
//! - [`attention`]: the layer. It checks the extents of what goes into the
//!   attention core, the projection after it and a whole forward step, and
//!   answers with a [`plan`].
//! - [`cache`]: what the layers of a stack keep between decoding steps.
//! - [`generation`]: settings, padding and the choice of the best token.
//! - [`greedy`] and [`beam`]: the two searches, as state machines that are
//!   fed the scores of the language model step after step. [`ranking`] holds
//!   the mathematics of one beam-search step.
//! - [`generator`]: either search behind one face, fed row by row as a
//!   language model scores a batch.
//! - [`laws`]: what holds of whole runs.
//! - [`error`]: what can go wrong.

pub mod error;
pub mod shift;
pub mod plan;
pub mod attention;
pub mod cache;
pub mod generation;
pub mod greedy;
pub mod ranking;
pub mod beam;
pub mod generator;
pub mod laws;
