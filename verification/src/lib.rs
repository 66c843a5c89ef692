//! Audio effects built on delay lines: a ring buffer, comb filters with a
//! feedforward or a feedback path, and a modulated delay (vibrato) that
//! reads its delay line between slots.
//!
//! Delays are counted in samples. The sample type is a parameter; see
//! `sample` for what is asked of it.

pub mod comb_filter;
pub mod comb_proofs;
pub mod ring_buffer;
pub mod sample;
pub mod vibrato;
pub mod vibrato_proofs;
