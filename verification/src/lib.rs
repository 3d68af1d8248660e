//! Genome representation and recombination engine for small evolvable
//! feed-forward networks, together with the helpers of the packet-capture
//! front end that are pure computation.
//!
//! Network scalars are IEEE-754 single-precision values carried as their raw
//! bit patterns (`u32`): the arithmetic itself stays behind a handful of
//! trusted wrappers in `fp32`, while everything structural — layer shapes,
//! weight blending, point mutation, width and depth growth — is verified.

pub mod capture;
pub mod fp32;
pub mod genome;
pub mod rng;
