//! Converts a fixed window of raw audio samples into a symbolic musical
//! representation: a magnitude spectrum, a set of discrete notes, and a
//! ranked list of chord candidates matched against harmonic templates.

pub mod capture;
pub mod chord;
pub mod classify;
pub mod errors;
pub mod infer;
pub mod note;
pub mod pipeline;
pub mod pitch;
pub mod spectrum;
