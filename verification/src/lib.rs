//! Spectrum analysis for audio-driven displays: a sliding analysis window
//! over a mono signal, aggregation of magnitude bins into frequency bands,
//! and time-based smoothing of band intensities and of an overall level.

pub mod audio;
pub mod bands;
pub mod config;
pub mod cursor;
pub mod decode;
pub mod fixed;
pub mod smoother;
