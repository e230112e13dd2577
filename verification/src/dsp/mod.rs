//! Spectrum analysis: everything about it that is not floating point.
//!
//! The transforms, filters and level mappings run on samples and belong to the
//! application. What stands here decides which transform serves which band,
//! which bins a band reads and how much of each, when an analysis frame is due,
//! and which samples it looks at.

pub mod bands;
pub mod eq;
pub mod fastpath;
pub mod mrstft;
pub mod window;
