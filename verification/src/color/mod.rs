//! Colour: everything about it that is not floating point.
//!
//! - [`surface`]: parsing authored colours, and which two moments of a loop a
//!   field is between.
//! - [`timeline`]: whether a field moves, and which key it starts from.
//! - [`intensity`]: the kinds of curve from level to brightness.
//! - [`strip`]: where on the wall each frequency lands.

pub mod intensity;
pub mod strip;
pub mod surface;
pub mod timeline;
