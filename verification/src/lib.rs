//! Rooms described as ASCII-art box nets: parsing, validation, and the pure
//! geometry and color rules needed to display them.
//!
//! A room is written as an unfolded box (a cube net) in a markdown-like
//! document. This crate splits such a document into sections, infers the box
//! dimensions of each room from its grid, validates the grid against an area
//! checksum, extracts the labelled cells of the six faces, assigns each label
//! character a deterministic color, places each label marker on its face in
//! integer tenth-of-cell units, and tracks the hover state of a marker.

pub mod color;
pub mod document;
pub mod grid;
pub mod hover;
pub mod layout;
pub mod net;
