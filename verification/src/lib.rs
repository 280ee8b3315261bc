//! Terminal display width and text alignment.
//!
//! Measures how many terminal columns a piece of text occupies — ANSI
//! escape sequences take no columns, East-Asian wide characters take
//! two — and pads multi-line blocks so the lines align left, center or
//! right.

pub mod align;
pub mod laws;
pub mod segments;
pub mod width;

pub use align::{ansi_align, center, left, right, AlignOptions, Alignment};
pub use width::{string_width, widest_line};
