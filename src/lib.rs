//! Gap buffers for a vi-like editor.
//!
//! The core is `gap::Buffer`, a byte buffer whose free space (the gap) moves to wherever the last
//! edit happened, so that edits near one another move little data. `gap::String` layers UTF-8
//! validation on top of it, and `operation` turns splices into reversible edits.

pub mod byte_range;
pub mod copy_range;
pub mod gap;
pub mod gap_buffer;
pub mod laws;
pub mod operation;
pub mod range;
pub mod range_ext;
