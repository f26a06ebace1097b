//! Progress bars, spinners and human-readable formatting for command line
//! programs, with the rendering logic stated in contracts and proved.
use vstd::prelude::*;

pub mod ansi;
pub mod bar;
pub mod channel;
pub mod dotted;
pub mod draw;
pub mod expand;
pub mod format;
pub mod multi;
pub mod ring;
pub mod state;
pub mod style;
pub mod template;
pub mod term;
pub mod text;

verus! {
} // verus!
