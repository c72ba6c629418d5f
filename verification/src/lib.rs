//! Kinsoku-aware line wrapping and CJK/Latin spacing analysis.
//!
//! The crate breaks lines of mixed CJK/Latin prose under an East Asian
//! display-width budget while obeying Japanese kinsoku rules and UAX #14,
//! and reports positions where spacing between CJK and Latin runs should
//! be edited.  Every algorithm is specified against a character-sequence
//! model of the text; byte offsets in the public interfaces are stated
//! over the UTF-8 encoding of that model.

pub mod chars;
pub mod config;
pub mod errors;
pub mod position;
pub mod breakclass;
pub mod graphemes;
pub mod line_break;
pub mod lines;
pub mod spacing;
pub mod diagnostic;
pub mod check;
pub mod format;
pub mod grammar;
pub mod args;
