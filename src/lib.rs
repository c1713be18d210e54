//! Bit-exact layout resolution for packed binary records.
//!
//! A record is described by its fields (name, type, settings) and its own
//! settings. Resolution gives every field a width and a bit range, normalizes
//! least-significant-first numbering, picks each leaf's wrapper chain, sizes the
//! record with its header and footer, and checks that no two leaves share a bit.
//!
//! - `text`: character-level helpers and numerals
//! - `attrs`: bit numbering, byte order, numerals and placements
//! - `types`: field types and the widths they carry
//! - `field`: per-field settings, width, numbering and wrapper chains
//! - `layout`: the whole-record plan, its size and the overlap check
//! - `extract`: annotations as key/literal pairs, header and footer literals
//! - `settings`: the recognized keys, read into typed settings
//! - `laws`: properties that every resolved layout has
use vstd::prelude::*;

pub mod text;
pub mod attrs;
pub mod types;
pub mod field;
pub mod layout;
pub mod laws;
pub mod extract;
pub mod settings;

verus! {

} // verus!
