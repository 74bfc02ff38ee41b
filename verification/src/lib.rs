//! FaceFX `.lip` decoding and minimal Skyrim SE plugin (`.esm`) writing.
//!
//! - `lip` decodes the run-length encoded curve payload of a `.lip` file
//!   into frame rows; `lip_laws` states what holds of every decode.
//! - `esm` writes a deterministic plugin with a worldspace, its exterior
//!   cells and an optional interior joined by load doors, framed by `record`
//!   with the tags of `tags`; `esm_laws` states what holds of every plugin.
//! - `layout` parses the list of file families a synthetic data tree holds
//!   and lists the files such a tree contains.
//! - `le` reads and writes little-endian integers; `text` checks the text a
//!   plugin carries.
//!
//! Floating-point values never appear here: every `f32` the formats carry is
//! held as its IEEE-754 bit pattern in a `u32`.

pub mod le;
pub mod text;
pub mod lip;
pub mod lip_laws;
pub mod record;
pub mod tags;
pub mod esm;
pub mod esm_laws;
pub mod layout;
