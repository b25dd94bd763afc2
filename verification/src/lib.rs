//! Live caption alignment and distribution.
//!
//! The library matches noisy transcribed utterances against a fixed
//! reference script (`script`, `similarity`, `align`), turns a match or a
//! scripted line into a renderable caption (`caption`), and fans caption
//! events out to many viewers with per-subscriber lag accounting (`hub`).

pub mod align;
pub mod caption;
pub mod hub;
pub mod script;
pub mod similarity;
