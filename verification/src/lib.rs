//! Core of a rhythm-game chart library: parsing of a JSON-based beatmap
//! format, conversion of beat positions to absolute playback time under a
//! piecewise tempo map, and a searchable library index of imported charts.
//!
//! All times are kept as integer microseconds, tempi as integer
//! thousandths of beats per minute, and beat positions as rational
//! `(measure, numerator, denominator)` triples quantized to integer
//! millionths of a beat, so that every computation has an exact
//! mathematical statement.

pub mod error;
pub mod timing;
pub mod json;
pub mod text;
pub mod model;
pub mod parser;
pub mod identity;
pub mod library;
pub mod events;
pub mod keyboard;
pub mod inputs;
pub mod config;
pub mod mod_system;
pub mod render;
pub mod loader;
pub mod cache;

