//! A small client library for fetching "antenna" notes from a Misskey
//! server: credential and configuration parsing, request construction,
//! cache encoding and decoding, and terminal presentation of notes.
//!
//! The cache file format is the library's own: `codec::encode_notes`
//! writes it, `parse::parse_notes` reads it, and
//! `decode::lemma_cache_round_trip` proves that reading inverts writing.

pub mod codec;
pub mod config;
pub mod decode;
pub mod env;
pub mod fetch;
pub mod model;
pub mod parse;
pub mod render;
