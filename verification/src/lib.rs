//! Decoder library for DDC MIL-STD-1553 MIE binary recordings.
//!
//! The modules hold the pure logic of the decoder: field decoding, record
//! validation and sync recovery, calendar rendering, CSV row layout, filtering,
//! canonical row ordering, and the small grammars the command line and the
//! configuration file use. Reading files and writing to disk stay outside.

pub mod decode;
pub mod cli;
pub mod config;
pub mod delta;
pub mod dump;
pub mod error;
pub mod filter;
pub mod merge;
pub mod models;
pub mod order;
pub mod sync;
pub mod text;
pub mod toml_subset;
pub mod writer;
