//! Lossless-first image asset optimization: the byte-level container
//! rewriting, text transformations and asset-reference rules behind the
//! `asset-squeeze` command line tool.

pub mod cli;
pub mod discover;
pub mod float;
pub mod flutter;
pub mod jpeg;
pub mod kinds;
pub mod outcome;
pub mod path;
pub mod pathset;
pub mod png;
pub mod refs;
pub mod svg;
pub mod text;
pub mod webp;
pub mod webp_proofs;
