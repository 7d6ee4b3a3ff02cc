//! Dataset export engine for an image-annotation service.
//!
//! The library resolves which annotated images a label filter selects,
//! assembles their records, bytes and annotations, builds a sorted label
//! index, deterministically splits the set into train/val partitions,
//! encodes normalized-box label files, and packs everything into a single
//! in-memory zip archive with collision-free member names.

pub mod models;
pub mod numtext;
pub mod strutil;
pub mod split;
pub mod labels;
pub mod resolver;
pub mod aggregate;
pub mod encoder;
pub mod zipio;
pub mod archive;
pub mod engine;
pub mod keys;
pub mod web;
pub mod laws;
