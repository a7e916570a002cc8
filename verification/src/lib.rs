//! Reading X68000 (Human68k) disk images and describing what is on them.
//!
//! The lower half of the crate understands the disks themselves: boot sectors,
//! FAT12 and FAT16 tables, directory entries, hard-disk partition tables and
//! the file system that sits on top of them. The upper half turns an archive
//! of such images into documents for a full-text index: text decoding, LZH
//! members, grouping of multi-disk titles, the structured records of the
//! Dennou Club issues, and the tables that are printed from them.

pub mod anthropic;
pub mod bpb;
pub mod builder;
pub mod bytes;
pub mod codec;
pub mod csv;
pub mod dennou;
pub mod digest;
pub mod direntry;
pub mod document;
pub mod error;
pub mod export;
pub mod extract;
pub mod fat;
pub mod fat12;
pub mod fat16;
pub mod fs;
pub mod glob;
pub mod grouping;
pub mod hdd;
pub mod image;
pub mod json;
pub mod laws;
pub mod listing;
pub mod lzh;
pub mod metadata;
pub mod partition;
pub mod path;
pub mod pattern;
pub mod schema;
pub mod searcher;
pub mod sort;
pub mod spec;
pub mod summarizer;
pub mod summary;
pub mod text;
pub mod text_norm;
pub mod walker;
