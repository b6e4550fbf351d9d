//! Locating files by name in a directory tree and scanning their lines.
//!
//! The library decides; its caller touches the disk. A [`walker::Walker`]
//! names the next directory to list or file to read, is handed what the
//! caller found there, and accumulates which files matched the filename
//! pattern and which of their lines matched the content pattern.

pub mod entry;
pub mod model;
pub mod palette;
pub mod pattern;
pub mod report;
pub mod scan;
pub mod snapshot;
pub mod text;
pub mod walker;
