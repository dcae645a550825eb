//! Reading, editing and writing PNG files chunk by chunk, to hide a text
//! message in a chunk of its own and to find it again.
//!
//! A PNG file is a signature of eight bytes and then a row of chunks. Each
//! chunk has a type of four letters and some data, framed by the length of
//! the data and a checksum. [`chunk_type`], [`chunk`] and [`png`] hold these
//! three layers, each with what it is in a byte stream and the proof that
//! reading and writing undo each other. [`commands`] puts them together into
//! the four things a user does with a file. [`checksum`], [`endian`] and
//! [`text`] say what the checksum, the numbers and the shown text are.

pub mod checksum;
pub mod chunk;
pub mod chunk_type;
pub mod commands;
pub mod endian;
pub mod error;
pub mod png;
pub mod text;

pub use crate::error::Error;
