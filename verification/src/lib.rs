//! Codecs for the text and binary boundary formats of a felt-based
//! zero-knowledge virtual machine: an argument encoder for the bracketed
//! decimal grammar, a decoder for felt-encoded byte-array strings and
//! versioned output records, and binary encoders for execution traces and
//! relocated memory images.

pub mod args;
pub mod bytearray;
pub mod codec;
pub mod dec;
pub mod error;
pub mod felt;
pub mod output;
