//! A reversible file-splitting library: a byte buffer is divided into
//! fixed-size chunks alongside a manifest that records a SHA-256 digest for
//! the whole buffer and for every chunk; the companion weld operation
//! reconstructs the original bytes from the chunks and verifies integrity
//! end-to-end against the manifest.

pub mod error;
pub mod manifest;
pub mod split;
pub mod weld;
pub mod sha256;
pub mod stream;
