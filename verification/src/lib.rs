//! Canonical binary encoding and content hashing of a blockchain block
//! header.
//!
//! The encoder turns fixed-width unsigned integers (big-endian) and
//! fixed-size byte arrays (verbatim) into an append-only byte buffer; the
//! block header serializes its six fields in a fixed order through that
//! encoder and derives its identity as the SHA-256 digest of the 86
//! resulting bytes. Every byte of the encoding is pinned down, so that
//! independent implementations hash alike.

pub mod block;
pub mod net;
pub mod utils;
