//! Positional chunk differencing.
//!
//! A sequence is cut into fixed-size chunks, each chunk gets a fingerprint, and
//! the chunks of an updated sequence are compared by index with those of the
//! original: equal fingerprints mean the chunk is reused, anything else means
//! its elements have to be sent again.
pub mod element;
pub mod fingerprint;
pub mod diff;
