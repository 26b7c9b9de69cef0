//! The capability that a sequence's items need: a value equality (spec `==`),
//! a stable word that feeds the fingerprint, and a faithful copy.
use vstd::prelude::*;

verus! {

/// An item of a sequence that can be chunked and fingerprinted.
pub trait Element: Sized {
    /// The word this item contributes to a chunk's fingerprint.
    spec fn word(&self) -> u64;

    /// Computes the word this item contributes to a fingerprint.
    fn hash_word(&self) -> (r: u64)
        ensures
            r == self.word(),
    ;

    /// A copy of this item, equal to it.
    fn duplicate(&self) -> (r: Self)
        ensures
            r == *self,
    ;
}

impl Element for u64 {
    open spec fn word(&self) -> u64 {
        *self
    }

    fn hash_word(&self) -> (r: u64) {
        *self
    }

    fn duplicate(&self) -> (r: Self) {
        *self
    }
}

impl Element for i32 {
    open spec fn word(&self) -> u64 {
        *self as u64
    }

    fn hash_word(&self) -> (r: u64) {
        *self as u64
    }

    fn duplicate(&self) -> (r: Self) {
        *self
    }
}

impl Element for u8 {
    open spec fn word(&self) -> u64 {
        *self as u64
    }

    fn hash_word(&self) -> (r: u64) {
        *self as u64
    }

    fn duplicate(&self) -> (r: Self) {
        *self
    }
}

impl Element for u16 {
    open spec fn word(&self) -> u64 {
        *self as u64
    }

    fn hash_word(&self) -> (r: u64) {
        *self as u64
    }

    fn duplicate(&self) -> (r: Self) {
        *self
    }
}

impl Element for u32 {
    open spec fn word(&self) -> u64 {
        *self as u64
    }

    fn hash_word(&self) -> (r: u64) {
        *self as u64
    }

    fn duplicate(&self) -> (r: Self) {
        *self
    }
}

impl Element for usize {
    open spec fn word(&self) -> u64 {
        *self as u64
    }

    fn hash_word(&self) -> (r: u64) {
        *self as u64
    }

    fn duplicate(&self) -> (r: Self) {
        *self
    }
}

impl Element for i8 {
    open spec fn word(&self) -> u64 {
        *self as u64
    }

    fn hash_word(&self) -> (r: u64) {
        *self as u64
    }

    fn duplicate(&self) -> (r: Self) {
        *self
    }
}

impl Element for i16 {
    open spec fn word(&self) -> u64 {
        *self as u64
    }

    fn hash_word(&self) -> (r: u64) {
        *self as u64
    }

    fn duplicate(&self) -> (r: Self) {
        *self
    }
}

impl Element for i64 {
    open spec fn word(&self) -> u64 {
        *self as u64
    }

    fn hash_word(&self) -> (r: u64) {
        *self as u64
    }

    fn duplicate(&self) -> (r: Self) {
        *self
    }
}

impl Element for isize {
    open spec fn word(&self) -> u64 {
        *self as u64
    }

    fn hash_word(&self) -> (r: u64) {
        *self as u64
    }

    fn duplicate(&self) -> (r: Self) {
        *self
    }
}

} // verus!
