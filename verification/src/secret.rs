//! Buffers of a computation that are wiped when they are dropped.

use crate::backend::{secure_zero_bytes, secure_zero_vec, zeros};
use vstd::prelude::*;

verus! {

/// A digest that depends on a password.
pub struct SecretSum {
    bytes: [u8; 64],
}

impl View for SecretSum {
    type V = Seq<u8>;

    /// The digest.
    closed spec fn view(&self) -> Seq<u8> {
        self.bytes@
    }
}

impl SecretSum {
    /// Takes a digest.
    pub fn new(bytes: [u8; 64]) -> (sum: Self)
        ensures
            sum@ == bytes@,
    {
        Self { bytes }
    }

    /// The digest.
    pub fn as_bytes(&self) -> (bytes: &[u8; 64])
        ensures
            bytes@ == self@,
    {
        &self.bytes
    }
}

impl Drop for SecretSum {
    /// Wipes the digest.
    fn drop(&mut self)
        ensures
            final(self)@ == zeros(old(self)@.len()),
        opens_invariants none
        no_unwind
    {
        secure_zero_bytes(&mut self.bytes);
    }
}

/// A byte string that depends on a password.
pub struct SecretBytes {
    bytes: Vec<u8>,
}

impl View for SecretBytes {
    type V = Seq<u8>;

    /// The bytes.
    closed spec fn view(&self) -> Seq<u8> {
        self.bytes@
    }
}

impl SecretBytes {
    /// Takes a vector, without copying it.
    pub fn new(bytes: Vec<u8>) -> (secret: Self)
        ensures
            secret@ == bytes@,
    {
        Self { bytes }
    }

    /// The bytes.
    pub fn as_bytes(&self) -> (bytes: &[u8])
        ensures
            bytes@ == self@,
    {
        self.bytes.as_slice()
    }
}

impl Drop for SecretBytes {
    /// Wipes the bytes.
    fn drop(&mut self)
        ensures
            final(self)@ == zeros(old(self)@.len()),
        opens_invariants none
        no_unwind
    {
        secure_zero_vec(&mut self.bytes);
    }
}

} // verus!
