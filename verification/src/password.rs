//! Passwords.

use crate::backend::{secure_zero_vec, zeros};
use vstd::prelude::*;
use vstd::utf8::encode_utf8;

verus! {

/// `String::into_bytes`: the UTF-8 bytes of the string.
pub assume_specification[ String::into_bytes ](s: String) -> (bytes: Vec<u8>)
    ensures
        bytes@ == encode_utf8(s@),
;

/// A password whose memory is wiped when it is dropped.
///
/// Passwords are passed by value to [`hash`](crate::hash),
/// [`hash_with_salt`](crate::hash_with_salt) and [`verify`](crate::verify), so
/// that the plain text is gone when the call returns. There is no `Clone`, no
/// `Display` and no `Debug`, so that secrets are not copied or logged by
/// accident.
pub struct Password {
    bytes: Vec<u8>,
}

impl View for Password {
    type V = Seq<u8>;

    /// The bytes of the password.
    closed spec fn view(&self) -> Seq<u8> {
        self.bytes@
    }
}

impl Password {
    /// A password of raw bytes. The vector is moved in, and wiped when the
    /// password is dropped.
    pub fn from_bytes(bytes: Vec<u8>) -> (password: Self)
        ensures
            password@ == bytes@,
    {
        Self { bytes }
    }

    /// Takes the bytes out, without wiping them.
    pub fn into_bytes(self) -> (bytes: Vec<u8>)
        ensures
            bytes@ == self@,
    {
        let mut me = self;
        let mut bytes: Vec<u8> = Vec::new();
        core::mem::swap(&mut bytes, &mut me.bytes);
        bytes
    }

    /// The bytes of the password.
    pub(crate) fn as_bytes(&self) -> (bytes: &[u8])
        ensures
            bytes@ == self@,
    {
        self.bytes.as_slice()
    }

    /// Wipes the password. Its length stays.
    pub fn wipe(&mut self)
        ensures
            final(self)@ == zeros(old(self)@.len()),
        opens_invariants none
        no_unwind
    {
        secure_zero_vec(&mut self.bytes);
    }

    /// A description for logs that shows nothing of the password.
    pub fn debug_string(&self) -> (text: String)
        ensures
            text@ == "Password { .. }"@,
    {
        "Password { .. }".to_owned()
    }
}

impl From<String> for Password {
    /// Moves the string's buffer into a password; no copy is made.
    fn from(s: String) -> (password: Self)
        ensures
            password@ == encode_utf8(s@),
    {
        Self { bytes: s.into_bytes() }
    }
}

// `from` says in its own contract what it returns: a vector cannot be written
// down in a specification.
impl vstd::std_specs::convert::FromSpecImpl<String> for Password {
    open spec fn obeys_from_spec() -> bool {
        false
    }

    open spec fn from_spec(s: String) -> Self {
        arbitrary()
    }
}

impl From<&str> for Password {
    /// Copies the string into a password. Only the copy is wiped.
    fn from(s: &str) -> (password: Self)
        ensures
            password@ == encode_utf8(s@),
    {
        Self { bytes: vstd::slice::slice_to_vec(s.as_bytes()) }
    }
}

// `from` says in its own contract what it returns: a vector cannot be written
// down in a specification.
impl vstd::std_specs::convert::FromSpecImpl<&str> for Password {
    open spec fn obeys_from_spec() -> bool {
        false
    }

    open spec fn from_spec(s: &str) -> Self {
        arbitrary()
    }
}

impl From<Vec<u8>> for Password {
    /// Moves the vector into a password.
    fn from(bytes: Vec<u8>) -> (password: Self)
        ensures
            password@ == bytes@,
    {
        Self { bytes }
    }
}

impl vstd::std_specs::convert::FromSpecImpl<Vec<u8>> for Password {
    open spec fn obeys_from_spec() -> bool {
        true
    }

    closed spec fn from_spec(bytes: Vec<u8>) -> Self {
        Self { bytes }
    }
}

impl Drop for Password {
    /// Wipes the password.
    fn drop(&mut self)
        ensures
            final(self)@ == zeros(old(self)@.len()),
        opens_invariants none
        no_unwind
    {
        self.wipe();
    }
}

} // verus!
