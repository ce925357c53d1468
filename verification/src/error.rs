//! Errors.

use vstd::prelude::*;

verus! {

/// The errors of hashing and verifying through [`Sha512Crypt`](crate::Sha512Crypt).
#[derive(Debug, Clone, Copy, PartialEq, Eq)]
pub enum Error {
    /// The algorithm is not SHA512-crypt.
    Algorithm,
    /// The hash string is malformed.
    EncodingInvalid,
    /// A parameter has an invalid value.
    ParamInvalid {
        /// The parameter.
        name: &'static str,
    },
    /// The parameters are malformed.
    ParamsInvalid,
    /// The password does not match.
    PasswordInvalid,
    /// The salt is invalid.
    SaltInvalid,
    /// A version was asked for; the algorithm has none.
    Version,
}

} // verus!
