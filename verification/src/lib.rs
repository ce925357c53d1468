//! SHA512-crypt (`$6$`) password hashing, verified.
//!
//! [`hash`] hashes a password with a new random salt, [`hash_with_salt`] with a
//! given one, and [`verify`] checks a password against a hash string. A
//! [`Password`] is wiped from memory when it is dropped. [`Sha512Crypt`] offers
//! the same algorithm over hash strings in Modular Crypt Format, with
//! parameters ([`Sha512CryptParams`]) and salts of raw bytes.
//!
//! Every function says in its contract exactly what it returns, in terms of
//! SHA-512 alone. [`laws`] states what holds of them together, and the other
//! modules of laws say what the results are, byte by byte, and how the results
//! of two calls are related.

pub mod api;
pub mod backend;
pub mod base64;
pub mod call_laws;
pub mod crypt;
pub mod decimal;
pub mod error;
pub mod hasher;
pub mod hasher_laws;
pub mod laws;
pub mod modular;
pub mod params;
pub mod part_laws;
pub mod password;
pub mod secret;
pub mod setting;
pub mod text;
pub mod setting_laws;
pub mod sum_laws;
pub mod text_laws;

pub use api::{hash, hash_with_salt, verify, InvalidHash};
pub use error::Error;
pub use hasher::Sha512Crypt;
pub use modular::PasswordHash;
pub use params::Sha512CryptParams;
pub use password::Password;
