//! The four cryptographic primitives the crate is built on: SHA-512, a
//! constant-time comparison, a random number generator and a memory wipe.
//!
//! Each is a thin wrapper around one function of an outside crate. What the
//! wrappers' contracts say of those functions is taken on trust; everything
//! else in the crate is proved from it.

use sha2::Digest;
use subtle::ConstantTimeEq;
use vstd::prelude::*;
use zeroize::Zeroize;

verus! {

/// The SHA-512 digest of a byte string.
pub uninterp spec fn sha512(data: Seq<u8>) -> [u8; 64];

/// The bytes a SHA-512 hasher has been fed since it was made.
pub uninterp spec fn absorbed(hasher: sha2::Sha512) -> Seq<u8>;

/// The streaming SHA-512 hasher of the `sha2` crate.
#[verifier::external_type_specification]
#[verifier::external_body]
pub struct ExSha512(sha2::Sha512);

/// `sha2::Sha512::new` (of the `Digest` trait): a hasher that has been fed
/// nothing.
#[verifier::external_body]
fn hasher_new() -> (hasher: sha2::Sha512)
    ensures
        absorbed(hasher) == Seq::<u8>::empty(),
{
    sha2::Sha512::new()
}

/// `sha2::Sha512::update` (of the `Digest` trait): feeds `data` to the hasher,
/// after what it has been fed before.
#[verifier::external_body]
fn hasher_update(hasher: &mut sha2::Sha512, data: &[u8])
    ensures
        absorbed(*final(hasher)) == absorbed(*old(hasher)) + data@,
{
    hasher.update(data);
}

/// `sha2::Sha512::finalize` (of the `Digest` trait): the SHA-512 digest of all
/// the bytes the hasher has been fed.
#[verifier::external_body]
fn hasher_finalize(hasher: sha2::Sha512) -> (digest: [u8; 64])
    ensures
        digest == sha512(absorbed(hasher)),
{
    hasher.finalize().into()
}

/// A SHA-512 computation in progress. Its state is wiped when it is dropped, by
/// the `zeroize` feature of `sha2`.
pub struct Sha512Context {
    inner: sha2::Sha512,
}

impl View for Sha512Context {
    type V = Seq<u8>;

    /// The bytes fed so far.
    closed spec fn view(&self) -> Seq<u8> {
        absorbed(self.inner)
    }
}

impl Sha512Context {
    /// Starts a computation over no bytes.
    pub fn new() -> (ctx: Self)
        ensures
            ctx@ == Seq::<u8>::empty(),
    {
        Self { inner: hasher_new() }
    }

    /// Feeds `data`.
    pub fn update(&mut self, data: &[u8])
        ensures
            final(self)@ == old(self)@ + data@,
    {
        hasher_update(&mut self.inner, data);
    }

    /// Ends the computation and returns the digest of everything fed.
    pub fn finish(self) -> (digest: [u8; 64])
        ensures
            digest == sha512(self@),
    {
        hasher_finalize(self.inner)
    }
}

/// `ConstantTimeEq::ct_eq` of the `subtle` crate, for byte slices: whether the
/// two hold the same bytes. That the time taken does not depend on the bytes
/// is not part of the contract.
#[verifier::external_body]
fn slices_ct_eq(a: &[u8], b: &[u8]) -> (equal: bool)
    ensures
        equal == (a@ == b@),
{
    a.ct_eq(b).into()
}

/// Whether `a` and `b` hold the same bytes. Slices of different lengths are
/// told apart at once; otherwise the time taken does not depend on the bytes.
pub fn constant_time_eq(a: &[u8], b: &[u8]) -> (equal: bool)
    ensures
        equal == (a@ == b@),
{
    if a.len() != b.len() {
        return false;
    }
    slices_ct_eq(a, b)
}

/// `getrandom::fill`: fills `buf` with bytes from the system's generator. Any
/// bytes may come back. It panics when the generator fails, rather than leave
/// predictable bytes behind.
#[verifier::external_body]
pub(crate) fn random_bytes(buf: &mut [u8])
    ensures
        final(buf)@.len() == old(buf)@.len(),
{
    getrandom::fill(buf).expect("crypt-sha512: getrandom failed");
}

/// `n` zero bytes: a buffer that has been wiped.
pub open spec fn zeros(n: nat) -> Seq<u8> {
    Seq::new(n, |i: int| 0u8)
}

/// `Zeroize::zeroize` of the `zeroize` crate, for a byte slice: overwrites
/// every byte with zero. That the compiler cannot drop the writes is not part
/// of the contract.
#[verifier::external_body]
fn zeroize_slice(data: &mut [u8])
    ensures
        final(data)@ == zeros(old(data)@.len()),
    opens_invariants none
    no_unwind
{
    data.zeroize();
}

/// `Zeroize::zeroize` of the `zeroize` crate, for the bytes of a vector: as
/// [`zeroize_slice`], with the vector's length kept. It stands apart so that a
/// destructor, which must not unwind, can call it.
#[verifier::external_body]
fn zeroize_vec(data: &mut Vec<u8>)
    ensures
        final(data)@ == zeros(old(data)@.len()),
    opens_invariants none
    no_unwind
{
    data.as_mut_slice().zeroize();
}

/// Wipes a buffer that held a secret.
pub fn secure_zero_bytes(data: &mut [u8])
    ensures
        final(data)@ == zeros(old(data)@.len()),
    opens_invariants none
    no_unwind
{
    zeroize_slice(data);
}

/// Wipes a vector that held a secret. Its length stays.
pub fn secure_zero_vec(data: &mut Vec<u8>)
    ensures
        final(data)@ == zeros(old(data)@.len()),
    opens_invariants none
    no_unwind
{
    zeroize_vec(data);
}

} // verus!
