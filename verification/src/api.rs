//! Hashing and verifying.

use crate::backend::{constant_time_eq, random_bytes, zeros};
use crate::base64::{
    b64_char, b64_char_of, digest_text, is_b64_char, is_b64_text, lemma_b64_char, lemma_digest_text,
};
use crate::crypt::{crypt_inner, crypt_text, hash_text, last_sum};
use crate::decimal::{decimal, is_digit, lemma_decimal_value};
use crate::password::Password;
use crate::setting::{
    clamp_rounds, cut_salt, lemma_read_setting_text, no_dollar, push_setting, rounds_as_nat,
    rounds_text, setting_rounds, setting_salt, setting_text, starts_with, DOLLAR, ROUNDS_DEFAULT,
    SALT_LEN_MAX, SHA512_SALT_PREFIX,
};
use crate::text::{is_ascii_bytes, lemma_ascii_valid_utf8, lemma_utf8_between_ascii};
use vstd::prelude::*;
use vstd::utf8::{encode_utf8, valid_utf8};

verus! {

/// The error of [`verify`] for a string that is not a well-formed
/// SHA512-crypt (`$6$...$...`) hash.
///
/// It is not a password mismatch, which is `Ok(false)`: a caller can tell a
/// hash of another kind, or a damaged one, from a failed attempt.
#[derive(Debug, Clone, Copy, PartialEq, Eq, Hash)]
pub struct InvalidHash;

impl InvalidHash {
    /// The error in words.
    pub fn to_string(&self) -> (text: String)
        ensures
            text@ == "not a well-formed SHA512-crypt ($6$) hash"@,
    {
        "not a well-formed SHA512-crypt ($6$) hash".to_owned()
    }
}

/// Where the last `$` is, or -1 if there is none.
pub open spec fn last_dollar(s: Seq<u8>) -> int
    decreases s.len(),
{
    if s.len() == 0 {
        -1
    } else if s.last() == DOLLAR {
        s.len() - 1
    } else {
        last_dollar(s.drop_last())
    }
}

/// Whether `hash` is `$6$`, a setting, `$` and the text of a digest, as far as
/// [`verify`] looks: it starts with `$6$` and has a `$` after that.
pub open spec fn is_hash(hash: Seq<u8>) -> bool {
    SHA512_SALT_PREFIX@.is_prefix_of(hash) && last_dollar(hash.skip(3)) >= 0
}

/// The part of a hash string before the last `$`: its setting.
pub open spec fn setting_of(hash: Seq<u8>) -> Seq<u8> {
    hash.take(3 + last_dollar(hash.skip(3)))
}

/// Whether a password has the hash string `hash`.
pub open spec fn hash_matches(key: Seq<u8>, hash: Seq<u8>) -> bool {
    crypt_text(key, setting_of(hash)) == hash
}

/// The salt made of random bytes: the lower six bits of each, as a character.
pub open spec fn salt_chars(random: Seq<u8>) -> Seq<u8> {
    Seq::new(random.len(), |i: int| b64_char(random[i] as int % 64))
}

/// The number of rounds that a new hash string names for a request: none for
/// the default, and the request brought into range otherwise.
pub open spec fn requested_rounds(rounds: Option<u32>) -> Option<nat> {
    match rounds {
        Some(n) => if n == ROUNDS_DEFAULT {
            None
        } else {
            Some(clamp_rounds(n as nat))
        },
        None => None,
    }
}

/// A place with `$` and none after it is the last one.
pub proof fn lemma_last_dollar_is(s: Seq<u8>, k: int)
    requires
        0 <= k < s.len(),
        s[k] == DOLLAR,
        no_dollar(s.skip(k + 1)),
    ensures
        last_dollar(s) == k,
    decreases s.len(),
{
    if k < s.len() - 1 {
        assert(s.skip(k + 1)[s.len() - k - 2] != DOLLAR);
        let rest = s.drop_last().skip(k + 1);
        assert forall|i: int| 0 <= i < rest.len() implies #[trigger] rest[i] != DOLLAR by {
            assert(s.skip(k + 1)[i] != DOLLAR);
        }
        lemma_last_dollar_is(s.drop_last(), k);
    }
}

proof fn lemma_last_dollar(s: Seq<u8>)
    ensures
        -1 <= last_dollar(s) < s.len(),
    decreases s.len(),
{
    if s.len() > 0 {
        lemma_last_dollar(s.drop_last());
    }
}

/// The text of a hash is UTF-8 if and only if the salt is: the rest of it is
/// ASCII.
pub proof fn lemma_hash_text_utf8(key: Seq<u8>, salt: Seq<u8>, rounds: Option<nat>)
    ensures
        valid_utf8(hash_text(key, salt, rounds)) <==> valid_utf8(salt),
{
    let head = SHA512_SALT_PREFIX@ + rounds_text(rounds);
    let digest = last_sum(key, salt, rounds);
    let tail = seq![DOLLAR] + digest_text(digest);
    lemma_digest_text(digest);
    assert(is_ascii_bytes(head)) by {
        if let Some(n) = rounds {
            lemma_decimal_value(n);
            assert(forall|i: int| 0 <= i < decimal(n).len() ==> is_digit(#[trigger] decimal(n)[i]));
        }
    }
    lemma_utf8_between_ascii(head, salt, tail);
    assert(hash_text(key, salt, rounds) =~= head + salt + tail);
}

/// Where the last `$` is.
fn rfind_dollar(s: &[u8]) -> (k: Option<usize>)
    ensures
        k is None <==> last_dollar(s@) < 0,
        k matches Some(i) ==> i == last_dollar(s@),
{
    let mut k: usize = s.len();
    assert(s@.take(k as int) =~= s@);
    while k > 0
        invariant
            k <= s@.len(),
            last_dollar(s@.take(k as int)) == last_dollar(s@),
        decreases k,
    {
        if s[k - 1] == DOLLAR {
            return Some(k - 1);
        }
        assert(s@.take(k as int).drop_last() =~= s@.take(k - 1));
        k = k - 1;
    }
    None
}

/// Hashes a password with a salt of the caller's, and wipes the password.
/// Returns the hash string as bytes.
///
/// `salt` is a setting: the salt alone, or with `$6$` before it, or with
/// `$6$rounds=N$`. The salt ends at a `$`, or after 16 bytes, and the rounds
/// are brought into the range from 1000 to 999,999,999.
pub fn hash_and_wipe(password: &mut Password, salt: &[u8]) -> (hash: Vec<u8>)
    ensures
        hash@ == crypt_text(old(password)@, salt@),
        final(password)@ == zeros(old(password)@.len()),
{
    let hash: Vec<u8> = crypt_inner(password.as_bytes(), salt);
    password.wipe();
    hash
}

/// As [`hash_and_wipe`], with the hash string as text. If what is used of the
/// salt is not UTF-8, the hash string is no text, and the empty string comes
/// back.
pub fn hash_text_and_wipe(password: &mut Password, salt: &[u8]) -> (hash: String)
    ensures
        valid_utf8(setting_salt(salt@)) ==> encode_utf8(hash@) == crypt_text(old(password)@, salt@),
        !valid_utf8(setting_salt(salt@)) ==> hash@ == Seq::<char>::empty(),
        final(password)@ == zeros(old(password)@.len()),
{
    let hash: Vec<u8> = hash_and_wipe(password, salt);
    proof {
        lemma_hash_text_utf8(old(password)@, setting_salt(salt@), setting_rounds(salt@));
    }
    match String::from_utf8(hash) {
        Ok(text) => text,
        Err(_) => String::new(),
    }
}

/// Hashes a password with a salt of the caller's, and returns the hash string
/// as bytes. As [`hash_and_wipe`], with the password taken by value.
pub fn hash_bytes_with_salt(password: Password, salt: &[u8]) -> (hash: Vec<u8>)
    ensures
        hash@ == crypt_text(password@, salt@),
{
    let mut password: Password = password;
    hash_and_wipe(&mut password, salt)
}

/// Hashes a password with a salt of the caller's.
///
/// As [`hash_text_and_wipe`], with the password taken by value. The hash string
/// is text for every ASCII salt. For a salt of which the used part is not UTF-8
/// the empty string comes back, which no password is accepted for.
#[must_use]
pub fn hash_with_salt(password: Password, salt: &[u8]) -> (hash: String)
    ensures
        valid_utf8(setting_salt(salt@)) ==> encode_utf8(hash@) == crypt_text(password@, salt@),
        !valid_utf8(setting_salt(salt@)) ==> hash@ == Seq::<char>::empty(),
{
    let mut password: Password = password;
    hash_text_and_wipe(&mut password, salt)
}

/// Turns random bytes into salt characters.
pub fn encode_salt(buf: &mut [u8])
    ensures
        final(buf)@ == salt_chars(old(buf)@),
{
    let mut i: usize = 0;
    while i < buf.len()
        invariant
            i <= buf@.len(),
            buf@.len() == old(buf)@.len(),
            forall|j: int| 0 <= j < i ==> #[trigger] buf@[j] == b64_char(old(buf)@[j] as int % 64),
            forall|j: int| i <= j < buf@.len() ==> #[trigger] buf@[j] == old(buf)@[j],
        decreases buf@.len() - i,
    {
        let b: u8 = buf[i];
        buf[i] = b64_char_of(b % 64);
        i = i + 1;
    }
    assert(buf@ =~= salt_chars(old(buf)@));
}

/// Fills `buf` with random salt characters. Panics if the system's generator of
/// random numbers fails.
pub fn generate_salt(buf: &mut [u8])
    ensures
        exists|random: Seq<u8>|
            random.len() == old(buf)@.len() && final(buf)@ == #[trigger] salt_chars(random),
{
    random_bytes(buf);
    encode_salt(buf);
}

/// Hashes a password with a given salt and a requested number of rounds, and
/// wipes the password.
pub fn hash_rounds_and_wipe(
    password: &mut Password,
    rounds: Option<u32>,
    salt: &[u8],
) -> (hash: String)
    requires
        is_b64_text(salt@),
    ensures
        encode_utf8(hash@) == hash_text(old(password)@, cut_salt(salt@), requested_rounds(rounds)),
        final(password)@ == zeros(old(password)@.len()),
{
    let custom: Option<u32> = match rounds {
        Some(n) => if n == ROUNDS_DEFAULT { None } else { Some(n) },
        None => None,
    };
    let mut setting: Vec<u8> = Vec::new();
    push_setting(salt, custom, &mut setting);
    proof {
        let text = setting_text(salt@, rounds_as_nat(custom));
        assert(forall|i: int| 0 <= i < salt@.len() ==> is_b64_char(#[trigger] salt@[i]));
        assert(no_dollar(salt@));
        lemma_read_setting_text(salt@, rounds_as_nat(custom), Seq::empty());
        assert(text + Seq::<u8>::empty() =~= text);
        assert(setting@ =~= text);
        assert(is_ascii_bytes(cut_salt(salt@)));
        lemma_ascii_valid_utf8(cut_salt(salt@));
    }
    hash_text_and_wipe(password, &setting)
}

/// Hashes a password with a new random salt of 16 characters.
///
/// `rounds` is the number of rounds. `None` and `Some(5000)` mean the default
/// of 5000, which the hash string does not name; any other number is brought
/// into the range from 1000 to 999,999,999 and named.
///
/// Panics if the system's generator of random numbers fails: there is no salt
/// then.
#[must_use]
pub fn hash(password: Password, rounds: Option<u32>) -> (hash: String)
    ensures
        exists|random: Seq<u8>|
            random.len() == SALT_LEN_MAX && encode_utf8(hash@) == hash_text(
                password@,
                #[trigger] salt_chars(random),
                requested_rounds(rounds),
            ),
{
    let mut salt: [u8; 16] = [0; 16];
    generate_salt(&mut salt);
    proof {
        let random = choose|random: Seq<u8>|
            random.len() == 16 && salt@ == #[trigger] salt_chars(random);
        assert forall|i: int| 0 <= i < salt@.len() implies is_b64_char(#[trigger] salt@[i]) by {
            lemma_b64_char(random[i] as int % 64);
        }
        assert(cut_salt(salt@) =~= salt@);
    }
    let mut password: Password = password;
    hash_rounds_and_wipe(&mut password, rounds, &salt)
}

/// Checks a password against a hash string, and wipes the password, whatever
/// comes of it.
///
/// Takes the setting from `hash`, computes the hash string of `password`
/// under it and compares the two in constant time. A string that does not
/// start with `$6$`, or has no `$` after that, is an error.
pub fn verify_and_wipe(password: &mut Password, hash: &str) -> (result: Result<bool, InvalidHash>)
    ensures
        result is Ok <==> is_hash(encode_utf8(hash@)),
        result matches Err(e) ==> e == InvalidHash,
        result matches Ok(equal) ==> equal == hash_matches(old(password)@, encode_utf8(hash@)),
        final(password)@ == zeros(old(password)@.len()),
{
    let bytes: &[u8] = hash.as_bytes();
    if !starts_with(bytes, &SHA512_SALT_PREFIX) {
        password.wipe();
        return Err(InvalidHash);
    }
    let rest: &[u8] = &bytes[3..bytes.len()];
    assert(rest@ =~= bytes@.skip(3));
    match rfind_dollar(rest) {
        None => {
            password.wipe();
            Err(InvalidHash)
        },
        Some(hash_start) => {
            proof {
                lemma_last_dollar(rest@);
            }
            let setting: &[u8] = &bytes[0..3 + hash_start];
            assert(setting@ =~= setting_of(bytes@));
            let computed: Vec<u8> = hash_and_wipe(password, setting);
            Ok(constant_time_eq(&computed, bytes))
        },
    }
}

/// Checks a password against a hash string. As [`verify_and_wipe`], with the
/// password taken by value.
///
/// `Ok(true)` and `Ok(false)` say whether the password is accepted; the error
/// is for a string that is not a hash string of SHA512-crypt.
pub fn verify(password: Password, hash: &str) -> (result: Result<bool, InvalidHash>)
    ensures
        result is Ok <==> is_hash(encode_utf8(hash@)),
        result matches Err(e) ==> e == InvalidHash,
        result matches Ok(equal) ==> equal == hash_matches(password@, encode_utf8(hash@)),
{
    let mut password: Password = password;
    verify_and_wipe(&mut password, hash)
}

} // verus!
