//! SHA512-crypt as a hasher of passwords with parameters, over hash strings in
//! Modular Crypt Format.

use crate::api::{hash_bytes_with_salt, lemma_hash_text_utf8};
use crate::backend::constant_time_eq;
use crate::base64::{
    b64_encode, digest_text, encode_crypt_base64, is_b64_char, is_b64_text, lemma_b64_encode,
    lemma_digest_text,
};
use crate::crypt::{hash_text, last_sum};
use crate::decimal::{all_digits, atoi_u32, decimal, digits_value, is_digit, lemma_decimal_value};
use crate::error::Error;
use crate::modular::{
    fields_of, id_of, is_field, is_field_char, is_modular, lemma_split_dollar, split_dollar,
    split_hash, PasswordHash,
};
use crate::params::Sha512CryptParams;
use crate::password::Password;
use crate::setting::{
    clamp_rounds, cut_salt, find_dollar, lemma_first_dollar, lemma_read_setting_digits,
    lemma_read_setting_text, no_dollar, push_setting, setting_text, starts_with, DOLLAR,
    ROUNDS_DEFAULT, SALT_LEN_MAX, SHA512_ROUNDS_PREFIX, SHA512_SALT_PREFIX,
};
use crate::text::lemma_ascii_valid_utf8;
use vstd::prelude::*;
use vstd::utf8::encode_utf8;

verus! {

/// The identifier of SHA512-crypt.
pub open spec fn sha512_crypt_id() -> Seq<u8> {
    seq!['6' as u8]
}

/// The number of rounds that a hash string made with `n` rounds names.
pub open spec fn named_rounds(n: nat) -> Option<nat> {
    if n == ROUNDS_DEFAULT {
        None
    } else {
        Some(n)
    }
}

/// The hash string for a salt of raw bytes: its base64 form is the salt that
/// the hash string holds, up to 16 characters.
pub open spec fn raw_salt_hash_text(key: Seq<u8>, raw_salt: Seq<u8>, rounds: nat) -> Seq<u8> {
    hash_text(key, cut_salt(b64_encode(raw_salt)), named_rounds(rounds))
}

/// Whether a field names a number of rounds: `rounds=` and at least one digit.
pub open spec fn is_rounds_field(field: Seq<u8>) -> bool {
    &&& SHA512_ROUNDS_PREFIX@.is_prefix_of(field)
    &&& field.len() > 7
    &&& all_digits(field.skip(7))
}

/// The number of rounds that the fields of a hash string name.
pub open spec fn fields_rounds(fields: Seq<Seq<u8>>) -> Option<nat> {
    if fields.len() > 0 && is_rounds_field(fields[0]) {
        Some(clamp_rounds(digits_value(fields[0].skip(7))))
    } else {
        None
    }
}

/// Whether the fields are those of a SHA512-crypt hash string: the rounds if
/// they are named, the salt, the text of the digest, and no more.
pub open spec fn fields_complete(fields: Seq<Seq<u8>>) -> bool {
    fields.len() == (if fields.len() > 0 && is_rounds_field(fields[0]) {
        3int
    } else {
        2
    })
}

/// Whether a password has the digest that the last of the fields spells, with
/// the salt in the field before, up to 16 characters, and the rounds named.
pub open spec fn fields_match(key: Seq<u8>, fields: Seq<Seq<u8>>) -> bool {
    let salt = cut_salt(fields[fields.len() - 2]);
    digest_text(last_sum(key, salt, fields_rounds(fields))) == fields.last()
}

/// What checking a password against a hash string comes to.
pub open spec fn verify_outcome(key: Seq<u8>, hash: Seq<u8>) -> Result<(), Error> {
    if !is_modular(hash) {
        Err(Error::EncodingInvalid)
    } else if id_of(hash) != sha512_crypt_id() {
        Err(Error::Algorithm)
    } else if !fields_complete(fields_of(hash)) {
        Err(Error::EncodingInvalid)
    } else if fields_match(key, fields_of(hash)) {
        Ok(())
    } else {
        Err(Error::PasswordInvalid)
    }
}

/// The fields of a hash string as bytes.
pub open spec fn field_bytes(fields: Seq<&str>) -> Seq<Seq<u8>> {
    Seq::new(fields.len(), |i: int| encode_utf8(fields[i]@))
}

/// Whether no field has a `$`, which is what stands between fields.
pub open spec fn fields_apart(fields: Seq<Seq<u8>>) -> bool {
    forall|i: int| 0 <= i < fields.len() ==> no_dollar(#[trigger] fields[i])
}

/// What checking a password against the parts of a hash string comes to.
pub open spec fn parts_outcome(key: Seq<u8>, id: Seq<u8>, fields: Seq<Seq<u8>>) -> Result<
    (),
    Error,
> {
    if id != sha512_crypt_id() {
        Err(Error::Algorithm)
    } else if !fields_apart(fields) || !fields_complete(fields) {
        Err(Error::EncodingInvalid)
    } else if fields_match(key, fields) {
        Ok(())
    } else {
        Err(Error::PasswordInvalid)
    }
}

/// A SHA512-crypt hasher: it holds the parameters for new hashes. Verification
/// takes them from the hash string.
#[derive(Clone, Copy, Debug, PartialEq, Eq)]
pub struct Sha512Crypt {
    params: Sha512CryptParams,
}

impl View for Sha512Crypt {
    type V = Sha512CryptParams;

    /// The parameters.
    closed spec fn view(&self) -> Sha512CryptParams {
        self.params
    }
}

/// Characters of the base64 alphabet are not `$`, and can stand in a field.
pub proof fn lemma_b64_text_field(s: Seq<u8>)
    requires
        is_b64_text(s),
    ensures
        no_dollar(s),
        forall|i: int| 0 <= i < s.len() ==> is_field_char(#[trigger] s[i]),
{
    assert(forall|i: int| 0 <= i < s.len() ==> is_b64_char(#[trigger] s[i]));
}

/// The pieces of a hash string whose salt is a well-formed field.
pub proof fn lemma_hash_text_fields(key: Seq<u8>, salt: Seq<u8>, rounds: Option<nat>)
    requires
        is_field(salt),
    ensures
        is_modular(hash_text(key, salt, rounds)),
        id_of(hash_text(key, salt, rounds)) == sha512_crypt_id(),
        fields_of(hash_text(key, salt, rounds)) == (match rounds {
            Some(n) => seq![SHA512_ROUNDS_PREFIX@ + decimal(n)],
            None => Seq::empty(),
        }) + seq![salt, digest_text(last_sum(key, salt, rounds))],
{
    let hash = hash_text(key, salt, rounds);
    let digest = digest_text(last_sum(key, salt, rounds));
    lemma_digest_text(last_sum(key, salt, rounds));
    lemma_b64_text_field(digest);
    assert(no_dollar(salt)) by {
        assert(forall|i: int| 0 <= i < salt.len() ==> is_field_char(#[trigger] salt[i]));
    }
    let id = sha512_crypt_id();
    let tail = salt.push(DOLLAR) + digest;
    lemma_split_dollar(digest, Seq::empty());
    lemma_split_dollar(salt, digest);
    match rounds {
        Some(n) => {
            lemma_decimal_value(n);
            let digits = decimal(n);
            assert(forall|i: int| 0 <= i < digits.len() ==> is_digit(#[trigger] digits[i]));
            let field = SHA512_ROUNDS_PREFIX@ + digits;
            assert(no_dollar(field));
            assert(is_field(field));
            lemma_split_dollar(field, tail);
            lemma_split_dollar(id, field.push(DOLLAR) + tail);
            assert(hash.skip(1) =~= id.push(DOLLAR) + (field.push(DOLLAR) + tail));
            assert(split_dollar(hash.skip(1)) =~= seq![id, field, salt, digest]);
            assert(fields_of(hash) =~= seq![field] + seq![salt, digest]);
        },
        None => {
            lemma_split_dollar(id, tail);
            assert(hash.skip(1) =~= id.push(DOLLAR) + tail);
            assert(split_dollar(hash.skip(1)) =~= seq![id, salt, digest]);
            assert(fields_of(hash) =~= Seq::<Seq<u8>>::empty() + seq![salt, digest]);
        },
    }
}

/// Whether `id` identifies SHA512-crypt.
fn is_sha512_crypt_id(id: &str) -> (yes: bool)
    ensures
        yes == (encode_utf8(id@) == sha512_crypt_id()),
{
    let bytes: &[u8] = id.as_bytes();
    let yes: bool = bytes.len() == 1 && bytes[0] == 0x36;
    assert(yes ==> bytes@ =~= sha512_crypt_id());
    yes
}

impl Sha512Crypt {
    /// A hasher with the given parameters.
    pub fn new(params: Sha512CryptParams) -> (hasher: Self)
        ensures
            hasher@ == params,
    {
        Self { params }
    }

    /// The parameters for new hashes.
    pub fn params(&self) -> (params: Sha512CryptParams)
        ensures
            params == self@,
    {
        self.params
    }

    /// Hashes a password with the given salt and parameters.
    ///
    /// `algorithm` can only be `6`, and there are no versions. The salt is raw
    /// bytes, at least one; it is held in base64.
    pub fn hash_password_customized(
        &self,
        password: &[u8],
        salt: &[u8],
        algorithm: Option<&str>,
        version: Option<u32>,
        params: Sha512CryptParams,
    ) -> (hash: Result<PasswordHash, Error>)
        ensures
            match algorithm {
                Some(id) if encode_utf8(id@) != sha512_crypt_id() => hash matches Err(e) && e
                    == Error::Algorithm,
                _ => if version is Some {
                    hash matches Err(e) && e == Error::Version
                } else if salt@.len() == 0 {
                    hash matches Err(e) && e == Error::SaltInvalid
                } else {
                    hash matches Ok(h) && encode_utf8(h@) == raw_salt_hash_text(
                        password@,
                        salt@,
                        params@,
                    )
                },
            },
    {
        if let Some(id) = algorithm {
            if !is_sha512_crypt_id(id) {
                return Err(Error::Algorithm);
            }
        }
        if version.is_some() {
            return Err(Error::Version);
        }
        if salt.len() == 0 {
            return Err(Error::SaltInvalid);
        }
        let mut encoded: Vec<u8> = encode_crypt_base64(salt);
        encoded.truncate(SALT_LEN_MAX);
        proof {
            lemma_b64_encode(salt@);
            assert(encoded@ =~= cut_salt(b64_encode(salt@)));
            lemma_b64_text_field(encoded@);
        }
        let rounds: u32 = params.rounds();
        let custom: Option<u32> = if rounds != ROUNDS_DEFAULT { Some(rounds) } else { None };
        let mut setting: Vec<u8> = Vec::new();
        push_setting(&encoded, custom, &mut setting);
        let copy: Vec<u8> = vstd::slice::slice_to_vec(password);
        let text: Vec<u8> = hash_bytes_with_salt(Password::from_bytes(copy), &setting);
        proof {
            let named = named_rounds(params@);
            assert(setting@ =~= setting_text(encoded@, named) + Seq::<u8>::empty());
            lemma_read_setting_text(encoded@, named, Seq::empty());
            assert(cut_salt(encoded@) =~= encoded@);
            assert(text@ == hash_text(password@, encoded@, named));
            lemma_hash_text_fields(password@, encoded@, named);
            lemma_ascii_valid_utf8(encoded@);
            lemma_hash_text_utf8(password@, encoded@, named);
        }
        match String::from_utf8(text) {
            Ok(text) => PasswordHash::new(text),
            Err(_) => Err(Error::EncodingInvalid),
        }
    }

    /// Hashes a password with the given salt and parameters.
    pub fn hash_password_with_params(
        &self,
        password: &[u8],
        salt: &[u8],
        params: Sha512CryptParams,
    ) -> (hash: Result<PasswordHash, Error>)
        ensures
            if salt@.len() == 0 {
                hash matches Err(e) && e == Error::SaltInvalid
            } else {
                hash matches Ok(h) && encode_utf8(h@) == raw_salt_hash_text(
                    password@,
                    salt@,
                    params@,
                )
            },
    {
        self.hash_password_customized(password, salt, None, None, params)
    }

    /// Hashes a password with the given salt and the hasher's parameters.
    pub fn hash_password_with_salt(&self, password: &[u8], salt: &[u8]) -> (hash: Result<
        PasswordHash,
        Error,
    >)
        ensures
            if salt@.len() == 0 {
                hash matches Err(e) && e == Error::SaltInvalid
            } else {
                hash matches Ok(h) && encode_utf8(h@) == raw_salt_hash_text(
                    password@,
                    salt@,
                    self@@,
                )
            },
    {
        self.hash_password_customized(password, salt, None, None, self.params)
    }

    /// Checks a password against the parts of a hash string: its identifier and
    /// the fields after it.
    ///
    /// The fields need not be well formed, as those of [`verify_password`] are:
    /// the salt, for one, may be empty.
    ///
    /// [`verify_password`]: Sha512Crypt::verify_password
    pub fn verify_parts(&self, password: &[u8], id: &str, fields: &[&str]) -> (result: Result<
        (),
        Error,
    >)
        ensures
            result == parts_outcome(password@, encode_utf8(id@), field_bytes(fields@)),
    {
        if !is_sha512_crypt_id(id) {
            return Err(Error::Algorithm);
        }
        if !are_apart(fields) {
            return Err(Error::EncodingInvalid);
        }
        let ghost f = field_bytes(fields@);
        if fields.len() == 0 {
            return Err(Error::EncodingInvalid);
        }
        let first: &[u8] = fields[0].as_bytes();
        let named: bool = starts_with(first, &SHA512_ROUNDS_PREFIX) && first.len() > 7
            && only_digits(&first[7..first.len()]);
        assert(named == is_rounds_field(f[0])) by {
            if first@.len() > 7 {
                assert(first@.subrange(7, first@.len() as int) =~= first@.skip(7));
            }
        }
        let wanted: usize = if named { 3 } else { 2 };
        if fields.len() != wanted {
            return Err(Error::EncodingInvalid);
        }
        let salt: &[u8] = fields[wanted - 2].as_bytes();
        let expected: &[u8] = fields[wanted - 1].as_bytes();

        // The setting, as the hash string has it. Reading it brings the rounds
        // into range and cuts the salt.
        let mut setting: Vec<u8> = Vec::new();
        setting.extend_from_slice(&SHA512_SALT_PREFIX);
        if named {
            setting.extend_from_slice(first);
            setting.push(DOLLAR);
        }
        setting.extend_from_slice(salt);
        let copy: Vec<u8> = vstd::slice::slice_to_vec(password);
        let computed: Vec<u8> = hash_bytes_with_salt(Password::from_bytes(copy), &setting);
        let ghost digest = last_sum(password@, cut_salt(salt@), fields_rounds(f));
        proof {
            assert(no_dollar(f[wanted - 2]));
            if named {
                lemma_read_setting_digits(first@.skip(7), salt@, Seq::empty());
                assert(first@ =~= SHA512_ROUNDS_PREFIX@ + first@.skip(7)) by {
                    assert(SHA512_ROUNDS_PREFIX@ =~= first@.subrange(0, 7));
                }
                assert(setting@ =~= SHA512_SALT_PREFIX@ + (SHA512_ROUNDS_PREFIX@ + first@.skip(
                    7,
                )).push(DOLLAR) + salt@ + Seq::<u8>::empty());
            } else {
                lemma_read_setting_text(salt@, None, Seq::empty());
                assert(setting@ =~= setting_text(salt@, None) + Seq::<u8>::empty());
            }
            lemma_digest_text(digest);
        }
        let start: usize = computed.len() - 86;
        let text: &[u8] = &computed[start..computed.len()];
        assert(text@ =~= digest_text(digest));
        if constant_time_eq(text, expected) {
            Ok(())
        } else {
            Err(Error::PasswordInvalid)
        }
    }

    /// Checks a password against a hash string.
    ///
    /// Any well-formed `$6$` hash string is taken, also one whose rounds are
    /// out of range or whose salt is too long: the digest is what counts.
    pub fn verify_password(&self, password: &[u8], hash: &str) -> (result: Result<(), Error>)
        ensures
            result == verify_outcome(password@, encode_utf8(hash@)),
    {
        let (id, fields) = match split_hash(hash) {
            Ok(parts) => parts,
            Err(e) => return Err(e),
        };
        proof {
            let h = encode_utf8(hash@);
            assert(field_bytes(fields@) =~= fields_of(h));
            assert forall|i: int| 0 <= i < fields_of(h).len() implies no_dollar(
                #[trigger] fields_of(h)[i],
            ) by {
                assert(is_field(fields_of(h)[i]));
            }
        }
        self.verify_parts(password, id, fields.as_slice())
    }

    /// Checks a password against a hash that is known to be in Modular Crypt
    /// Format.
    pub fn verify_password_hash(&self, password: &[u8], hash: &PasswordHash) -> (result: Result<
        (),
        Error,
    >)
        ensures
            result == verify_outcome(password@, encode_utf8(hash@)),
    {
        self.verify_password(password, hash.as_str())
    }
}

/// Whether no field has a `$`.
fn are_apart(fields: &[&str]) -> (yes: bool)
    ensures
        yes == fields_apart(field_bytes(fields@)),
{
    let ghost f = field_bytes(fields@);
    let mut k: usize = 0;
    while k < fields.len()
        invariant
            k <= fields@.len(),
            f == field_bytes(fields@),
            forall|i: int| 0 <= i < k ==> no_dollar(#[trigger] f[i]),
        decreases fields@.len() - k,
    {
        let field: &[u8] = fields[k].as_bytes();
        proof {
            lemma_first_dollar(field@);
        }
        if find_dollar(field) < field.len() {
            assert(!no_dollar(f[k as int]));
            return false;
        }
        assert(field@.take(field@.len() as int) =~= f[k as int]);
        k = k + 1;
    }
    true
}

/// Whether every byte is an ASCII digit.
fn only_digits(s: &[u8]) -> (yes: bool)
    ensures
        yes == all_digits(s@),
{
    atoi_u32(s).is_some()
}

impl Default for Sha512Crypt {
    /// A hasher with the default parameters: 5000 rounds.
    fn default() -> (hasher: Self)
        ensures
            hasher@@ == ROUNDS_DEFAULT,
    {
        Self { params: Sha512CryptParams::default() }
    }
}

impl From<Sha512CryptParams> for Sha512Crypt {
    /// A hasher with the given parameters.
    fn from(params: Sha512CryptParams) -> (hasher: Self)
        ensures
            hasher@ == params,
    {
        Self::new(params)
    }
}

impl vstd::std_specs::convert::FromSpecImpl<Sha512CryptParams> for Sha512Crypt {
    open spec fn obeys_from_spec() -> bool {
        true
    }

    closed spec fn from_spec(params: Sha512CryptParams) -> Self {
        Self { params }
    }
}

} // verus!
