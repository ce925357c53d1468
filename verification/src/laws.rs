//! Laws of the library: what holds of several of its functions together.

use crate::api::{
    hash_matches, is_hash, lemma_last_dollar_is, requested_rounds, salt_chars, setting_of,
};
use crate::base64::{
    b64_encode, digest_text, is_b64_char, is_b64_text, lemma_b64_char, lemma_b64_encode,
    lemma_digest_text, lemma_digest_text_injective,
};
use crate::crypt::{crypt_text, hash_text, last_sum};
use crate::decimal::{decimal, lemma_decimal_value};
use crate::error::Error;
use crate::hasher::{
    fields_complete, fields_match, fields_rounds, is_rounds_field, lemma_b64_text_field,
    lemma_hash_text_fields, named_rounds, parts_outcome, raw_salt_hash_text, verify_outcome,
};
use crate::modular::{
    fields_of, id_of, is_field, is_field_char, is_modular, lemma_split_first, split_dollar,
};
use crate::params::{params_text, read_params, rounds_in_range};
use crate::setting::{
    after_id, clamp_rounds, cut_salt, lemma_read_setting_text, lemma_setting_salt, names_rounds,
    no_dollar, reads_as_rounds, rounds_text, setting_rounds, setting_salt, setting_text, DOLLAR,
    ROUNDS_DEFAULT, ROUNDS_MAX, ROUNDS_MIN, SALT_LEN_MAX, SHA512_ROUNDS_PREFIX, SHA512_SALT_PREFIX,
};
use crate::text::{is_ascii_bytes, lemma_ascii_valid_utf8};
use vstd::prelude::*;
use vstd::utf8::{encode_utf8, encode_utf8_decode_utf8, valid_utf8};

verus! {

/// The hash string is `$6$`, the rounds if they are named, the salt, `$` and
/// 86 characters of the base64 alphabet; the salt has at most 16 bytes and no
/// `$`, and the rounds are in range.
pub proof fn law_hash_format(key: Seq<u8>, setting: Seq<u8>)
    ensures
        ({
            let salt = setting_salt(setting);
            let rounds = setting_rounds(setting);
            let digest = digest_text(last_sum(key, salt, rounds));
            &&& crypt_text(key, setting) == SHA512_SALT_PREFIX@ + rounds_text(rounds) + salt
                + seq![DOLLAR] + digest
            &&& salt.len() <= SALT_LEN_MAX
            &&& no_dollar(salt)
            &&& rounds matches Some(n) ==> ROUNDS_MIN <= n <= ROUNDS_MAX
            &&& digest.len() == 86
            &&& is_b64_text(digest)
        }),
{
    let salt = setting_salt(setting);
    let rounds = setting_rounds(setting);
    lemma_setting_salt(setting);
    lemma_digest_text(last_sum(key, salt, rounds));
    assert(crypt_text(key, setting) =~= SHA512_SALT_PREFIX@ + rounds_text(rounds) + salt
        + seq![DOLLAR] + digest_text(last_sum(key, salt, rounds)));
}

/// The setting of a hash string is found again.
proof fn lemma_setting_of_hash_text(key: Seq<u8>, salt: Seq<u8>, rounds: Option<nat>)
    ensures
        is_hash(hash_text(key, salt, rounds)),
        setting_of(hash_text(key, salt, rounds)) == setting_text(salt, rounds),
{
    let hash = hash_text(key, salt, rounds);
    let head = setting_text(salt, rounds);
    let digest = digest_text(last_sum(key, salt, rounds));
    lemma_digest_text(last_sum(key, salt, rounds));
    lemma_b64_text_field(digest);
    let rest = hash.skip(3);
    let k = head.len() - 3;
    assert(rest.skip(k + 1) =~= digest);
    lemma_last_dollar_is(rest, k);
    assert(SHA512_SALT_PREFIX@ =~= hash.subrange(0, 3));
    assert(hash.take(3 + k) =~= head);
}

/// A password is accepted by the hash string that was made of it, whatever
/// the setting was.
pub proof fn law_verify_accepts(key: Seq<u8>, setting: Seq<u8>)
    ensures
        is_hash(crypt_text(key, setting)),
        hash_matches(key, crypt_text(key, setting)),
{
    let salt = setting_salt(setting);
    let rounds = setting_rounds(setting);
    lemma_setting_salt(setting);
    lemma_setting_of_hash_text(key, salt, rounds);
    lemma_read_setting_text(salt, rounds, Seq::empty());
    assert(setting_text(salt, rounds) + Seq::<u8>::empty() =~= setting_text(salt, rounds));
    assert(cut_salt(salt) =~= salt);
}

/// A hash string accepts exactly the passwords that lead to the same last sum.
pub proof fn law_verify_compares_sums(key: Seq<u8>, other: Seq<u8>, setting: Seq<u8>)
    ensures
        hash_matches(other, crypt_text(key, setting)) <==> last_sum(
            other,
            setting_salt(setting),
            setting_rounds(setting),
        ) == last_sum(key, setting_salt(setting), setting_rounds(setting)),
{
    let salt = setting_salt(setting);
    let rounds = setting_rounds(setting);
    let hash = crypt_text(key, setting);
    lemma_setting_salt(setting);
    lemma_setting_of_hash_text(key, salt, rounds);
    lemma_read_setting_text(salt, rounds, Seq::empty());
    assert(setting_text(salt, rounds) + Seq::<u8>::empty() =~= setting_text(salt, rounds));
    assert(cut_salt(salt) =~= salt);
    let theirs = crypt_text(other, setting_of(hash));
    assert(theirs == hash_text(other, salt, rounds));
    if theirs == hash {
        let n = setting_text(salt, rounds).len() as int + 1;
        assert(hash.skip(n) =~= digest_text(last_sum(key, salt, rounds)));
        assert(theirs.skip(n) =~= digest_text(last_sum(other, salt, rounds)));
        lemma_last_sum_len(key, salt, rounds);
        lemma_last_sum_len(other, salt, rounds);
        lemma_digest_text_injective(
            last_sum(key, salt, rounds),
            last_sum(other, salt, rounds),
        );
    }
}

proof fn lemma_last_sum_len(key: Seq<u8>, salt: Seq<u8>, rounds: Option<nat>)
    ensures
        last_sum(key, salt, rounds).len() == 64,
{
}

/// The salt of a new hash string has 16 characters of the base64 alphabet.
pub proof fn law_new_salt(random: Seq<u8>)
    requires
        random.len() == SALT_LEN_MAX,
    ensures
        salt_chars(random).len() == SALT_LEN_MAX,
        is_b64_text(salt_chars(random)),
{
    let salt = salt_chars(random);
    assert forall|i: int| 0 <= i < salt.len() implies is_b64_char(#[trigger] salt[i]) by {
        lemma_b64_char(random[i] as int % 64);
    }
}

/// A password is accepted by the new hash string that was made of it, whatever
/// the random bytes and the rounds asked for were.
pub proof fn law_new_hash_verifies(key: Seq<u8>, random: Seq<u8>, rounds: Option<u32>)
    requires
        random.len() == SALT_LEN_MAX,
    ensures
        is_hash(hash_text(key, salt_chars(random), requested_rounds(rounds))),
        hash_matches(key, hash_text(key, salt_chars(random), requested_rounds(rounds))),
{
    let salt = salt_chars(random);
    let named = requested_rounds(rounds);
    law_new_salt(random);
    lemma_b64_text_field(salt);
    lemma_hash_text_is_crypt_text(key, salt, named);
    law_verify_accepts(key, setting_text(salt, named));
}

/// A hash string for a salt without `$` of at most 16 bytes, and rounds in
/// range, is the one that the text of that setting gives.
pub proof fn lemma_hash_text_is_crypt_text(key: Seq<u8>, salt: Seq<u8>, rounds: Option<nat>)
    requires
        no_dollar(salt),
        salt.len() <= SALT_LEN_MAX,
        rounds matches Some(n) ==> rounds_in_range(n),
    ensures
        hash_text(key, salt, rounds) == crypt_text(key, setting_text(salt, rounds)),
{
    lemma_read_setting_text(salt, rounds, Seq::empty());
    assert(setting_text(salt, rounds) + Seq::<u8>::empty() =~= setting_text(salt, rounds));
    assert(cut_salt(salt) =~= salt);
}

/// Asking for the default number of rounds is the same as asking for none.
pub proof fn law_default_rounds_unnamed(key: Seq<u8>, random: Seq<u8>)
    ensures
        hash_text(key, salt_chars(random), requested_rounds(Some(ROUNDS_DEFAULT))) == hash_text(
            key,
            salt_chars(random),
            requested_rounds(None),
        ),
{
}

/// Rounds out of range mean the nearest number in range.
pub proof fn law_rounds_clamped(key: Seq<u8>, salt: Seq<u8>, n: nat)
    requires
        no_dollar(salt),
    ensures
        crypt_text(key, setting_text(salt, Some(n))) == crypt_text(
            key,
            setting_text(salt, Some(clamp_rounds(n))),
        ),
        crypt_text(key, setting_text(salt, Some(n))) == hash_text(
            key,
            cut_salt(salt),
            Some(clamp_rounds(n)),
        ),
{
    lemma_read_setting_text(salt, Some(n), Seq::empty());
    lemma_read_setting_text(salt, Some(clamp_rounds(n)), Seq::empty());
    assert(setting_text(salt, Some(n)) + Seq::<u8>::empty() =~= setting_text(salt, Some(n)));
    assert(setting_text(salt, Some(clamp_rounds(n))) + Seq::<u8>::empty() =~= setting_text(
        salt,
        Some(clamp_rounds(n)),
    ));
}

/// Only the first 16 bytes of a salt count.
pub proof fn law_salt_cut(key: Seq<u8>, salt: Seq<u8>, rounds: Option<nat>)
    requires
        no_dollar(salt),
    ensures
        crypt_text(key, setting_text(salt, rounds)) == crypt_text(
            key,
            setting_text(cut_salt(salt), rounds),
        ),
{
    let cut = cut_salt(salt);
    assert(no_dollar(cut)) by {
        assert forall|i: int| 0 <= i < cut.len() implies #[trigger] cut[i] != DOLLAR by {
            assert(salt[i] != DOLLAR);
        }
    }
    lemma_read_setting_text(salt, rounds, Seq::empty());
    lemma_read_setting_text(cut, rounds, Seq::empty());
    assert(setting_text(salt, rounds) + Seq::<u8>::empty() =~= setting_text(salt, rounds));
    assert(setting_text(cut, rounds) + Seq::<u8>::empty() =~= setting_text(cut, rounds));
    assert(cut_salt(cut) =~= cut);
}

/// A setting means the same with and without `$6$` before it.
pub proof fn law_id_optional(key: Seq<u8>, setting: Seq<u8>)
    requires
        !SHA512_SALT_PREFIX@.is_prefix_of(setting),
    ensures
        crypt_text(key, SHA512_SALT_PREFIX@ + setting) == crypt_text(key, setting),
{
    let full = SHA512_SALT_PREFIX@ + setting;
    assert(SHA512_SALT_PREFIX@ =~= full.subrange(0, 3));
    assert(full.skip(3) =~= setting);
    assert(after_id(full) == after_id(setting));
    assert(names_rounds(full) == names_rounds(setting));
}

/// A whole hash string serves as a setting: hashing the password under it
/// gives the hash string again. The exception is a salt that a `$` after it
/// turns into a number of rounds.
pub proof fn law_hash_is_setting(key: Seq<u8>, setting: Seq<u8>)
    requires
        setting_rounds(setting) is None ==> !reads_as_rounds(setting_salt(setting)),
    ensures
        crypt_text(key, crypt_text(key, setting)) == crypt_text(key, setting),
{
    let salt = setting_salt(setting);
    let rounds = setting_rounds(setting);
    let tail = seq![DOLLAR] + digest_text(last_sum(key, salt, rounds));
    lemma_setting_salt(setting);
    lemma_read_setting_text(salt, rounds, tail);
    assert(crypt_text(key, setting) =~= setting_text(salt, rounds) + tail);
    assert(cut_salt(salt) =~= salt);
}

/// The parameter field of a number of rounds is read back as that number.
pub proof fn law_params_round_trip(n: nat)
    requires
        rounds_in_range(n),
    ensures
        read_params(params_text(n)) == Ok::<nat, Error>(n),
{
    lemma_decimal_value(n);
    let field = params_text(n);
    assert(SHA512_ROUNDS_PREFIX@ =~= field.subrange(0, 7));
    assert(field.skip(7) =~= decimal(n));
}

/// A hash string made by hashing is accepted by the hasher, if its salt can be
/// a field and would not be taken for the rounds.
pub proof fn law_hasher_accepts_hashes(key: Seq<u8>, setting: Seq<u8>)
    requires
        is_field(setting_salt(setting)),
        setting_rounds(setting) is None ==> !is_rounds_field(setting_salt(setting)),
    ensures
        verify_outcome(key, crypt_text(key, setting)) == Ok::<(), Error>(()),
{
    lemma_setting_salt(setting);
    lemma_hasher_accepts(key, setting_salt(setting), setting_rounds(setting));
}

proof fn lemma_hasher_accepts(key: Seq<u8>, salt: Seq<u8>, rounds: Option<nat>)
    requires
        is_field(salt),
        salt.len() <= SALT_LEN_MAX,
        rounds is None ==> !is_rounds_field(salt),
        rounds matches Some(n) ==> rounds_in_range(n),
    ensures
        verify_outcome(key, hash_text(key, salt, rounds)) == Ok::<(), Error>(()),
{
    lemma_hash_text_fields(key, salt, rounds);
    assert(cut_salt(salt) =~= salt);
    let hash = hash_text(key, salt, rounds);
    let fields = fields_of(hash);
    match rounds {
        Some(n) => {
            lemma_decimal_value(n);
            let field = SHA512_ROUNDS_PREFIX@ + decimal(n);
            assert(fields[0] == field);
            assert(SHA512_ROUNDS_PREFIX@ =~= field.subrange(0, 7));
            assert(field.skip(7) =~= decimal(n));
            assert(is_rounds_field(fields[0]));
            assert(fields_rounds(fields) == Some(n));
            assert(fields[1] == salt);
        },
        None => {
            assert(fields[0] == salt);
        },
    }
    assert(fields_complete(fields));
    assert(fields_match(key, fields));
}

/// The hasher accepts every new hash string of [`hash`](crate::hash).
pub proof fn law_hasher_accepts_new_hashes(key: Seq<u8>, random: Seq<u8>, rounds: Option<u32>)
    requires
        random.len() == SALT_LEN_MAX,
    ensures
        verify_outcome(key, hash_text(key, salt_chars(random), requested_rounds(rounds))) == Ok::<
            (),
            Error,
        >(()),
{
    let salt = salt_chars(random);
    law_new_salt(random);
    lemma_b64_text_field(salt);
    lemma_b64_text_no_rounds(salt);
    lemma_hasher_accepts(key, salt, requested_rounds(rounds));
}

/// `=` is not of the base64 alphabet.
proof fn lemma_b64_text_no_rounds(salt: Seq<u8>)
    requires
        is_b64_text(salt),
    ensures
        !is_rounds_field(salt),
{
    if SHA512_ROUNDS_PREFIX@.is_prefix_of(salt) {
        assert(salt[6] == salt.subrange(0, 7)[6]);
        assert(is_b64_char(salt[6]));
    }
}

/// The salt that the hasher makes of raw bytes.
proof fn lemma_raw_salt(raw_salt: Seq<u8>)
    requires
        raw_salt.len() > 0,
    ensures
        ({
            let salt = cut_salt(b64_encode(raw_salt));
            &&& is_b64_text(salt)
            &&& is_field(salt)
            &&& no_dollar(salt)
            &&& salt.len() <= SALT_LEN_MAX
        }),
{
    lemma_b64_encode(raw_salt);
    let salt = cut_salt(b64_encode(raw_salt));
    assert forall|i: int| 0 <= i < salt.len() implies is_b64_char(#[trigger] salt[i]) by {
        assert(is_b64_char(b64_encode(raw_salt)[i]));
    }
    lemma_b64_text_field(salt);
}

/// The hasher accepts the password for every hash string it makes.
pub proof fn law_hasher_round_trip(key: Seq<u8>, raw_salt: Seq<u8>, rounds: nat)
    requires
        raw_salt.len() > 0,
        rounds_in_range(rounds),
    ensures
        verify_outcome(key, raw_salt_hash_text(key, raw_salt, rounds)) == Ok::<(), Error>(()),
{
    lemma_raw_salt(raw_salt);
    let salt = cut_salt(b64_encode(raw_salt));
    lemma_b64_text_no_rounds(salt);
    lemma_hasher_accepts(key, salt, named_rounds(rounds));
}

/// [`verify`](crate::verify) accepts the password for every hash string that
/// the hasher makes.
pub proof fn law_verify_accepts_hasher(key: Seq<u8>, raw_salt: Seq<u8>, rounds: nat)
    requires
        raw_salt.len() > 0,
        rounds_in_range(rounds),
    ensures
        is_hash(raw_salt_hash_text(key, raw_salt, rounds)),
        hash_matches(key, raw_salt_hash_text(key, raw_salt, rounds)),
{
    lemma_raw_salt(raw_salt);
    let salt = cut_salt(b64_encode(raw_salt));
    lemma_hash_text_is_crypt_text(key, salt, named_rounds(rounds));
    law_verify_accepts(key, setting_text(salt, named_rounds(rounds)));
}

/// The hasher hashes as [`hash_with_salt`](crate::hash_with_salt) does with the
/// base64 form of the salt.
pub proof fn law_hasher_hashes_alike(key: Seq<u8>, raw_salt: Seq<u8>, rounds: nat)
    requires
        raw_salt.len() > 0,
        rounds_in_range(rounds),
    ensures
        raw_salt_hash_text(key, raw_salt, rounds) == crypt_text(
            key,
            setting_text(b64_encode(raw_salt), named_rounds(rounds)),
        ),
{
    lemma_raw_salt(raw_salt);
    lemma_b64_encode(raw_salt);
    lemma_b64_text_field(b64_encode(raw_salt));
    lemma_hash_text_is_crypt_text(key, cut_salt(b64_encode(raw_salt)), named_rounds(rounds));
    law_salt_cut(key, b64_encode(raw_salt), named_rounds(rounds));
}

/// What [`verify`](crate::verify) accepts the hasher accepts too, if the hash
/// string is in Modular Crypt Format and its salt is not taken for the rounds.
pub proof fn law_verifiers_agree(key: Seq<u8>, hash: Seq<u8>)
    requires
        is_hash(hash),
        hash_matches(key, hash),
        is_field(setting_salt(setting_of(hash))),
        setting_rounds(setting_of(hash)) is None ==> !is_rounds_field(
            setting_salt(setting_of(hash)),
        ),
    ensures
        verify_outcome(key, hash) == Ok::<(), Error>(()),
{
    law_hasher_accepts_hashes(key, setting_of(hash));
}

/// What the hasher accepts [`verify`](crate::verify) accepts too, if the hash
/// string is in normal form: the salt is no longer than 16 characters, and the
/// rounds are in range and written without leading zeros.
pub proof fn law_verifiers_agree_on_normal_hashes(key: Seq<u8>, hash: Seq<u8>)
    requires
        verify_outcome(key, hash) == Ok::<(), Error>(()),
        fields_of(hash)[fields_of(hash).len() - 2].len() <= SALT_LEN_MAX,
        fields_rounds(fields_of(hash)) matches Some(n) ==> fields_of(hash)[0] == params_text(n),
    ensures
        is_hash(hash),
        hash_matches(key, hash),
{
    let fields = fields_of(hash);
    let rounds = fields_rounds(fields);
    let pieces = split_dollar(hash.skip(1));
    let salt = fields[fields.len() - 2];
    assert(pieces =~= seq![id_of(hash)] + fields);
    let tail = lemma_split_first(hash.skip(1));
    assert(split_dollar(tail) =~= fields);
    if rounds is Some {
        let rest = lemma_split_first(tail);
        assert(split_dollar(rest) =~= seq![salt, fields.last()]);
        let last = lemma_split_first(rest);
        assert(split_dollar(last) =~= seq![fields.last()]);
        lemma_split_first(last);
        assert(rest =~= salt.push(DOLLAR) + fields.last());
    } else {
        let last = lemma_split_first(tail);
        assert(split_dollar(last) =~= seq![fields.last()]);
        lemma_split_first(last);
        assert(tail =~= salt.push(DOLLAR) + fields.last());
    }
    assert(cut_salt(salt) =~= salt);
    assert(hash =~= seq![DOLLAR] + hash.skip(1));
    assert(hash =~= hash_text(key, salt, rounds));
    assert(is_field(salt));
    assert(no_dollar(salt)) by {
        assert(forall|i: int| 0 <= i < salt.len() ==> is_field_char(#[trigger] salt[i]));
    }
    lemma_hash_text_is_crypt_text(key, salt, rounds);
    law_verify_accepts(key, setting_text(salt, rounds));
}

/// Of the salt and the rounds in a hash string the hasher looks only at what
/// counts: two hash strings with the same digest, with salts that agree up to
/// 16 characters and with rounds that are the same once in range, accept the
/// same passwords.
pub proof fn law_hasher_looks_at_digest(key: Seq<u8>, a: Seq<u8>, b: Seq<u8>)
    requires
        is_modular(a),
        is_modular(b),
        id_of(a) == id_of(b),
        fields_complete(fields_of(a)),
        fields_complete(fields_of(b)),
        fields_rounds(fields_of(a)) == fields_rounds(fields_of(b)),
        cut_salt(fields_of(a)[fields_of(a).len() - 2]) == cut_salt(
            fields_of(b)[fields_of(b).len() - 2],
        ),
        fields_of(a).last() == fields_of(b).last(),
    ensures
        verify_outcome(key, a) == verify_outcome(key, b),
{
}

/// A hash string that the hasher made refuses, as an invalid password, exactly
/// those passwords that lead to another last sum.
pub proof fn law_hasher_compares_sums(
    key: Seq<u8>,
    other: Seq<u8>,
    raw_salt: Seq<u8>,
    rounds: nat,
)
    requires
        raw_salt.len() > 0,
        rounds_in_range(rounds),
    ensures
        ({
            let salt = cut_salt(b64_encode(raw_salt));
            let outcome = verify_outcome(other, raw_salt_hash_text(key, raw_salt, rounds));
            outcome == (if last_sum(other, salt, named_rounds(rounds)) == last_sum(
                key,
                salt,
                named_rounds(rounds),
            ) {
                Ok::<(), Error>(())
            } else {
                Err(Error::PasswordInvalid)
            })
        }),
{
    lemma_raw_salt(raw_salt);
    lemma_hasher_compares(key, other, cut_salt(b64_encode(raw_salt)), named_rounds(rounds));
}

/// A hash string with a salt of base64 characters refuses, as an invalid
/// password, exactly those passwords that lead to another last sum.
pub proof fn lemma_hasher_compares(
    key: Seq<u8>,
    other: Seq<u8>,
    salt: Seq<u8>,
    named: Option<nat>,
)
    requires
        salt.len() > 0,
        salt.len() <= SALT_LEN_MAX,
        is_b64_text(salt),
        named matches Some(n) ==> rounds_in_range(n),
    ensures
        verify_outcome(other, hash_text(key, salt, named)) == (if last_sum(other, salt, named)
            == last_sum(key, salt, named) {
            Ok::<(), Error>(())
        } else {
            Err(Error::PasswordInvalid)
        }),
{
    lemma_b64_text_field(salt);
    lemma_b64_text_no_rounds(salt);
    lemma_hash_text_fields(key, salt, named);
    lemma_hasher_accepts(key, salt, named);
    assert(cut_salt(salt) =~= salt);
    let fields = fields_of(hash_text(key, salt, named));
    assert(fields.last() == digest_text(last_sum(key, salt, named)));
    assert(fields[fields.len() - 2] == salt);
    if let Some(n) = named {
        lemma_decimal_value(n);
        let field = SHA512_ROUNDS_PREFIX@ + decimal(n);
        assert(fields[0] == field);
        assert(SHA512_ROUNDS_PREFIX@ =~= field.subrange(0, 7));
        assert(field.skip(7) =~= decimal(n));
    }
    lemma_last_sum_len(key, salt, named);
    lemma_last_sum_len(other, salt, named);
    if digest_text(last_sum(other, salt, named)) == digest_text(last_sum(key, salt, named)) {
        lemma_digest_text_injective(last_sum(other, salt, named), last_sum(key, salt, named));
    }
}

/// [`hash_with_salt`](crate::hash_with_salt) gives text for every ASCII
/// setting: the salt is ASCII too, and so UTF-8.
pub proof fn law_ascii_settings(setting: Seq<u8>)
    requires
        is_ascii_bytes(setting),
    ensures
        valid_utf8(setting_salt(setting)),
{
    let salt = setting_salt(setting);
    lemma_setting_salt(setting);
    let start = choose|start: int|
        0 <= start <= setting.len() - salt.len() && salt == #[trigger] setting.skip(start).take(
            salt.len() as int,
        );
    assert forall|i: int| 0 <= i < salt.len() implies #[trigger] salt[i] < 0x80 by {
        assert(salt[i] == setting[start + i]);
    }
    lemma_ascii_valid_utf8(salt);
}

/// Checking the identifier and the fields of a hash string in Modular Crypt
/// Format comes to the same as checking the string.
pub proof fn law_parts_agree(key: Seq<u8>, hash: Seq<u8>)
    requires
        is_modular(hash),
    ensures
        verify_outcome(key, hash) == parts_outcome(key, id_of(hash), fields_of(hash)),
{
    assert forall|i: int| 0 <= i < fields_of(hash).len() implies no_dollar(
        #[trigger] fields_of(hash)[i],
    ) by {
        assert(is_field(fields_of(hash)[i]));
    }
}

/// No password is accepted for the empty string, which is what
/// [`hash_with_salt`](crate::hash_with_salt) gives for a salt that is not text.
pub proof fn law_empty_string_refused(key: Seq<u8>)
    ensures
        !is_hash(encode_utf8(Seq::empty())),
        verify_outcome(key, encode_utf8(Seq::empty())) == Err::<(), Error>(Error::EncodingInvalid),
{
}

/// A string is determined by its UTF-8 bytes, which is what the contracts of
/// the functions that return hash strings speak of.
pub proof fn law_text_determined(a: Seq<char>, b: Seq<char>)
    requires
        encode_utf8(a) == encode_utf8(b),
    ensures
        a == b,
{
    encode_utf8_decode_utf8(a);
    encode_utf8_decode_utf8(b);
}

} // verus!
