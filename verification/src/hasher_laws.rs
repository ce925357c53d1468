//! Laws of the hasher: what its calls return for what they are given, and how
//! the results of two calls are related.

use crate::api::{hash, requested_rounds, salt_chars, verify, InvalidHash};
use crate::backend::sha512;
use crate::base64::{b64_encode, digest_text, is_b64_char, is_b64_text, lemma_b64_encode};
use crate::crypt::{hash_text, last_sum, sum_after};
use crate::decimal::{all_digits, decimal, digits_value, is_digit};
use crate::error::Error;
use crate::hasher::{
    field_bytes, fields_apart, is_rounds_field, lemma_b64_text_field, named_rounds,
    raw_salt_hash_text, sha512_crypt_id, Sha512Crypt,
};
use crate::laws::{
    law_hasher_accepts_new_hashes, law_hasher_compares_sums, law_hasher_round_trip, law_new_salt,
    law_parts_agree, law_verify_accepts_hasher, lemma_hasher_compares,
};
use crate::modular::{
    fields_of, id_of, is_field, is_field_char, is_modular, lemma_split_dollar, split_dollar,
    PasswordHash,
};
use crate::params::Sha512CryptParams;
use crate::password::Password;
use crate::setting::{
    cut_salt, first_dollar, lemma_first_dollar, lemma_first_dollar_is, lemma_read_setting_text,
    no_dollar, reads_as_rounds, setting_rounds, setting_text, DOLLAR, SHA512_ROUNDS_PREFIX,
};
use crate::sum_laws::law_same_sum_collides;
use vstd::prelude::*;
use vstd::utf8::encode_utf8;

verus! {

/// What hashing with parameters returns. Another algorithm than `6`, then any
/// version, then an empty salt are errors, in this order. Otherwise the string
/// is `$6$`, then `rounds=`, the number of rounds of the parameters itself and
/// `$`, unless it is 5000, then the base64 of the salt, up to 16 characters,
/// `$`, and the text of the sum after exactly as many rounds.
pub proof fn law_hash_customized(
    hasher: Sha512Crypt,
    password: &[u8],
    salt: &[u8],
    algorithm: Option<&str>,
    version: Option<u32>,
    params: Sha512CryptParams,
    n: u32,
    result: Result<PasswordHash, Error>,
)
    requires
        call_ensures(Sha512CryptParams::rounds, (params,), n),
        call_ensures(
            Sha512Crypt::hash_password_customized,
            (&hasher, password, salt, algorithm, version, params),
            result,
        ),
    ensures
        algorithm matches Some(id) && encode_utf8(id@) != seq![0x36u8] ==> result == Err::<
            PasswordHash,
            Error,
        >(Error::Algorithm),
        (algorithm matches Some(id) ==> encode_utf8(id@) == seq![0x36u8]) ==> {
            if version is Some {
                result == Err::<PasswordHash, Error>(Error::Version)
            } else if salt@.len() == 0 {
                result == Err::<PasswordHash, Error>(Error::SaltInvalid)
            } else {
                let text = b64_encode(salt@);
                let used = if text.len() <= 16 {
                    text
                } else {
                    text.take(16)
                };
                &&& result is Ok
                &&& encode_utf8(result->Ok_0@) == (if n == 5000 {
                    seq![0x24u8, 0x36, 0x24]
                } else {
                    seq![0x24u8, 0x36, 0x24, 0x72, 0x6f, 0x75, 0x6e, 0x64, 0x73, 0x3d] + decimal(
                        n as nat,
                    ) + seq![0x24u8]
                }) + used + seq![0x24u8] + digest_text(sum_after(n as nat, password@, used))
            }
        },
{
    let text = b64_encode(salt@);
    let used = if text.len() <= 16 {
        text
    } else {
        text.take(16)
    };
    assert(cut_salt(text) =~= used);
    lemma_raw_salt_text(password@, salt@, n as nat);
}

proof fn lemma_raw_salt_text(key: Seq<u8>, raw: Seq<u8>, n: nat)
    ensures
        ({
            let used = cut_salt(b64_encode(raw));
            raw_salt_hash_text(key, raw, n) == (if n == 5000 {
                seq![0x24u8, 0x36, 0x24]
            } else {
                seq![0x24u8, 0x36, 0x24, 0x72, 0x6f, 0x75, 0x6e, 0x64, 0x73, 0x3d] + decimal(n)
                    + seq![0x24u8]
            }) + used + seq![0x24u8] + digest_text(sum_after(n, key, used))
        }),
{
    let used = cut_salt(b64_encode(raw));
    if n == 5000 {
        assert(raw_salt_hash_text(key, raw, n) =~= seq![0x24u8, 0x36, 0x24] + used + seq![0x24u8]
            + digest_text(sum_after(n, key, used)));
    } else {
        assert(raw_salt_hash_text(key, raw, n) =~= seq![
            0x24u8,
            0x36,
            0x24,
            0x72,
            0x6f,
            0x75,
            0x6e,
            0x64,
            0x73,
            0x3d,
        ] + decimal(n) + seq![0x24u8] + used + seq![0x24u8] + digest_text(
            sum_after(n, key, used),
        ));
    }
}

/// Hashing with parameters alone, and with the hasher's own, is hashing with no
/// algorithm and no version named.
pub proof fn law_hash_shortcuts(
    hasher: Sha512Crypt,
    password: &[u8],
    salt: &[u8],
    params: Sha512CryptParams,
    whole: Result<PasswordHash, Error>,
    with_params: Result<PasswordHash, Error>,
    with_salt: Result<PasswordHash, Error>,
)
    requires
        call_ensures(Sha512Crypt::params, (&hasher,), params),
        call_ensures(
            Sha512Crypt::hash_password_customized,
            (&hasher, password, salt, None, None, params),
            whole,
        ),
        call_ensures(
            Sha512Crypt::hash_password_with_params,
            (&hasher, password, salt, params),
            with_params,
        ),
        call_ensures(
            Sha512Crypt::hash_password_with_salt,
            (&hasher, password, salt),
            with_salt,
        ),
    ensures
        whole is Ok <==> salt@.len() > 0,
        with_params is Ok <==> whole is Ok,
        with_salt is Ok <==> whole is Ok,
        whole is Ok ==> encode_utf8(with_params->Ok_0@) == encode_utf8(whole->Ok_0@),
        whole is Ok ==> encode_utf8(with_salt->Ok_0@) == encode_utf8(whole->Ok_0@),
        whole is Err ==> whole->Err_0 == Error::SaltInvalid && with_params->Err_0
            == Error::SaltInvalid && with_salt->Err_0 == Error::SaltInvalid,
{
}

/// What hashing with parameters alone does depends on them and not on those that
/// the hasher holds.
pub proof fn law_hash_with_params(
    hasher: Sha512Crypt,
    other: Sha512Crypt,
    password: &[u8],
    salt: &[u8],
    params: Sha512CryptParams,
    one: Result<PasswordHash, Error>,
    two: Result<PasswordHash, Error>,
)
    requires
        call_ensures(
            Sha512Crypt::hash_password_with_params,
            (&hasher, password, salt, params),
            one,
        ),
        call_ensures(
            Sha512Crypt::hash_password_customized,
            (&other, password, salt, None, None, params),
            two,
        ),
    ensures
        one is Ok <==> two is Ok,
        one is Ok ==> encode_utf8(one->Ok_0@) == encode_utf8(two->Ok_0@),
        one is Err ==> one->Err_0 == two->Err_0,
{
}

/// The rounds of a new hash string are read back from it, so strings made with
/// different rounds differ.
pub proof fn law_rounds_read_back(
    hasher: Sha512Crypt,
    password: &[u8],
    salt: &[u8],
    params: Sha512CryptParams,
    n: u32,
    result: Result<PasswordHash, Error>,
)
    requires
        salt@.len() > 0,
        call_ensures(Sha512CryptParams::rounds, (params,), n),
        call_ensures(
            Sha512Crypt::hash_password_with_params,
            (&hasher, password, salt, params),
            result,
        ),
    ensures
        result is Ok,
        setting_rounds(encode_utf8(result->Ok_0@)) == (if n == 5000 {
            None::<nat>
        } else {
            Some(n as nat)
        }),
{
    let used = cut_salt(b64_encode(salt@));
    lemma_b64_encode(salt@);
    assert forall|i: int| 0 <= i < used.len() implies is_b64_char(#[trigger] used[i]) by {
        assert(is_b64_char(b64_encode(salt@)[i]));
    }
    lemma_rounds_of_text(password@, used, named_rounds(n as nat));
}

proof fn lemma_rounds_of_text(key: Seq<u8>, salt: Seq<u8>, rounds: Option<nat>)
    requires
        is_b64_text(salt),
        rounds matches Some(n) ==> 1000 <= n <= 999_999_999,
    ensures
        setting_rounds(hash_text(key, salt, rounds)) == rounds,
{
    lemma_b64_text_field(salt);
    let tail = seq![DOLLAR] + digest_text(last_sum(key, salt, rounds));
    assert(hash_text(key, salt, rounds) =~= setting_text(salt, rounds) + tail);
    if reads_as_rounds(salt) {
        assert(salt[6] == salt.subrange(0, 7)[6]);
        assert(is_b64_char(salt[6]));
    }
    lemma_read_setting_text(salt, rounds, tail);
}

/// The rounds that are asked for are read back from a new hash string of
/// [`hash`], so strings made with different rounds in range differ.
pub proof fn law_new_rounds_read_back(password: Password, rounds: u32, text: String)
    requires
        1000 <= rounds <= 999_999_999,
        call_ensures(hash, (password, Some(rounds)), text),
    ensures
        setting_rounds(encode_utf8(text@)) == (if rounds == 5000 {
            None::<nat>
        } else {
            Some(rounds as nat)
        }),
{
    let random = choose|random: Seq<u8>|
        random.len() == 16 && encode_utf8(text@) == hash_text(
            password@,
            #[trigger] salt_chars(random),
            requested_rounds(Some(rounds)),
        );
    law_new_salt(random);
    lemma_rounds_of_text(password@, salt_chars(random), requested_rounds(Some(rounds)));
}

/// A password is accepted, by the hasher and by [`verify`], for the hash string
/// that the hasher made of it.
pub proof fn law_hasher_accepts_password(
    hasher: Sha512Crypt,
    checker: Sha512Crypt,
    password: &[u8],
    salt: &[u8],
    params: Sha512CryptParams,
    n: u32,
    made: Result<PasswordHash, Error>,
    stored: &str,
    result: Result<(), Error>,
    again: Password,
    verified: Result<bool, InvalidHash>,
)
    requires
        salt@.len() > 0,
        call_ensures(Sha512CryptParams::rounds, (params,), n),
        call_ensures(
            Sha512Crypt::hash_password_with_params,
            (&hasher, password, salt, params),
            made,
        ),
        made is Ok,
        stored@ == made->Ok_0@,
        again@ == password@,
        call_ensures(Sha512Crypt::verify_password, (&checker, password, stored), result),
        call_ensures(verify, (again, stored), verified),
    ensures
        result == Ok::<(), Error>(()),
        verified == Ok::<bool, InvalidHash>(true),
{
    law_hasher_round_trip(password@, salt@, n as nat);
    law_verify_accepts_hasher(password@, salt@, n as nat);
}

/// Another password that the hasher accepts for a hash string it made gives a
/// collision of SHA-512: two different messages with one digest. All other
/// passwords are refused as invalid.
pub proof fn law_hasher_other_password_collides(
    hasher: Sha512Crypt,
    checker: Sha512Crypt,
    password: &[u8],
    other: &[u8],
    salt: &[u8],
    params: Sha512CryptParams,
    n: u32,
    made: Result<PasswordHash, Error>,
    stored: &str,
    result: Result<(), Error>,
) -> (pair: (Seq<u8>, Seq<u8>))
    requires
        other@ != password@,
        salt@.len() > 0,
        call_ensures(Sha512CryptParams::rounds, (params,), n),
        call_ensures(
            Sha512Crypt::hash_password_with_params,
            (&hasher, password, salt, params),
            made,
        ),
        made is Ok,
        stored@ == made->Ok_0@,
        call_ensures(Sha512Crypt::verify_password, (&checker, other, stored), result),
    ensures
        result is Err ==> result->Err_0 == Error::PasswordInvalid,
        result is Ok ==> pair.0 != pair.1 && sha512(pair.0)@ == sha512(pair.1)@,
{
    law_hasher_compares_sums(password@, other@, salt@, n as nat);
    let used = cut_salt(b64_encode(salt@));
    if result is Ok {
        assert(sum_after(n as nat, other@, used) == sum_after(n as nat, password@, used));
        law_same_sum_collides(other@, password@, used, n as nat)
    } else {
        (Seq::empty(), Seq::empty())
    }
}

/// The hasher accepts a password for every new hash string of [`hash`], and
/// another password only with a collision of SHA-512.
pub proof fn law_hasher_and_hash(
    hasher: Sha512Crypt,
    password: Password,
    rounds: Option<u32>,
    text: String,
    stored: &str,
    key: &[u8],
    result: Result<(), Error>,
) -> (pair: (Seq<u8>, Seq<u8>))
    requires
        call_ensures(hash, (password, rounds), text),
        stored@ == text@,
        call_ensures(Sha512Crypt::verify_password, (&hasher, key, stored), result),
    ensures
        key@ == password@ ==> result == Ok::<(), Error>(()),
        result is Err ==> result->Err_0 == Error::PasswordInvalid,
        result is Ok && key@ != password@ ==> pair.0 != pair.1 && sha512(pair.0)@ == sha512(
            pair.1,
        )@,
{
    let random = choose|random: Seq<u8>|
        random.len() == 16 && encode_utf8(text@) == hash_text(
            password@,
            #[trigger] salt_chars(random),
            requested_rounds(rounds),
        );
    let salt = salt_chars(random);
    let named = requested_rounds(rounds);
    law_new_salt(random);
    law_hasher_accepts_new_hashes(password@, random, rounds);
    lemma_hasher_compares(password@, key@, salt, named);
    if result is Ok && key@ != password@ {
        let n = match named {
            Some(n) => n,
            None => 5000,
        };
        law_same_sum_collides(key@, password@, salt, n)
    } else {
        (Seq::empty(), Seq::empty())
    }
}

/// What checking the parts of a hash string returns. The identifier must be
/// `6`; no field may hold `$`; the fields are `rounds=` with digits, the salt
/// and the digest, or the last two alone. The password is accepted if the digest
/// is the text of the sum, with the salt up to 16 bytes, after as many rounds as
/// the digits spell, or the nearest number from 1000 to 999,999,999, or 5000.
pub proof fn law_verify_parts(
    hasher: Sha512Crypt,
    password: &[u8],
    id: &str,
    fields: &[&str],
    f: Seq<Seq<u8>>,
    result: Result<(), Error>,
)
    requires
        call_ensures(Sha512Crypt::verify_parts, (&hasher, password, id, fields), result),
        f.len() == fields@.len(),
        forall|i: int| 0 <= i < f.len() ==> #[trigger] f[i] == encode_utf8(fields@[i]@),
    ensures
        ({
            let named = f.len() > 0 && f[0].len() > 7 && f[0].take(7) == seq![
                0x72u8,
                0x6f,
                0x75,
                0x6e,
                0x64,
                0x73,
                0x3d,
            ] && (forall|j: int| 7 <= j < f[0].len() ==> 0x30 <= #[trigger] f[0][j] <= 0x39);
            if encode_utf8(id@) != seq![0x36u8] {
                result == Err::<(), Error>(Error::Algorithm)
            } else if (exists|i: int, j: int|
                0 <= i < f.len() && 0 <= j < f[i].len() && #[trigger] f[i][j] == 0x24) || f.len()
                != (if named {
                3int
            } else {
                2
            }) {
                result == Err::<(), Error>(Error::EncodingInvalid)
            } else {
                let field = f[f.len() - 2];
                let salt = if field.len() <= 16 {
                    field
                } else {
                    field.take(16)
                };
                let spelled = digits_value(f[0].skip(7));
                let n: nat = if !named {
                    5000
                } else if spelled < 1000 {
                    1000
                } else if spelled > 999_999_999 {
                    999_999_999
                } else {
                    spelled
                };
                result == (if f.last() == digest_text(sum_after(n, password@, salt)) {
                    Ok::<(), Error>(())
                } else {
                    Err(Error::PasswordInvalid)
                })
            }
        }),
{
    assert(f =~= field_bytes(fields@));
    if f.len() > 0 {
        lemma_rounds_field(f[0]);
    }
    if exists|i: int, j: int|
        0 <= i < f.len() && 0 <= j < f[i].len() && #[trigger] f[i][j] == 0x24 {
        let (i, j) = choose|i: int, j: int|
            0 <= i < f.len() && 0 <= j < f[i].len() && #[trigger] f[i][j] == 0x24;
        assert(!no_dollar(f[i]));
        assert(!fields_apart(f));
    } else {
        assert forall|i: int| 0 <= i < f.len() implies no_dollar(#[trigger] f[i]) by {
            assert forall|j: int| 0 <= j < f[i].len() implies #[trigger] f[i][j] != DOLLAR by {
                assert(f[i][j] != 0x24);
            }
        }
        assert(fields_apart(f));
    }
    if f.len() >= 2 {
        let field = f[f.len() - 2];
        assert(cut_salt(field) =~= (if field.len() <= 16 {
            field
        } else {
            field.take(16)
        }));
    }
    assert(sha512_crypt_id() =~= seq![0x36u8]);
}

proof fn lemma_rounds_field(field: Seq<u8>)
    ensures
        is_rounds_field(field) <==> field.len() > 7 && field.take(7) == seq![
            0x72u8,
            0x6f,
            0x75,
            0x6e,
            0x64,
            0x73,
            0x3d,
        ] && (forall|j: int| 7 <= j < field.len() ==> 0x30 <= #[trigger] field[j] <= 0x39),
{
    if field.len() > 7 {
        let digits = field.skip(7);
        assert(field.take(7) =~= field.subrange(0, 7));
        assert(SHA512_ROUNDS_PREFIX@ =~= seq![0x72u8, 0x6f, 0x75, 0x6e, 0x64, 0x73, 0x3d]);
        if forall|j: int| 7 <= j < field.len() ==> 0x30 <= #[trigger] field[j] <= 0x39 {
            assert forall|i: int| 0 <= i < digits.len() implies is_digit(#[trigger] digits[i]) by {
                assert(digits[i] == field[7 + i]);
            }
        }
        if all_digits(digits) {
            assert forall|j: int| 7 <= j < field.len() implies 0x30 <= #[trigger] field[j]
                <= 0x39 by {
                assert(is_digit(digits[j - 7]));
            }
        }
    }
}

/// Checking a hash string is checking its identifier and its fields, if it is in
/// Modular Crypt Format, and an error if it is not. A hash that is known to be
/// in the format is checked as its string is.
pub proof fn law_verify_string(
    hasher: Sha512Crypt,
    password: &[u8],
    hash: &str,
    known: PasswordHash,
    id: &str,
    fields: &[&str],
    result: Result<(), Error>,
    same: Result<(), Error>,
    by_parts: Result<(), Error>,
)
    requires
        call_ensures(Sha512Crypt::verify_password, (&hasher, password, hash), result),
        known@ == hash@,
        call_ensures(Sha512Crypt::verify_password_hash, (&hasher, password, &known), same),
        encode_utf8(id@) == id_of(encode_utf8(hash@)),
        fields@.len() == fields_of(encode_utf8(hash@)).len(),
        forall|i: int|
            0 <= i < fields@.len() ==> encode_utf8((#[trigger] fields@[i])@) == fields_of(
                encode_utf8(hash@),
            )[i],
        call_ensures(Sha512Crypt::verify_parts, (&hasher, password, id, fields), by_parts),
    ensures
        same == result,
        !is_modular(encode_utf8(hash@)) ==> result == Err::<(), Error>(Error::EncodingInvalid),
        is_modular(encode_utf8(hash@)) ==> result == by_parts,
{
    assert(field_bytes(fields@) =~= fields_of(encode_utf8(hash@)));
    if is_modular(encode_utf8(hash@)) {
        law_parts_agree(password@, encode_utf8(hash@));
    }
}

/// A string of `$` and an identifier: what is an identifier, and that there are
/// no fields. A string that does not start with `$` is not in the format.
pub proof fn law_modular_id(id: Seq<u8>, other: Seq<u8>)
    requires
        forall|i: int| 0 <= i < id.len() ==> #[trigger] id[i] != 0x24,
        other.len() > 0 ==> other[0] != 0x24,
    ensures
        !is_modular(other),
        id_of(seq![0x24u8] + id) == id,
        fields_of(seq![0x24u8] + id).len() == 0,
        is_modular(seq![0x24u8] + id) <==> {
            &&& id.len() > 0
            &&& id[0] != 0x2d
            &&& id[id.len() - 1] != 0x2d
            &&& forall|i: int|
                0 <= i < id.len() ==> {
                    ||| 0x61 <= #[trigger] id[i] <= 0x7a
                    ||| 0x30 <= id[i] <= 0x39
                    ||| id[i] == 0x2d
                }
        },
{
    let hash = seq![0x24u8] + id;
    assert(hash.skip(1) =~= id);
    lemma_split_dollar(id, Seq::empty());
    assert(split_dollar(id) =~= seq![id]);
    assert(fields_of(hash).len() == 0);
}

proof fn lemma_split_append(s: Seq<u8>, piece: Seq<u8>)
    requires
        no_dollar(piece),
    ensures
        split_dollar(s.push(DOLLAR) + piece) == split_dollar(s).push(piece),
        split_dollar(s).len() > 0,
    decreases s.len(),
{
    lemma_first_dollar(s);
    let k = first_dollar(s);
    lemma_split_dollar(piece, Seq::empty());
    if k < s.len() {
        let rest = s.skip(k + 1);
        let longer = s.push(DOLLAR) + piece;
        lemma_split_append(rest, piece);
        assert(longer.take(k) =~= s.take(k));
        lemma_first_dollar_is(longer, k);
        assert(longer.skip(k + 1) =~= rest.push(DOLLAR) + piece);
        assert(split_dollar(longer) =~= split_dollar(s).push(piece));
    } else {
        assert(s.take(k) =~= s);
        lemma_split_dollar(s, piece);
        assert(split_dollar(s.push(DOLLAR) + piece) =~= split_dollar(s).push(piece));
    }
}

/// A `$` and more without `$` after a hash string add one field, after those
/// that it has: what is a field.
pub proof fn law_modular_field(hash: Seq<u8>, field: Seq<u8>)
    requires
        hash.len() > 0,
        hash[0] == 0x24,
        forall|i: int| 0 <= i < field.len() ==> #[trigger] field[i] != 0x24,
    ensures
        id_of(hash + seq![0x24u8] + field) == id_of(hash),
        fields_of(hash + seq![0x24u8] + field) == fields_of(hash).push(field),
        is_modular(hash + seq![0x24u8] + field) <==> is_modular(hash) && field.len() > 0 && (
        forall|i: int|
            0 <= i < field.len() ==> {
                ||| 0x41 <= #[trigger] field[i] <= 0x5a
                ||| 0x61 <= field[i] <= 0x7a
                ||| 0x30 <= field[i] <= 0x39
                ||| field[i] == 0x2e
                ||| field[i] == 0x2f
                ||| field[i] == 0x2b
                ||| field[i] == 0x3d
                ||| field[i] == 0x2c
                ||| field[i] == 0x2d
            }),
{
    let longer = hash + seq![0x24u8] + field;
    let s = hash.skip(1);
    assert(no_dollar(field));
    assert(longer.skip(1) =~= s.push(DOLLAR) + field);
    lemma_split_append(s, field);
    assert(fields_of(longer) =~= fields_of(hash).push(field));
    let good = forall|i: int|
        0 <= i < field.len() ==> {
            ||| 0x41 <= #[trigger] field[i] <= 0x5a
            ||| 0x61 <= field[i] <= 0x7a
            ||| 0x30 <= field[i] <= 0x39
            ||| field[i] == 0x2e
            ||| field[i] == 0x2f
            ||| field[i] == 0x2b
            ||| field[i] == 0x3d
            ||| field[i] == 0x2c
            ||| field[i] == 0x2d
        };
    if good {
        assert(forall|i: int| 0 <= i < field.len() ==> is_field_char(#[trigger] field[i]));
    }
    if is_field(field) {
        assert(forall|i: int| 0 <= i < field.len() ==> is_field_char(#[trigger] field[i]));
        assert(good);
    }
    let n = fields_of(hash).len() as int;
    if is_modular(longer) {
        assert(is_field(fields_of(longer)[n]));
        assert forall|i: int| 0 <= i < n implies is_field(#[trigger] fields_of(hash)[i]) by {
            assert(fields_of(longer)[i] == fields_of(hash)[i]);
        }
    }
    if is_modular(hash) && is_field(field) {
        assert forall|i: int| 0 <= i < n + 1 implies is_field(#[trigger] fields_of(longer)[i]) by {
            if i < n {
                assert(fields_of(longer)[i] == fields_of(hash)[i]);
            }
        }
    }
}

} // verus!
