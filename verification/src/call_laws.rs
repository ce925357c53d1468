//! Laws of calls: what the functions of the library return for what they are
//! given, and how the results of two calls are related.

use crate::api::{
    hash, hash_and_wipe, hash_bytes_with_salt, hash_text_and_wipe, hash_with_salt, is_hash,
    last_dollar, lemma_last_dollar_is, requested_rounds, salt_chars, setting_of, verify,
    verify_and_wipe, InvalidHash,
};
use crate::backend::{sha512, zeros};
use crate::base64::{digest_text, is_b64_char};
use crate::crypt::{crypt_inner, hash_text, sum_after};
use crate::decimal::decimal;
use crate::hasher::lemma_b64_text_field;
use crate::laws::{
    law_new_hash_verifies, law_new_salt, law_text_determined, law_verify_accepts,
    law_verify_compares_sums, lemma_hash_text_is_crypt_text,
};
use crate::password::Password;
use crate::setting::{
    cut_salt, lemma_read_setting_text, setting_rounds, setting_salt, setting_text,
    SHA512_SALT_PREFIX,
};
use crate::sum_laws::{law_hash_of_setting, law_same_sum_collides};
use vstd::prelude::*;
use vstd::utf8::{encode_utf8, valid_utf8};

verus! {

/// What [`hash_with_salt`] returns: `$6$`, then `rounds=`, the number and `$` if
/// the setting names one, then the salt, `$`, and the text of the sum after that
/// many rounds, or after 5000, of the whole password. Of a salt that is not text
/// it returns the empty string.
pub proof fn law_hash_with_salt(password: Password, salt: &[u8], hash: String)
    requires
        call_ensures(hash_with_salt, (password, salt), hash),
    ensures
        ({
            let used = setting_salt(salt@);
            if !valid_utf8(used) {
                hash@.len() == 0
            } else {
                encode_utf8(hash@) == (match setting_rounds(salt@) {
                    Some(n) => seq![
                        0x24u8,
                        0x36,
                        0x24,
                        0x72,
                        0x6f,
                        0x75,
                        0x6e,
                        0x64,
                        0x73,
                        0x3d,
                    ] + decimal(n) + seq![0x24u8] + used + seq![0x24u8] + digest_text(
                        sum_after(n, password@, used),
                    ),
                    None => seq![0x24u8, 0x36, 0x24] + used + seq![0x24u8] + digest_text(
                        sum_after(5000, password@, used),
                    ),
                })
            }
        }),
{
    law_hash_of_setting(password@, salt@);
}

/// All the ways to hash a password under a setting give the same bytes.
pub proof fn law_hashing_agrees(
    password: Password,
    key: &[u8],
    salt: &[u8],
    text: String,
    bytes: Vec<u8>,
    inner: Vec<u8>,
)
    requires
        key@ == password@,
        valid_utf8(setting_salt(salt@)),
        call_ensures(hash_with_salt, (password, salt), text),
        call_ensures(hash_bytes_with_salt, (password, salt), bytes),
        call_ensures(crypt_inner, (key, salt), inner),
    ensures
        bytes@ == encode_utf8(text@),
        inner@ == encode_utf8(text@),
{
}

/// The bytes of a hash string come out also where they are not text.
pub proof fn law_hash_bytes(
    password: Password,
    key: &[u8],
    salt: &[u8],
    bytes: Vec<u8>,
    inner: Vec<u8>,
)
    requires
        key@ == password@,
        call_ensures(hash_bytes_with_salt, (password, salt), bytes),
        call_ensures(crypt_inner, (key, salt), inner),
    ensures
        bytes@ == inner@,
        bytes@ == (match setting_rounds(salt@) {
            Some(n) => seq![0x24u8, 0x36, 0x24, 0x72, 0x6f, 0x75, 0x6e, 0x64, 0x73, 0x3d] + decimal(
                n,
            ) + seq![0x24u8] + setting_salt(salt@) + seq![0x24u8] + digest_text(
                sum_after(n, key@, setting_salt(salt@)),
            ),
            None => seq![0x24u8, 0x36, 0x24] + setting_salt(salt@) + seq![0x24u8] + digest_text(
                sum_after(5000, key@, setting_salt(salt@)),
            ),
        }),
{
    law_hash_of_setting(key@, salt@);
}

/// Hashing in place gives what hashing by value gives, and leaves as many zeros
/// as the password had bytes.
pub proof fn law_hashing_wipes(
    password: &mut Password,
    by_value: Password,
    salt: &[u8],
    bytes: Vec<u8>,
    same: Vec<u8>,
)
    requires
        by_value@ == password@,
        call_ensures(hash_and_wipe, (password, salt), bytes),
        call_ensures(hash_bytes_with_salt, (by_value, salt), same),
    ensures
        bytes@ == same@,
        final(password)@.len() == old(password)@.len(),
        forall|i: int| 0 <= i < old(password)@.len() ==> #[trigger] final(password)@[i] == 0,
{
}

/// As [`law_hashing_wipes`], for text.
pub proof fn law_text_hashing_wipes(
    password: &mut Password,
    by_value: Password,
    salt: &[u8],
    text: String,
    same: String,
)
    requires
        by_value@ == password@,
        call_ensures(hash_text_and_wipe, (password, salt), text),
        call_ensures(hash_with_salt, (by_value, salt), same),
    ensures
        text@ == same@,
        final(password)@.len() == old(password)@.len(),
        forall|i: int| 0 <= i < old(password)@.len() ==> #[trigger] final(password)@[i] == 0,
{
    if valid_utf8(setting_salt(salt@)) {
        law_text_determined(text@, same@);
    }
}

/// Which strings [`verify`] calls no hash: those that do not start with `$6$`,
/// and those that have no `$` after it. On all others it decides.
pub proof fn law_verify_decides(password: Password, hash: &str, result: Result<bool, InvalidHash>)
    requires
        call_ensures(verify, (password, hash), result),
    ensures
        ({
            let h = encode_utf8(hash@);
            result is Err <==> h.len() < 3 || h[0] != 0x24 || h[1] != 0x36 || h[2] != 0x24 || (
            forall|i: int| 3 <= i < h.len() ==> #[trigger] h[i] != 0x24)
        }),
        result matches Err(e) ==> e == InvalidHash,
{
    law_is_hash(encode_utf8(hash@));
}

/// What is a hash string: `$6$`, and a `$` somewhere after it.
pub proof fn law_is_hash(h: Seq<u8>)
    ensures
        !is_hash(h) <==> h.len() < 3 || h[0] != 0x24 || h[1] != 0x36 || h[2] != 0x24 || (forall|
            i: int,
        |
            3 <= i < h.len() ==> #[trigger] h[i] != 0x24),
{
    if h.len() >= 3 && h[0] == 0x24 && h[1] == 0x36 && h[2] == 0x24 {
        assert(SHA512_SALT_PREFIX@ =~= h.subrange(0, 3));
        let rest = h.skip(3);
        lemma_last_dollar_found(rest);
        if last_dollar(rest) >= 0 {
            assert(h[3 + last_dollar(rest)] == 0x24);
        } else {
            assert forall|i: int| 3 <= i < h.len() implies #[trigger] h[i] != 0x24 by {
                assert(rest[i - 3] != 0x24);
            }
        }
    } else if SHA512_SALT_PREFIX@.is_prefix_of(h) {
        assert(h.subrange(0, 3)[0] == h[0] && h.subrange(0, 3)[1] == h[1] && h.subrange(0, 3)[2]
            == h[2]);
    }
}

proof fn lemma_last_dollar_found(s: Seq<u8>)
    ensures
        -1 <= last_dollar(s) < s.len(),
        last_dollar(s) >= 0 ==> s[last_dollar(s)] == 0x24,
        forall|i: int| last_dollar(s) < i < s.len() ==> #[trigger] s[i] != 0x24,
    decreases s.len(),
{
    if s.len() > 0 && s.last() != 0x24 {
        lemma_last_dollar_found(s.drop_last());
        assert forall|i: int| last_dollar(s) < i < s.len() implies #[trigger] s[i] != 0x24 by {
            if i < s.len() - 1 {
                assert(s.drop_last()[i] != 0x24);
            }
        }
    }
}

/// What [`verify`] decides: whether hashing the password under what stands
/// before the last `$` gives the string again, byte for byte.
pub proof fn law_verify_recomputes(
    password: Password,
    again: Password,
    hash: &str,
    k: int,
    setting: &[u8],
    recomputed: Vec<u8>,
    result: Result<bool, InvalidHash>,
)
    requires
        again@ == password@,
        3 <= k < encode_utf8(hash@).len(),
        encode_utf8(hash@).take(3) == seq![0x24u8, 0x36, 0x24],
        encode_utf8(hash@)[k] == 0x24,
        forall|i: int|
            k < i < encode_utf8(hash@).len() ==> #[trigger] encode_utf8(hash@)[i] != 0x24,
        setting@ == encode_utf8(hash@).take(k),
        call_ensures(hash_bytes_with_salt, (again, setting), recomputed),
        call_ensures(verify, (password, hash), result),
    ensures
        result is Ok,
        result matches Ok(accepted) ==> (accepted <==> recomputed@ == encode_utf8(hash@)),
{
    let h = encode_utf8(hash@);
    lemma_setting_before(h, k);
}

proof fn lemma_setting_before(h: Seq<u8>, k: int)
    requires
        3 <= k < h.len(),
        h.take(3) == seq![0x24u8, 0x36, 0x24],
        h[k] == 0x24,
        forall|i: int| k < i < h.len() ==> #[trigger] h[i] != 0x24,
    ensures
        is_hash(h),
        setting_of(h) == h.take(k),
{
    assert(h.take(3)[0] == h[0] && h.take(3)[1] == h[1] && h.take(3)[2] == h[2]);
    law_is_hash(h);
    let rest = h.skip(3);
    assert forall|i: int| 0 <= i < rest.skip(k - 3 + 1).len() implies #[trigger] rest.skip(
        k - 3 + 1,
    )[i] != 0x24 by {
        assert(h[k + 1 + i] != 0x24);
    }
    lemma_last_dollar_is(rest, k - 3);
}

/// A password is accepted for the hash string made of it, whatever the salt.
pub proof fn law_password_accepted(
    password: Password,
    again: Password,
    salt: &[u8],
    hash: String,
    stored: &str,
    result: Result<bool, InvalidHash>,
)
    requires
        again@ == password@,
        valid_utf8(setting_salt(salt@)),
        stored@ == hash@,
        call_ensures(hash_with_salt, (password, salt), hash),
        call_ensures(verify, (again, stored), result),
    ensures
        result == Ok::<bool, InvalidHash>(true),
{
    law_verify_accepts(password@, salt@);
}

/// Another password that is accepted for a hash string gives a collision of
/// SHA-512: two different messages with one digest.
pub proof fn law_other_password_collides(
    password: Password,
    other: Password,
    salt: &[u8],
    hash: String,
    stored: &str,
    result: Result<bool, InvalidHash>,
) -> (pair: (Seq<u8>, Seq<u8>))
    requires
        other@ != password@,
        valid_utf8(setting_salt(salt@)),
        stored@ == hash@,
        call_ensures(hash_with_salt, (password, salt), hash),
        call_ensures(verify, (other, stored), result),
        result == Ok::<bool, InvalidHash>(true),
    ensures
        pair.0 != pair.1,
        sha512(pair.0)@ == sha512(pair.1)@,
{
    law_verify_compares_sums(password@, other@, salt@);
    let n = match setting_rounds(salt@) {
        Some(n) => n,
        None => 5000,
    };
    law_same_sum_collides(other@, password@, setting_salt(salt@), n)
}

/// Checking in place decides as [`verify`] does, and leaves as many zeros as the
/// password had bytes.
pub proof fn law_verify_wipes(
    password: &mut Password,
    by_value: Password,
    hash: &str,
    result: Result<bool, InvalidHash>,
    same: Result<bool, InvalidHash>,
)
    requires
        by_value@ == password@,
        call_ensures(verify_and_wipe, (password, hash), result),
        call_ensures(verify, (by_value, hash), same),
    ensures
        result == same,
        final(password)@.len() == old(password)@.len(),
        forall|i: int| 0 <= i < old(password)@.len() ==> #[trigger] final(password)@[i] == 0,
{
}

/// What [`hash`] returns for a number of rounds: the string names the number
/// itself if it is from 1000 to 999,999,999, and 1000 or 999,999,999 for one
/// below or above, and its digest is that of exactly as many rounds; for 5000,
/// and for no number, it names none, and its digest is that of 5000. The salt
/// has 16 characters of the alphabet.
pub proof fn law_hash(password: Password, rounds: Option<u32>, text: String)
    requires
        call_ensures(hash, (password, rounds), text),
    ensures
        exists|salt: Seq<u8>|
            {
                &&& #[trigger] salt.len() == 16
                &&& forall|i: int|
                    0 <= i < 16 ==> {
                        ||| 0x2e <= #[trigger] salt[i] <= 0x39
                        ||| 0x41 <= salt[i] <= 0x5a
                        ||| 0x61 <= salt[i] <= 0x7a
                    }
                &&& encode_utf8(text@) == (if rounds == None::<u32> || rounds == Some(5000u32) {
                    seq![0x24u8, 0x36, 0x24] + salt + seq![0x24u8] + digest_text(
                        sum_after(5000, password@, salt),
                    )
                } else {
                    let n = if rounds->0 < 1000 {
                        1000
                    } else if rounds->0 > 999_999_999 {
                        999_999_999
                    } else {
                        rounds->0 as nat
                    };
                    seq![
                        0x24u8,
                        0x36,
                        0x24,
                        0x72,
                        0x6f,
                        0x75,
                        0x6e,
                        0x64,
                        0x73,
                        0x3d,
                    ] + decimal(n) + seq![0x24u8] + salt + seq![0x24u8] + digest_text(
                        sum_after(n, password@, salt),
                    )
                })
            },
{
    let random = choose|random: Seq<u8>|
        random.len() == 16 && encode_utf8(text@) == hash_text(
            password@,
            #[trigger] salt_chars(random),
            requested_rounds(rounds),
        );
    let salt = salt_chars(random);
    law_new_salt(random);
    assert(forall|i: int| 0 <= i < 16 ==> is_b64_char(#[trigger] salt[i]));
    lemma_hash_text_written(password@, salt, requested_rounds(rounds));
    assert(salt.len() == 16);
}

/// A password is accepted for every new hash string that [`hash`] made of it, and
/// another password only with a collision of SHA-512.
pub proof fn law_new_hash_accepted(
    password: Password,
    rounds: Option<u32>,
    text: String,
    stored: &str,
    given: Password,
    result: Result<bool, InvalidHash>,
) -> (pair: (Seq<u8>, Seq<u8>))
    requires
        call_ensures(hash, (password, rounds), text),
        stored@ == text@,
        call_ensures(verify, (given, stored), result),
    ensures
        result is Ok,
        given@ == password@ ==> result == Ok::<bool, InvalidHash>(true),
        result == Ok::<bool, InvalidHash>(true) && given@ != password@ ==> pair.0 != pair.1
            && sha512(pair.0)@ == sha512(pair.1)@,
{
    let random = choose|random: Seq<u8>|
        random.len() == 16 && encode_utf8(text@) == hash_text(
            password@,
            #[trigger] salt_chars(random),
            requested_rounds(rounds),
        );
    let salt = salt_chars(random);
    let named = requested_rounds(rounds);
    let setting = setting_text(salt, named);
    law_new_salt(random);
    law_new_hash_verifies(password@, random, rounds);
    lemma_b64_text_field(salt);
    lemma_hash_text_is_crypt_text(password@, salt, named);
    lemma_read_setting_text(salt, named, Seq::empty());
    assert(setting + Seq::<u8>::empty() =~= setting);
    assert(cut_salt(salt) =~= salt);
    law_verify_compares_sums(password@, given@, setting);
    if result == Ok::<bool, InvalidHash>(true) && given@ != password@ {
        let n = match named {
            Some(n) => n,
            None => 5000,
        };
        law_same_sum_collides(given@, password@, salt, n)
    } else {
        (Seq::empty(), Seq::empty())
    }
}

/// The text of a hash, byte by byte before the digest.
pub proof fn lemma_hash_text_written(key: Seq<u8>, salt: Seq<u8>, rounds: Option<nat>)
    ensures
        hash_text(key, salt, rounds) == (match rounds {
            Some(n) => seq![0x24u8, 0x36, 0x24, 0x72, 0x6f, 0x75, 0x6e, 0x64, 0x73, 0x3d] + decimal(
                n,
            ) + seq![0x24u8] + salt + seq![0x24u8] + digest_text(sum_after(n, key, salt)),
            None => seq![0x24u8, 0x36, 0x24] + salt + seq![0x24u8] + digest_text(
                sum_after(5000, key, salt),
            ),
        }),
{
    match rounds {
        Some(n) => {
            assert(hash_text(key, salt, rounds) =~= seq![
                0x24u8,
                0x36,
                0x24,
                0x72,
                0x6f,
                0x75,
                0x6e,
                0x64,
                0x73,
                0x3d,
            ] + decimal(n) + seq![0x24u8] + salt + seq![0x24u8] + digest_text(
                sum_after(n, key, salt),
            ));
        },
        None => {
            assert(hash_text(key, salt, rounds) =~= seq![0x24u8, 0x36, 0x24] + salt + seq![0x24u8]
                + digest_text(sum_after(5000, key, salt)));
        },
    }
}

} // verus!
