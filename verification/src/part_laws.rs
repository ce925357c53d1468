//! Laws of the parts: parameters, passwords, numbers, settings and encodings,
//! as the calls that handle them give and take them.

use crate::api::{encode_salt, generate_salt, hash_rounds_and_wipe, requested_rounds, salt_chars};
use crate::backend::{constant_time_eq, secure_zero_bytes, secure_zero_vec, sha512, Sha512Context};
use crate::base64::{
    b64_char, b64_encode, digest_text, encode_crypt_base64, lemma_b64_char, push_digest,
};
use crate::call_laws::lemma_hash_text_written;
use crate::crypt::sum_after;
use crate::decimal::{
    all_digits, atoi_u32, decimal, digits_value, is_digit, lemma_decimal_value, push_u32_as_ascii,
};
use crate::error::Error;
use crate::hasher::Sha512Crypt;
use crate::modular::{fields_of, id_of, is_modular, split_hash, PasswordHash};
use crate::params::Sha512CryptParams;
use crate::password::Password;
use crate::setting::{
    cut_salt, find_dollar, lemma_first_dollar, lemma_read_setting_text, no_dollar, parse_setting,
    push_setting, rounds_as_nat, salt_spec_output_size, setting_text, starts_with,
    SHA512_ROUNDS_PREFIX,
};
use vstd::prelude::*;
use vstd::utf8::encode_utf8;

verus! {

/// Parameters can be made with 1000 to 999,999,999 rounds, and give back their
/// rounds; nothing else is taken.
pub proof fn law_params_new(rounds: u32, params: Result<Sha512CryptParams, Error>, read: u32)
    requires
        call_ensures(Sha512CryptParams::new, (rounds,), params),
        params is Ok ==> call_ensures(Sha512CryptParams::rounds, (params->Ok_0,), read),
    ensures
        params is Ok <==> 1000 <= rounds <= 999_999_999,
        params is Ok ==> read == rounds,
        params is Err ==> params->Err_0 == (Error::ParamInvalid { name: "rounds" }),
{
}

/// What a parameter field sets: the empty one 5000 rounds, and one of `rounds=`
/// and digits the number that they spell, if it is from 1000 to 999,999,999.
/// Without `rounds=` the field is malformed; otherwise the number is invalid.
pub proof fn law_params_from_str(
    s: &str,
    params: Result<Sha512CryptParams, Error>,
    read: u32,
)
    requires
        call_ensures(Sha512CryptParams::from_str, (s,), params),
        params is Ok ==> call_ensures(Sha512CryptParams::rounds, (params->Ok_0,), read),
    ensures
        ({
            let field = encode_utf8(s@);
            let named = field.len() >= 7 && field.take(7) == seq![
                0x72u8,
                0x6f,
                0x75,
                0x6e,
                0x64,
                0x73,
                0x3d,
            ];
            let value = digits_value(field.skip(7));
            let digits = forall|i: int|
                7 <= i < field.len() ==> 0x30 <= #[trigger] field[i] <= 0x39;
            if field.len() == 0 {
                params is Ok && read == 5000
            } else if !named {
                params == Err::<Sha512CryptParams, Error>(Error::ParamsInvalid)
            } else if digits && 1000 <= value <= 999_999_999 {
                params is Ok && read == value
            } else {
                params == Err::<Sha512CryptParams, Error>(Error::ParamInvalid { name: "rounds" })
            }
        }),
{
    let field = encode_utf8(s@);
    if field.len() >= 7 {
        assert(field.take(7) =~= field.subrange(0, 7));
        assert(SHA512_ROUNDS_PREFIX@ =~= seq![0x72u8, 0x6f, 0x75, 0x6e, 0x64, 0x73, 0x3d]);
        let rest = field.skip(7);
        if forall|i: int| 7 <= i < field.len() ==> 0x30 <= #[trigger] field[i] <= 0x39 {
            assert forall|i: int| 0 <= i < rest.len() implies is_digit(#[trigger] rest[i]) by {
                assert(rest[i] == field[7 + i]);
            }
        }
        if all_digits(rest) {
            assert forall|i: int| 7 <= i < field.len() implies 0x30 <= #[trigger] field[i]
                <= 0x39 by {
                assert(is_digit(rest[i - 7]));
            }
        }
    }
}

/// The parameter field of parameters is `rounds=` and their rounds in decimal.
pub proof fn law_params_to_string(params: Sha512CryptParams, text: String, n: u32)
    requires
        call_ensures(Sha512CryptParams::to_string, (&params,), text),
        call_ensures(Sha512CryptParams::rounds, (params,), n),
    ensures
        encode_utf8(text@) == seq![0x72u8, 0x6f, 0x75, 0x6e, 0x64, 0x73, 0x3d] + decimal(n as nat),
{
    assert(encode_utf8(text@) =~= seq![0x72u8, 0x6f, 0x75, 0x6e, 0x64, 0x73, 0x3d] + decimal(
        n as nat,
    ));
}

/// The default is 5000 rounds, and a hasher gives back the parameters it was
/// made with.
pub proof fn law_hasher_params(
    params: Sha512CryptParams,
    made: Sha512Crypt,
    from: Sha512Crypt,
    default: Sha512Crypt,
    of_made: Sha512CryptParams,
    of_from: Sha512CryptParams,
    of_default: Sha512CryptParams,
    default_params: Sha512CryptParams,
    n: u32,
    m: u32,
)
    requires
        call_ensures(Sha512Crypt::new, (params,), made),
        call_ensures(<Sha512Crypt as From<Sha512CryptParams>>::from, (params,), from),
        call_ensures(<Sha512Crypt as Default>::default, (), default),
        call_ensures(<Sha512CryptParams as Default>::default, (), default_params),
        call_ensures(Sha512Crypt::params, (&made,), of_made),
        call_ensures(Sha512Crypt::params, (&from,), of_from),
        call_ensures(Sha512Crypt::params, (&default,), of_default),
        call_ensures(Sha512CryptParams::rounds, (of_default,), n),
        call_ensures(Sha512CryptParams::rounds, (default_params,), m),
    ensures
        of_made == params,
        of_from == params,
        n == 5000,
        m == 5000,
{
}

/// A password gives back the bytes it was made of, all of them.
pub proof fn law_password_bytes(
    text: &str,
    string: String,
    raw: Vec<u8>,
    of_text: Password,
    of_string: Password,
    of_raw: Password,
    of_bytes: Password,
    a: Vec<u8>,
    b: Vec<u8>,
    c: Vec<u8>,
    d: Vec<u8>,
)
    requires
        call_ensures(<Password as From<&str>>::from, (text,), of_text),
        call_ensures(<Password as From<String>>::from, (string,), of_string),
        call_ensures(<Password as From<Vec<u8>>>::from, (raw,), of_raw),
        call_ensures(Password::from_bytes, (raw,), of_bytes),
        call_ensures(Password::into_bytes, (of_text,), a),
        call_ensures(Password::into_bytes, (of_string,), b),
        call_ensures(Password::into_bytes, (of_raw,), c),
        call_ensures(Password::into_bytes, (of_bytes,), d),
    ensures
        a@ == encode_utf8(text@),
        b@ == encode_utf8(string@),
        c@ == raw@,
        d@ == raw@,
{
}

/// The description of a password is the same for all passwords.
pub proof fn law_password_description(one: Password, two: Password, a: String, b: String)
    requires
        call_ensures(Password::debug_string, (&one,), a),
        call_ensures(Password::debug_string, (&two,), b),
    ensures
        a@ == b@,
        a@.len() == 15,
        a@.take(8) == "Password"@,
{
    reveal_strlit("Password { .. }");
    reveal_strlit("Password");
    assert(a@.take(8) =~= "Password"@);
}

/// Wiping leaves as many zeros as there were bytes.
pub proof fn law_wiping(password: &mut Password, bytes: &mut [u8], vec: &mut Vec<u8>)
    requires
        call_ensures(Password::wipe, (password,), ()),
        call_ensures(secure_zero_bytes, (bytes,), ()),
        call_ensures(secure_zero_vec, (vec,), ()),
    ensures
        final(password)@.len() == old(password)@.len(),
        forall|i: int| 0 <= i < old(password)@.len() ==> #[trigger] final(password)@[i] == 0,
        final(bytes)@.len() == old(bytes)@.len(),
        forall|i: int| 0 <= i < old(bytes)@.len() ==> #[trigger] final(bytes)@[i] == 0,
        final(vec)@.len() == old(vec)@.len(),
        forall|i: int| 0 <= i < old(vec)@.len() ==> #[trigger] final(vec)@[i] == 0,
{
}

/// Two byte strings compare as equal if they have the same length and the same
/// byte in every place, and only then.
pub proof fn law_comparison(a: &[u8], b: &[u8], equal: bool)
    requires
        call_ensures(constant_time_eq, (a, b), equal),
    ensures
        equal <==> a@.len() == b@.len() && forall|i: int|
            0 <= i < a@.len() ==> #[trigger] a@[i] == b@[i],
{
    if a@.len() == b@.len() && forall|i: int| 0 <= i < a@.len() ==> #[trigger] a@[i] == b@[i] {
        assert(a@ =~= b@);
    }
}

/// Digits are read as the number that they spell, or as the largest there is if
/// that is smaller; anything else is not read.
pub proof fn law_number_read(ascii: &[u8], value: Option<u32>)
    requires
        call_ensures(atoi_u32, (ascii,), value),
    ensures
        value is Some <==> forall|i: int|
            0 <= i < ascii@.len() ==> 0x30 <= #[trigger] ascii@[i] <= 0x39,
        value matches Some(v) ==> v == digits_value(ascii@) || (v == 0xffff_ffff && digits_value(
            ascii@,
        ) > 0xffff_ffff),
{
    if forall|i: int| 0 <= i < ascii@.len() ==> 0x30 <= #[trigger] ascii@[i] <= 0x39 {
        assert(forall|i: int| 0 <= i < ascii@.len() ==> is_digit(#[trigger] ascii@[i]));
    }
    if all_digits(ascii@) {
        assert forall|i: int| 0 <= i < ascii@.len() implies 0x30 <= #[trigger] ascii@[i]
            <= 0x39 by {
            assert(is_digit(ascii@[i]));
        }
    }
}

/// A number that is written is read back as itself, and writing keeps what is
/// there.
pub proof fn law_number_round_trip(
    value: u32,
    output: &mut Vec<u8>,
    written: &[u8],
    read: Option<u32>,
)
    requires
        call_ensures(push_u32_as_ascii, (value, output), ()),
        final(output)@ == old(output)@ + written@,
        call_ensures(atoi_u32, (written,), read),
    ensures
        read == Some(value),
        written@ == decimal(value as nat),
{
    let n = old(output)@.len() as int;
    assert(written@ =~= final(output)@.skip(n));
    assert(decimal(value as nat) =~= final(output)@.skip(n));
    lemma_decimal_value(value as nat);
}

/// A setting that is written is read back: the salt up to 16 bytes, and the
/// rounds, if they are in range. Its text is `$6$`, then `rounds=`, the number
/// and `$` if there is one, and the salt.
pub proof fn law_setting_round_trip(
    salt: &[u8],
    rounds: Option<u32>,
    output: &mut Vec<u8>,
    setting: &[u8],
    parsed: (&[u8], Option<u32>),
)
    requires
        forall|i: int| 0 <= i < salt@.len() ==> #[trigger] salt@[i] != 0x24,
        rounds matches Some(n) ==> 1000 <= n <= 999_999_999,
        call_ensures(push_setting, (salt, rounds, output), ()),
        final(output)@ == old(output)@ + setting@,
        call_ensures(parse_setting, (setting,), parsed),
    ensures
        setting@ == (match rounds {
            Some(n) => seq![0x24u8, 0x36, 0x24, 0x72, 0x6f, 0x75, 0x6e, 0x64, 0x73, 0x3d] + decimal(
                n as nat,
            ) + seq![0x24u8] + salt@,
            None => seq![0x24u8, 0x36, 0x24] + salt@,
        }),
        parsed.0@ == (if salt@.len() <= 16 {
            salt@
        } else {
            salt@.take(16)
        }),
        parsed.1 == rounds,
{
    let n = old(output)@.len() as int;
    let named = rounds_as_nat(rounds);
    let text = setting_text(salt@, named);
    assert(setting@ =~= final(output)@.skip(n));
    assert(text =~= final(output)@.skip(n));
    assert(no_dollar(salt@));
    lemma_read_setting_text(salt@, named, Seq::empty());
    assert(text + Seq::<u8>::empty() =~= text);
    assert(cut_salt(salt@) =~= (if salt@.len() <= 16 {
        salt@
    } else {
        salt@.take(16)
    }));
    match rounds {
        Some(n) => {
            assert(text =~= seq![0x24u8, 0x36, 0x24, 0x72, 0x6f, 0x75, 0x6e, 0x64, 0x73, 0x3d]
                + decimal(n as nat) + seq![0x24u8] + salt@);
        },
        None => {
            assert(text =~= seq![0x24u8, 0x36, 0x24] + salt@);
        },
    }
}

/// What a salt is made of random bytes: a character for each, for its lowest six
/// bits.
pub proof fn law_salt_encoding(buf: &mut [u8], i: int)
    requires
        call_ensures(encode_salt, (buf,), ()),
    ensures
        final(buf)@.len() == old(buf)@.len(),
        0 <= i < old(buf)@.len() ==> final(buf)@[i] == b64_char(
            old(buf)@[i] - old(buf)@[i] / 64 * 64,
        ),
{
}

/// A generated salt fills the buffer with characters of the alphabet.
pub proof fn law_generated_salt(buf: &mut [u8], i: int)
    requires
        call_ensures(generate_salt, (buf,), ()),
    ensures
        final(buf)@.len() == old(buf)@.len(),
        0 <= i < old(buf)@.len() ==> {
            let c = final(buf)@[i];
            0x2e <= c <= 0x39 || 0x41 <= c <= 0x5a || 0x61 <= c <= 0x7a
        },
{
    let random = choose|random: Seq<u8>|
        random.len() == old(buf)@.len() && final(buf)@ == #[trigger] salt_chars(random);
    if 0 <= i < old(buf)@.len() {
        lemma_b64_char(random[i] as int % 64);
    }
}

/// A digest is that of all the pieces fed, in the order in which they were fed.
pub proof fn law_digest_of_pieces(
    fresh: Sha512Context,
    ctx: &mut Sha512Context,
    data: &[u8],
    fed: Sha512Context,
    digest: [u8; 64],
)
    requires
        call_ensures(Sha512Context::new, (), fresh),
        call_ensures(Sha512Context::update, (ctx, data), ()),
        fed@ == final(ctx)@,
        call_ensures(Sha512Context::finish, (fed,), digest),
    ensures
        digest == sha512(old(ctx)@ + data@),
        old(ctx)@ == fresh@ ==> digest == sha512(data@),
{
    assert(Seq::<u8>::empty() + data@ =~= data@);
}

/// What hashing with a salt and a request for rounds returns: the string names
/// the number that was asked for, if it is from 1000 to 999,999,999 and not
/// 5000, and its digest is that of exactly as many rounds. The password is
/// wiped.
pub proof fn law_hash_rounds(
    password: &mut Password,
    rounds: Option<u32>,
    salt: &[u8],
    text: String,
)
    requires
        forall|i: int|
            0 <= i < salt@.len() ==> {
                ||| 0x2e <= #[trigger] salt@[i] <= 0x39
                ||| 0x41 <= salt@[i] <= 0x5a
                ||| 0x61 <= salt@[i] <= 0x7a
            },
        call_ensures(hash_rounds_and_wipe, (password, rounds, salt), text),
    ensures
        ({
            let used = if salt@.len() <= 16 {
                salt@
            } else {
                salt@.take(16)
            };
            encode_utf8(text@) == (if rounds == None::<u32> || rounds == Some(5000u32) {
                seq![0x24u8, 0x36, 0x24] + used + seq![0x24u8] + digest_text(
                    sum_after(5000, old(password)@, used),
                )
            } else {
                let n = if rounds->0 < 1000 {
                    1000
                } else if rounds->0 > 999_999_999 {
                    999_999_999
                } else {
                    rounds->0 as nat
                };
                seq![0x24u8, 0x36, 0x24, 0x72, 0x6f, 0x75, 0x6e, 0x64, 0x73, 0x3d] + decimal(n)
                    + seq![0x24u8] + used + seq![0x24u8] + digest_text(
                    sum_after(n, old(password)@, used),
                )
            })
        }),
        final(password)@.len() == old(password)@.len(),
        forall|i: int| 0 <= i < old(password)@.len() ==> #[trigger] final(password)@[i] == 0,
{
    let used = if salt@.len() <= 16 {
        salt@
    } else {
        salt@.take(16)
    };
    assert(cut_salt(salt@) =~= used);
    lemma_hash_text_written(old(password)@, used, requested_rounds(rounds));
}

/// The encodings are appended to what is there.
pub proof fn law_encodings(
    input: &[u8],
    encoded: Vec<u8>,
    digest: &[u8; 64],
    output: &mut Vec<u8>,
)
    requires
        call_ensures(encode_crypt_base64, (input,), encoded),
        call_ensures(push_digest, (digest, output), ()),
    ensures
        encoded@ == b64_encode(input@),
        final(output)@.take(old(output)@.len() as int) == old(output)@,
        final(output)@.skip(old(output)@.len() as int) == digest_text(digest@),
{
    assert(final(output)@.take(old(output)@.len() as int) =~= old(output)@);
    assert(final(output)@.skip(old(output)@.len() as int) =~= digest_text(digest@));
}

/// Where the first `$` is, and what it is to start with something.
pub proof fn law_searching(s: &[u8], prefix: &[u8], k: usize, yes: bool)
    requires
        call_ensures(find_dollar, (s,), k),
        call_ensures(starts_with, (s, prefix), yes),
    ensures
        k <= s@.len(),
        k < s@.len() ==> s@[k as int] == 0x24,
        forall|i: int| 0 <= i < k ==> #[trigger] s@[i] != 0x24,
        yes <==> exists|rest: Seq<u8>| s@ == #[trigger] (prefix@ + rest),
{
    lemma_first_dollar(s@);
    assert forall|i: int| 0 <= i < k implies #[trigger] s@[i] != 0x24 by {
        assert(s@.take(k as int)[i] != 0x24);
    }
    let n = prefix@.len() as int;
    if yes {
        assert(s@ =~= prefix@ + s@.skip(n)) by {
            assert(prefix@ =~= s@.subrange(0, n));
        }
    }
    if exists|rest: Seq<u8>| s@ == #[trigger] (prefix@ + rest) {
        let rest = choose|rest: Seq<u8>| s@ == #[trigger] (prefix@ + rest);
        assert((prefix@ + rest).subrange(0, n) =~= prefix@);
    }
}

/// A hash string in Modular Crypt Format is kept as it is, and given apart into
/// its identifier and its fields; any other string is refused.
pub proof fn law_modular_strings(
    text: String,
    borrowed: &str,
    hash: Result<PasswordHash, Error>,
    parts: Result<(&str, Vec<&str>), Error>,
    kept: &str,
    i: int,
)
    requires
        borrowed@ == text@,
        call_ensures(PasswordHash::new, (text,), hash),
        call_ensures(split_hash, (borrowed,), parts),
        hash is Ok ==> call_ensures(PasswordHash::as_str, (&hash->Ok_0,), kept),
    ensures
        hash is Ok <==> is_modular(encode_utf8(text@)),
        parts is Ok <==> hash is Ok,
        hash is Ok ==> kept@ == text@,
        parts is Ok ==> encode_utf8(parts->Ok_0.0@) == id_of(encode_utf8(text@)),
        parts is Ok ==> parts->Ok_0.1@.len() == fields_of(encode_utf8(text@)).len(),
        parts is Ok && 0 <= i < parts->Ok_0.1@.len() ==> encode_utf8(parts->Ok_0.1@[i]@)
            == fields_of(encode_utf8(text@))[i],
        hash is Err ==> hash->Err_0 == Error::EncodingInvalid && parts->Err_0
            == Error::EncodingInvalid,
{
}

/// The room for a setting and a `$` after it is exact without rounds, and enough
/// with them: exact for rounds of nine digits.
pub proof fn law_setting_room(salt: Seq<u8>, salt_len: usize, n: nat, plain: usize, named: usize)
    requires
        salt.len() == salt_len,
        salt_len + 21 <= usize::MAX,
        n <= 999_999_999,
        call_ensures(salt_spec_output_size, (salt_len, false), plain),
        call_ensures(salt_spec_output_size, (salt_len, true), named),
    ensures
        plain == setting_text(salt, None).len() + 1,
        named >= setting_text(salt, Some(n)).len() + 1,
        n >= 100_000_000 ==> named == setting_text(salt, Some(n)).len() + 1,
{
    reveal_with_fuel(decimal, 10);
}

} // verus!
