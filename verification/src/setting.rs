//! The setting of a hash: its salt and its number of rounds, and the text
//! `$6$[rounds=N$]salt` that holds them.

use crate::decimal::{
    all_digits, atoi_u32, decimal, digits_value, is_digit, lemma_decimal_value, push_u32_as_ascii,
};
use vstd::prelude::*;

verus! {

/// The most bytes of a salt that are used.
pub const SALT_LEN_MAX: usize = 16;

/// The number of rounds when a setting names none.
pub const ROUNDS_DEFAULT: u32 = 5000;

/// The fewest rounds; a setting that asks for fewer gets these.
pub const ROUNDS_MIN: u32 = 1000;

/// The most rounds; a setting that asks for more gets these.
pub const ROUNDS_MAX: u32 = 999_999_999;

/// `$`, which ends each part of a hash string.
pub const DOLLAR: u8 = 0x24;

/// `$6$`, which starts a SHA512-crypt hash string.
pub const SHA512_SALT_PREFIX: [u8; 3] = [0x24, 0x36, 0x24];

/// `rounds=`, which starts the part that names the number of rounds.
pub const SHA512_ROUNDS_PREFIX: [u8; 7] = [0x72, 0x6f, 0x75, 0x6e, 0x64, 0x73, 0x3d];

/// The number of bytes before the first `$`: all of them if there is none.
pub open spec fn first_dollar(s: Seq<u8>) -> int
    decreases s.len(),
{
    if s.len() == 0 || s[0] == DOLLAR {
        0
    } else {
        1 + first_dollar(s.skip(1))
    }
}

/// Whether no byte is `$`.
pub open spec fn no_dollar(s: Seq<u8>) -> bool {
    forall|i: int| 0 <= i < s.len() ==> #[trigger] s[i] != DOLLAR
}

/// A number of rounds brought into the allowed range.
pub open spec fn clamp_rounds(n: nat) -> nat {
    if n < ROUNDS_MIN {
        ROUNDS_MIN as nat
    } else if n > ROUNDS_MAX {
        ROUNDS_MAX as nat
    } else {
        n
    }
}

/// A setting without the `$6$` at its start.
pub open spec fn after_id(setting: Seq<u8>) -> Seq<u8> {
    if SHA512_SALT_PREFIX@.is_prefix_of(setting) {
        setting.skip(3)
    } else {
        setting
    }
}

/// What stands between `rounds=` and the next `$` (or the end), for a setting
/// that has `rounds=` after the `$6$`.
pub open spec fn rounds_digits(setting: Seq<u8>) -> Seq<u8> {
    let rest = after_id(setting).skip(7);
    rest.take(first_dollar(rest))
}

/// Whether a setting names a number of rounds: it has `rounds=` after the
/// `$6$`, and then only digits up to a `$`. Otherwise `rounds=` is salt.
pub open spec fn names_rounds(setting: Seq<u8>) -> bool {
    &&& SHA512_ROUNDS_PREFIX@.is_prefix_of(after_id(setting))
    &&& first_dollar(after_id(setting).skip(7)) < after_id(setting).skip(7).len()
    &&& all_digits(rounds_digits(setting))
}

/// The number of rounds a setting names, brought into range.
pub open spec fn setting_rounds(setting: Seq<u8>) -> Option<nat> {
    if names_rounds(setting) {
        Some(clamp_rounds(digits_value(rounds_digits(setting))))
    } else {
        None
    }
}

/// The salt of a setting: what follows the number of rounds, up to a `$` and
/// no more than 16 bytes.
pub open spec fn setting_salt(setting: Seq<u8>) -> Seq<u8> {
    let rest = if names_rounds(setting) {
        after_id(setting).skip(7).skip(rounds_digits(setting).len() as int + 1)
    } else {
        after_id(setting)
    };
    salt_part(rest)
}

/// The start of `s` that can be a salt: up to a `$`, and no more than 16 bytes.
pub open spec fn salt_part(s: Seq<u8>) -> Seq<u8> {
    if first_dollar(s) < SALT_LEN_MAX {
        s.take(first_dollar(s))
    } else {
        s.take(SALT_LEN_MAX as int)
    }
}

/// A number of rounds, or none, as a mathematical number.
pub open spec fn rounds_as_nat(rounds: Option<u32>) -> Option<nat> {
    match rounds {
        Some(n) => Some(n as nat),
        None => None,
    }
}

/// The text of the number of rounds in a setting: none for the default.
pub open spec fn rounds_text(rounds: Option<nat>) -> Seq<u8> {
    match rounds {
        Some(n) => (SHA512_ROUNDS_PREFIX@ + decimal(n)).push(DOLLAR),
        None => Seq::empty(),
    }
}

/// The text of a setting.
pub open spec fn setting_text(salt: Seq<u8>, rounds: Option<nat>) -> Seq<u8> {
    SHA512_SALT_PREFIX@ + rounds_text(rounds) + salt
}

/// Where the first `$` is.
pub proof fn lemma_first_dollar(s: Seq<u8>)
    ensures
        0 <= first_dollar(s) <= s.len(),
        no_dollar(s.take(first_dollar(s))),
        first_dollar(s) < s.len() ==> s[first_dollar(s)] == DOLLAR,
    decreases s.len(),
{
    if s.len() > 0 && s[0] != DOLLAR {
        lemma_first_dollar(s.skip(1));
        let k = first_dollar(s);
        assert forall|i: int| 0 <= i < k implies #[trigger] s.take(k)[i] != DOLLAR by {
            if i > 0 {
                assert(s.skip(1).take(k - 1)[i - 1] != DOLLAR);
            }
        }
    }
}

/// A place with `$` and none before it is the first one.
pub proof fn lemma_first_dollar_is(s: Seq<u8>, k: int)
    requires
        0 <= k <= s.len(),
        no_dollar(s.take(k)),
        k < s.len() ==> s[k] == DOLLAR,
    ensures
        first_dollar(s) == k,
{
    lemma_first_dollar(s);
    let f = first_dollar(s);
    if f < k {
        assert(s.take(k)[f] != DOLLAR);
    } else if k < f {
        assert(s.take(f)[k] != DOLLAR);
    }
}

/// A salt read from a setting is a part of the setting, has no `$` and at most
/// 16 bytes.
pub proof fn lemma_setting_salt(setting: Seq<u8>)
    ensures
        no_dollar(setting_salt(setting)),
        setting_salt(setting).len() <= SALT_LEN_MAX,
        exists|start: int|
            0 <= start <= setting.len() - setting_salt(setting).len() && setting_salt(setting)
                == #[trigger] setting.skip(start).take(setting_salt(setting).len() as int),
{
    let body = after_id(setting);
    let body_start = if SHA512_SALT_PREFIX@.is_prefix_of(setting) {
        3int
    } else {
        0
    };
    let rest_start = if names_rounds(setting) {
        body_start + 7 + rounds_digits(setting).len() + 1
    } else {
        body_start
    };
    lemma_first_dollar(body.skip(7));
    let rest = if names_rounds(setting) {
        body.skip(7).skip(rounds_digits(setting).len() as int + 1)
    } else {
        body
    };
    assert(rest =~= setting.skip(rest_start));
    lemma_first_dollar(rest);
    let salt = salt_part(rest);
    assert forall|i: int| 0 <= i < salt.len() implies #[trigger] salt[i] != DOLLAR by {
        assert(rest.take(first_dollar(rest))[i] != DOLLAR);
    }
    assert(salt =~= setting.skip(rest_start).take(salt.len() as int));
}

/// The start of a salt that is used: no more than 16 bytes.
pub open spec fn cut_salt(salt: Seq<u8>) -> Seq<u8> {
    if salt.len() < SALT_LEN_MAX {
        salt
    } else {
        salt.take(SALT_LEN_MAX as int)
    }
}

/// Whether a salt, with a `$` after it, would be taken for a number of rounds.
pub open spec fn reads_as_rounds(salt: Seq<u8>) -> bool {
    SHA512_ROUNDS_PREFIX@.is_prefix_of(salt) && all_digits(salt.skip(7))
}

/// A salt, alone or with more after a `$`, is read back up to 16 bytes.
proof fn lemma_salt_part(salt: Seq<u8>, tail: Seq<u8>)
    requires
        no_dollar(salt),
        tail.len() > 0 ==> tail[0] == DOLLAR,
    ensures
        salt_part(salt + tail) == cut_salt(salt),
{
    assert((salt + tail).take(salt.len() as int) =~= salt);
    lemma_first_dollar_is(salt + tail, salt.len() as int);
    assert(salt_part(salt + tail) =~= cut_salt(salt));
}

/// Reading a setting whose rounds are spelled by `digits`, alone or with more
/// after a `$`, gives back the salt and the rounds, brought within their
/// limits.
pub proof fn lemma_read_setting_digits(digits: Seq<u8>, salt: Seq<u8>, tail: Seq<u8>)
    requires
        all_digits(digits),
        no_dollar(salt),
        tail.len() > 0 ==> tail[0] == DOLLAR,
    ensures
        ({
            let setting = SHA512_SALT_PREFIX@ + (SHA512_ROUNDS_PREFIX@ + digits).push(DOLLAR) + salt
                + tail;
            &&& setting_salt(setting) == cut_salt(salt)
            &&& setting_rounds(setting) == Some(clamp_rounds(digits_value(digits)))
        }),
{
    let setting = SHA512_SALT_PREFIX@ + (SHA512_ROUNDS_PREFIX@ + digits).push(DOLLAR) + salt + tail;
    let body = (SHA512_ROUNDS_PREFIX@ + digits).push(DOLLAR) + salt + tail;
    let rest = digits.push(DOLLAR) + (salt + tail);
    assert(SHA512_SALT_PREFIX@ =~= setting.subrange(0, 3));
    assert(setting.skip(3) =~= body);
    assert(SHA512_ROUNDS_PREFIX@ =~= body.subrange(0, 7));
    assert(body.skip(7) =~= rest);
    assert(no_dollar(digits)) by {
        assert(forall|i: int| 0 <= i < digits.len() ==> is_digit(#[trigger] digits[i]));
    }
    assert(rest.take(digits.len() as int) =~= digits);
    lemma_first_dollar_is(rest, digits.len() as int);
    assert(rounds_digits(setting) =~= digits);
    assert(names_rounds(setting));
    assert(rest.skip(digits.len() as int + 1) =~= salt + tail);
    lemma_salt_part(salt, tail);
}

/// Reading the text of a setting, alone or with more after a `$`, gives back
/// the salt and the rounds, brought within their limits.
pub proof fn lemma_read_setting_text(salt: Seq<u8>, rounds: Option<nat>, tail: Seq<u8>)
    requires
        no_dollar(salt),
        tail.len() > 0 ==> tail[0] == DOLLAR,
        rounds is None && tail.len() > 0 ==> !reads_as_rounds(salt),
    ensures
        setting_salt(setting_text(salt, rounds) + tail) == cut_salt(salt),
        setting_rounds(setting_text(salt, rounds) + tail) == (match rounds {
            Some(n) => Some(clamp_rounds(n)),
            None => None,
        }),
{
    match rounds {
        Some(n) => {
            lemma_decimal_value(n);
            lemma_read_setting_digits(decimal(n), salt, tail);
        },
        None => {
            let text = setting_text(salt, rounds) + tail;
            let body = salt + tail;
            assert(SHA512_SALT_PREFIX@ =~= text.subrange(0, 3));
            assert(text.skip(3) =~= body);
            lemma_salt_part(salt, tail);
            if names_rounds(text) {
                // The `$` after the digits is the first of the tail, so the
                // salt is `rounds=` and those digits.
                let rest = body.skip(7);
                lemma_first_dollar(rest);
                assert forall|i: int| 0 <= i < 7 implies body[i] != DOLLAR by {
                    assert(body.subrange(0, 7)[i] == SHA512_ROUNDS_PREFIX@[i]);
                }
                assert(rest[first_dollar(rest)] == body[7 + first_dollar(rest)]);
                assert(salt.len() >= 7 && tail.len() > 0);
                assert(body.subrange(0, 7) =~= salt.subrange(0, 7));
                assert(no_dollar(salt.skip(7))) by {
                    let s7 = salt.skip(7);
                    assert forall|i: int| 0 <= i < s7.len() implies #[trigger] s7[i] != DOLLAR by {
                        assert(salt[i + 7] != DOLLAR);
                    }
                }
                assert(rest.take(salt.len() - 7) =~= salt.skip(7));
                lemma_first_dollar_is(rest, salt.len() - 7);
                assert(reads_as_rounds(salt));
            }
        },
    }
}

/// Whether `s` starts with `prefix`.
pub fn starts_with(s: &[u8], prefix: &[u8]) -> (yes: bool)
    ensures
        yes == prefix@.is_prefix_of(s@),
{
    if s.len() < prefix.len() {
        return false;
    }
    let mut i: usize = 0;
    while i < prefix.len()
        invariant
            prefix@.len() <= s@.len(),
            i <= prefix@.len(),
            forall|j: int| 0 <= j < i ==> s@[j] == prefix@[j],
        decreases prefix@.len() - i,
    {
        if s[i] != prefix[i] {
            assert(s@.subrange(0, prefix@.len() as int)[i as int] != prefix@[i as int]);
            return false;
        }
        i = i + 1;
    }
    assert(prefix@ =~= s@.subrange(0, prefix@.len() as int));
    true
}

/// The number of bytes before the first `$`.
pub fn find_dollar(s: &[u8]) -> (k: usize)
    ensures
        k == first_dollar(s@),
{
    let mut k: usize = 0;
    while k < s.len() && s[k] != DOLLAR
        invariant
            k <= s@.len(),
            no_dollar(s@.take(k as int)),
        decreases s@.len() - k,
    {
        proof {
            let next = s@.take(k + 1);
            assert forall|i: int| 0 <= i < next.len() implies #[trigger] next[i] != DOLLAR by {
                if i < k {
                    assert(s@.take(k as int)[i] != DOLLAR);
                }
            }
        }
        k = k + 1;
    }
    proof {
        lemma_first_dollar_is(s@, k as int);
    }
    k
}

/// Reads a setting: its salt, and the number of rounds if it names one.
pub fn parse_setting(setting: &[u8]) -> (parsed: (&[u8], Option<u32>))
    ensures
        parsed.0@ == setting_salt(setting@),
        rounds_as_nat(parsed.1) == setting_rounds(setting@),
{
    let mut salt: &[u8] = setting;
    let mut rounds: Option<u32> = None;

    if starts_with(salt, &SHA512_SALT_PREFIX) {
        salt = &salt[3..salt.len()];
        assert(salt@ =~= setting@.skip(3));
    }
    assert(salt@ =~= after_id(setting@));

    if starts_with(salt, &SHA512_ROUNDS_PREFIX) {
        let rest: &[u8] = &salt[7..salt.len()];
        assert(rest@ =~= after_id(setting@).skip(7));
        let dollar_pos: usize = find_dollar(rest);
        proof {
            lemma_first_dollar(rest@);
        }
        if dollar_pos < rest.len() {
            let digits: &[u8] = &rest[0..dollar_pos];
            assert(digits@ =~= rounds_digits(setting@));
            if let Some(srounds) = atoi_u32(digits) {
                salt = &rest[dollar_pos + 1..rest.len()];
                assert(salt@ =~= rest@.skip(dollar_pos + 1));
                rounds = Some(
                    if srounds < ROUNDS_MIN {
                        ROUNDS_MIN
                    } else if srounds > ROUNDS_MAX {
                        ROUNDS_MAX
                    } else {
                        srounds
                    },
                );
            }
        }
    }
    let mut salt_len: usize = find_dollar(salt);
    proof {
        lemma_first_dollar(salt@);
    }
    if salt_len > SALT_LEN_MAX {
        salt_len = SALT_LEN_MAX;
    }
    let ghost rest = salt@;
    let salt: &[u8] = &salt[0..salt_len];
    assert(salt@ =~= salt_part(rest));
    (salt, rounds)
}

/// The room for a setting and the `$` after it: `$6$`, the salt and `$`, and
/// with the rounds named `rounds=`, up to nine digits and `$`.
pub open spec fn setting_size(salt_len: int, rounds_custom: bool) -> int {
    3 + salt_len + 1 + (if rounds_custom {
        7 + 9 + 1int
    } else {
        0
    })
}

/// The exact number of bytes that everything before the digest takes in a
/// hash string, or the most it can take when the rounds are named.
pub fn salt_spec_output_size(salt_len: usize, rounds_custom: bool) -> (size: usize)
    requires
        setting_size(salt_len as int, rounds_custom) <= usize::MAX,
    ensures
        size == setting_size(salt_len as int, rounds_custom),
{
    let mut size: usize = SHA512_SALT_PREFIX.len() + salt_len + 1;
    if rounds_custom {
        size = size + (SHA512_ROUNDS_PREFIX.len() + 9 + 1);
    }
    size
}

/// Appends the text of a setting.
pub fn push_setting(salt: &[u8], rounds: Option<u32>, output: &mut Vec<u8>)
    ensures
        final(output)@ == old(output)@ + setting_text(salt@, rounds_as_nat(rounds)),
{
    output.extend_from_slice(&SHA512_SALT_PREFIX);
    if let Some(n) = rounds {
        output.extend_from_slice(&SHA512_ROUNDS_PREFIX);
        push_u32_as_ascii(n, output);
        output.push(DOLLAR);
    }
    output.extend_from_slice(salt);
    assert(output@ =~= old(output)@ + setting_text(salt@, rounds_as_nat(rounds)));
}

} // verus!
