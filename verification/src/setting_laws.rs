//! Laws of reading settings, byte by byte.

use crate::decimal::{all_digits, digits_value, is_digit};
use crate::setting::{
    after_id, first_dollar, lemma_first_dollar, lemma_first_dollar_is, names_rounds, no_dollar,
    rounds_digits, salt_part, setting_rounds, setting_salt, SHA512_ROUNDS_PREFIX,
    SHA512_SALT_PREFIX,
};
use vstd::prelude::*;

verus! {

proof fn lemma_after_id(setting: Seq<u8>, start: int)
    requires
        start == (if setting.len() >= 3 && setting[0] == 0x24 && setting[1] == 0x36 && setting[2]
            == 0x24 {
            3int
        } else {
            0
        }),
    ensures
        after_id(setting) == setting.skip(start),
{
    if start == 3 {
        assert(SHA512_SALT_PREFIX@ =~= setting.subrange(0, 3));
    } else {
        if SHA512_SALT_PREFIX@.is_prefix_of(setting) {
            assert(setting.subrange(0, 3)[0] == setting[0]);
            assert(setting.subrange(0, 3)[1] == setting[1]);
            assert(setting.subrange(0, 3)[2] == setting[2]);
        }
        assert(setting.skip(0) =~= setting);
    }
}

/// The salt from byte `from` on, up to a `$` at `to` or the end.
proof fn lemma_salt_between(setting: Seq<u8>, from: int, to: int)
    requires
        0 <= from <= to <= setting.len(),
        forall|i: int| from <= i < to ==> #[trigger] setting[i] != 0x24,
        to < setting.len() ==> setting[to] == 0x24,
    ensures
        salt_part(setting.skip(from)) == setting.subrange(
            from,
            if to <= from + 16 {
                to
            } else {
                from + 16
            },
        ),
{
    let rest = setting.skip(from);
    let k = to - from;
    let front = rest.take(k);
    assert forall|i: int| 0 <= i < front.len() implies #[trigger] front[i] != 0x24 by {
        assert(setting[from + i] != 0x24);
    }
    lemma_first_dollar_is(rest, k);
    assert(salt_part(rest) =~= setting.subrange(
        from,
        if to <= from + 16 {
            to
        } else {
            from + 16
        },
    ));
}

/// A setting that has, after `$6$` or from its start, `rounds=`, then nothing
/// but digits up to a `$` at `d`, and then the salt, up to a `$` at `e` or the
/// end: the rounds are the number that the digits spell, or 1000 or 999,999,999
/// where that is nearer, and the salt is what stands there, up to 16 bytes.
pub proof fn law_setting_with_rounds(setting: Seq<u8>, start: int, d: int, e: int)
    requires
        start == (if setting.len() >= 3 && setting[0] == 0x24 && setting[1] == 0x36 && setting[2]
            == 0x24 {
            3int
        } else {
            0
        }),
        start + 7 <= d < e <= setting.len(),
        setting.subrange(start, start + 7) == seq![
            0x72u8,
            0x6f,
            0x75,
            0x6e,
            0x64,
            0x73,
            0x3d,
        ],
        forall|i: int| start + 7 <= i < d ==> 0x30 <= #[trigger] setting[i] <= 0x39,
        setting[d] == 0x24,
        forall|i: int| d < i < e ==> #[trigger] setting[i] != 0x24,
        e < setting.len() ==> setting[e] == 0x24,
    ensures
        setting_salt(setting) == setting.subrange(
            d + 1,
            if e <= d + 17 {
                e
            } else {
                d + 17
            },
        ),
        setting_rounds(setting) == Some(
            {
                let v = digits_value(setting.subrange(start + 7, d));
                if v < 1000 {
                    1000
                } else if v > 999_999_999 {
                    999_999_999
                } else {
                    v
                }
            },
        ),
{
    lemma_after_id(setting, start);
    let body = setting.skip(start);
    let rest = body.skip(7);
    assert(SHA512_ROUNDS_PREFIX@ =~= setting.subrange(start, start + 7));
    assert(body.subrange(0, 7) =~= setting.subrange(start, start + 7));
    let k = d - start - 7;
    let digits = setting.subrange(start + 7, d);
    assert(rest.take(k) =~= digits);
    assert forall|i: int| 0 <= i < digits.len() implies is_digit(#[trigger] digits[i]) by {
        assert(digits[i] == setting[start + 7 + i]);
    }
    assert(no_dollar(digits)) by {
        assert(forall|i: int| 0 <= i < digits.len() ==> is_digit(#[trigger] digits[i]));
    }
    assert(rest[k] == setting[d]);
    lemma_first_dollar_is(rest, k);
    assert(rounds_digits(setting) == digits);
    assert(all_digits(rounds_digits(setting)));
    assert(names_rounds(setting));
    assert(rest.skip(k + 1) =~= setting.skip(d + 1));
    lemma_salt_between(setting, d + 1, e);
}

/// A setting that has no `rounds=` with nothing but digits and a `$` after it:
/// the rounds are not named, and the salt is what stands there after `$6$` or
/// from the start, up to a `$` at `e` or the end, up to 16 bytes.
pub proof fn law_setting_without_rounds(setting: Seq<u8>, start: int, e: int)
    requires
        start == (if setting.len() >= 3 && setting[0] == 0x24 && setting[1] == 0x36 && setting[2]
            == 0x24 {
            3int
        } else {
            0
        }),
        setting.len() >= start + 7 && setting.subrange(start, start + 7) == seq![
            0x72u8,
            0x6f,
            0x75,
            0x6e,
            0x64,
            0x73,
            0x3d,
        ] ==> forall|d: int|
            start + 7 <= d < setting.len() && #[trigger] setting[d] == 0x24 ==> exists|i: int|
                start + 7 <= i < d && !(0x30 <= #[trigger] setting[i] <= 0x39),
        start <= e <= setting.len(),
        forall|i: int| start <= i < e ==> #[trigger] setting[i] != 0x24,
        e < setting.len() ==> setting[e] == 0x24,
    ensures
        setting_salt(setting) == setting.subrange(
            start,
            if e <= start + 16 {
                e
            } else {
                start + 16
            },
        ),
        setting_rounds(setting) is None,
{
    lemma_after_id(setting, start);
    let body = setting.skip(start);
    if names_rounds(setting) {
        let rest = body.skip(7);
        let k = first_dollar(rest);
        lemma_first_dollar(rest);
        assert(setting.subrange(start, start + 7) =~= body.subrange(0, 7));
        assert(setting.subrange(start, start + 7) =~= seq![
            0x72u8,
            0x6f,
            0x75,
            0x6e,
            0x64,
            0x73,
            0x3d,
        ]);
        let d = start + 7 + k;
        assert(setting[d] == rest[k]);
        let i = choose|i: int| start + 7 <= i < d && !(0x30 <= #[trigger] setting[i] <= 0x39);
        assert(is_digit(rounds_digits(setting)[i - start - 7]));
        assert(false);
    }
    lemma_salt_between(setting, start, e);
}

} // verus!
