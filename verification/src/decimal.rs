//! Numbers in decimal, as they stand in a hash string.

use vstd::prelude::*;

verus! {

/// Whether `b` is an ASCII digit.
pub open spec fn is_digit(b: u8) -> bool {
    '0' as int <= b <= '9' as int
}

/// Whether `s` is made of ASCII digits.
pub open spec fn all_digits(s: Seq<u8>) -> bool {
    forall|i: int| 0 <= i < s.len() ==> is_digit(#[trigger] s[i])
}

/// The number that a string of digits denotes; the empty string denotes zero.
pub open spec fn digits_value(s: Seq<u8>) -> nat
    recommends
        all_digits(s),
    decreases s.len(),
{
    if s.len() == 0 {
        0
    } else {
        (10 * digits_value(s.drop_last()) + (s.last() - '0' as int)) as nat
    }
}

/// `n` in decimal, without leading zeros.
pub open spec fn decimal(n: nat) -> Seq<u8>
    decreases n,
{
    let last = ('0' as int + n % 10) as u8;
    if n < 10 {
        seq![last]
    } else {
        decimal(n / 10).push(last)
    }
}

/// The decimal form of a number is made of digits, and denotes that number.
pub proof fn lemma_decimal_value(n: nat)
    ensures
        decimal(n).len() > 0,
        all_digits(decimal(n)),
        digits_value(decimal(n)) == n,
    decreases n,
{
    reveal_with_fuel(digits_value, 2);
    if n < 10 {
        assert(decimal(n).drop_last() =~= Seq::<u8>::empty());
    } else {
        lemma_decimal_value(n / 10);
        assert(decimal(n).drop_last() =~= decimal(n / 10));
    }
}

/// Reads a string of digits. A number above `u32::MAX` gives `u32::MAX`, and
/// anything but a digit in the string gives `None`.
pub fn atoi_u32(ascii: &[u8]) -> (value: Option<u32>)
    ensures
        value is Some <==> all_digits(ascii@),
        value matches Some(v) ==> v == (if digits_value(ascii@) <= u32::MAX {
            digits_value(ascii@)
        } else {
            u32::MAX as nat
        }),
{
    let mut out: u32 = 0;
    let mut i: usize = 0;
    while i < ascii.len()
        invariant
            i <= ascii@.len(),
            all_digits(ascii@.take(i as int)),
            out == (if digits_value(ascii@.take(i as int)) <= u32::MAX {
                digits_value(ascii@.take(i as int))
            } else {
                u32::MAX as nat
            }),
        decreases ascii@.len() - i,
    {
        let b: u8 = ascii[i];
        if b < 0x30 || b > 0x39 {
            assert(!is_digit(ascii@[i as int]));
            return None;
        }
        proof {
            let prefix = ascii@.take(i + 1);
            assert(prefix.drop_last() =~= ascii@.take(i as int));
            assert forall|j: int| 0 <= j < prefix.len() implies is_digit(#[trigger] prefix[j]) by {
                if j < i {
                    assert(is_digit(ascii@.take(i as int)[j]));
                }
            }
        }
        let wide: u64 = 10 * (out as u64) + (b - 0x30) as u64;
        out = if wide <= u32::MAX as u64 { wide as u32 } else { u32::MAX };
        i = i + 1;
    }
    assert(ascii@.take(i as int) =~= ascii@);
    Some(out)
}

/// Appends a number in decimal.
pub fn push_u32_as_ascii(value: u32, output: &mut Vec<u8>)
    ensures
        final(output)@ == old(output)@ + decimal(value as nat),
    decreases value,
{
    if value >= 10 {
        push_u32_as_ascii(value / 10, output);
    }
    output.push(0x30 + (value % 10) as u8);
    assert(output@ =~= old(output)@ + decimal(value as nat));
}

} // verus!
