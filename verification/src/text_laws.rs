//! Laws of the encodings: what the texts of bytes, numbers and settings are,
//! character by character.

use crate::base64::{
    b64_char, b64_digits, b64_encode, digest_order, digest_permuted, digest_text, lemma_b64_encode,
};
use crate::decimal::{decimal, digits_value};
use crate::setting::clamp_rounds;
use vstd::arithmetic::div_mod::lemma_div_denominator;
use vstd::arithmetic::power::{lemma_pow_positive, pow};
use vstd::prelude::*;

verus! {

/// The order in which the first 63 bytes of a digest are written: three bytes
/// to a group of four characters, the lowest byte of a group first. Byte 63
/// follows alone.
pub const DIGEST_TABLE: [u8; 63] = [
    42, 21, 0,
    1, 43, 22,
    23, 2, 44,
    45, 24, 3,
    4, 46, 25,
    26, 5, 47,
    48, 27, 6,
    7, 49, 28,
    29, 8, 50,
    51, 30, 9,
    10, 52, 31,
    32, 11, 53,
    54, 33, 12,
    13, 55, 34,
    35, 14, 56,
    57, 36, 15,
    16, 58, 37,
    38, 17, 59,
    60, 39, 18,
    19, 61, 40,
    41, 20, 62,
];

/// The alphabet is `./`, the digits, and the letters, upper case first.
pub proof fn law_alphabet(value: int)
    requires
        0 <= value < 64,
    ensures
        b64_char(value)
            == "./0123456789ABCDEFGHIJKLMNOPQRSTUVWXYZabcdefghijklmnopqrstuvwxyz"@[value] as u8,
{
    reveal_strlit("./0123456789ABCDEFGHIJKLMNOPQRSTUVWXYZabcdefghijklmnopqrstuvwxyz");
}

/// The six-bit pieces of three bytes, lowest first.
proof fn lemma_pieces(low: int, mid: int, high: int)
    requires
        0 <= low < 0x100,
        0 <= mid < 0x100,
        0 <= high < 0x100,
    ensures
        ({
            let w = low + 0x100 * mid + 0x10000 * high;
            &&& w % 64 == low % 64
            &&& w / 64 % 64 == low / 64 + mid % 16 * 4
            &&& w / 64 / 64 % 64 == mid / 16 + high % 4 * 16
            &&& w / 64 / 64 / 64 % 64 == high / 4
        }),
{
    let w = low + 0x100 * mid + 0x10000 * high;
    let l = low / 64;
    let m = mid / 16;
    let h = high / 4;
    assert(w == low % 64 + 64 * (l + mid % 16 * 4) + 0x1000 * (m + high % 4 * 16) + 0x40000 * h);
    assert(w / 64 == l + mid % 16 * 4 + 64 * (m + high % 4 * 16) + 0x1000 * h);
    assert(w / 64 / 64 == m + high % 4 * 16 + 64 * h);
    assert(w / 64 / 64 / 64 == h);
}

proof fn lemma_group_at(low: int, mid: int, high: int, n: nat, j: int)
    requires
        0 <= low < 0x100,
        0 <= mid < 0x100,
        0 <= high < 0x100,
        0 <= j < n <= 4,
    ensures
        ({
            let text = b64_digits(low + 0x100 * mid + 0x10000 * high, n);
            &&& text.len() == n
            &&& text[j] == b64_char(
                if j == 0 {
                    low % 64
                } else if j == 1 {
                    low / 64 + mid % 16 * 4
                } else if j == 2 {
                    mid / 16 + high % 4 * 16
                } else {
                    high / 4
                },
            )
        }),
{
    lemma_pieces(low, mid, high);
    reveal_with_fuel(b64_digits, 5);
}

/// Base64, character by character: `n` bytes take as many characters as six-bit
/// pieces are needed for their `8 * n` bits, and character `k` stands for the
/// six bits from bit `6 * k` on, the first byte holding the lowest bits.
pub proof fn law_base64(input: Seq<u8>, k: int)
    ensures
        b64_encode(input).len() == (8 * input.len() + 5) / 6,
        0 <= k < b64_encode(input).len() ==> {
            let at = k / 4 * 3;
            let low = input[at] as int;
            let mid = if at + 1 < input.len() {
                input[at + 1] as int
            } else {
                0
            };
            let high = if at + 2 < input.len() {
                input[at + 2] as int
            } else {
                0
            };
            b64_encode(input)[k] == b64_char(
                if k % 4 == 0 {
                    low % 64
                } else if k % 4 == 1 {
                    low / 64 + mid % 16 * 4
                } else if k % 4 == 2 {
                    mid / 16 + high % 4 * 16
                } else {
                    high / 4
                },
            )
        },
    decreases input.len(),
{
    lemma_b64_encode(input);
    if 0 <= k < b64_encode(input).len() {
        let low = input[0] as int;
        if input.len() == 1 {
            lemma_group_at(low, 0, 0, 2, k);
        } else if input.len() == 2 {
            lemma_group_at(low, input[1] as int, 0, 3, k);
        } else if k < 4 {
            lemma_group_at(low, input[1] as int, input[2] as int, 4, k);
        } else {
            lemma_group_at(low, input[1] as int, input[2] as int, 4, 0);
            law_base64(input.skip(3), k - 4);
            let at = k / 4 * 3;
            assert((k - 4) / 4 * 3 == at - 3 && (k - 4) % 4 == k % 4);
            assert(b64_encode(input)[k] == b64_encode(input.skip(3))[k - 4]);
        }
    }
}

proof fn lemma_digest_table(j: int)
    requires
        0 <= j < 63,
    ensures
        digest_order(j) == DIGEST_TABLE@[j],
{
}

/// The text of a digest is the base64 of its bytes in the order of the table,
/// and byte 63 after them.
pub proof fn law_digest_text(digest: Seq<u8>, written: Seq<u8>)
    requires
        written.len() == 64,
        forall|j: int| 0 <= j < 63 ==> #[trigger] written[j] == digest[DIGEST_TABLE@[j] as int],
        written[63] == digest[63],
    ensures
        digest_text(digest) == b64_encode(written),
{
    assert forall|j: int| 0 <= j < 64 implies digest_permuted(digest)[j] == written[j] by {
        if j < 63 {
            lemma_digest_table(j);
        }
    }
    assert(digest_permuted(digest) =~= written);
}

/// A number in decimal, digit by digit: character `i` is the digit for its power
/// of ten, and there is no leading zero.
pub proof fn law_decimal(n: nat, i: int)
    ensures
        decimal(n).len() > 0,
        n < pow(10, decimal(n).len()),
        decimal(n).len() > 1 ==> pow(10, (decimal(n).len() - 1) as nat) <= n,
        0 <= i < decimal(n).len() ==> decimal(n)[i] == 0x30 + n as int / pow(
            10,
            (decimal(n).len() - 1 - i) as nat,
        ) % 10,
    decreases n,
{
    reveal(pow);
    let len = decimal(n).len();
    if n < 10 {
        assert(pow(10, 1) == 10) by {
            reveal_with_fuel(pow, 2);
        }
        assert(pow(10, 0) == 1);
    } else {
        law_decimal(n / 10, i);
        let m = decimal(n / 10).len();
        assert(len == m + 1);
        assert(pow(10, len) == 10 * pow(10, m));
        assert(pow(10, m) == 10 * pow(10, (m - 1) as nat));
        if 0 <= i < m {
            let e = (m - 1 - i) as nat;
            lemma_pow_positive(10, e);
            lemma_div_denominator(n as int, 10, pow(10, e));
            assert(pow(10, e + 1) == 10 * pow(10, e));
            assert(decimal(n)[i] == decimal(n / 10)[i]);
        } else if i == m {
            assert(pow(10, 0) == 1);
        }
    }
}

/// The value of digits: none are worth nothing, one is worth its figure, and
/// what stands before other digits is worth ten times as much for each of them.
pub proof fn law_digits_value(front: Seq<u8>, back: Seq<u8>, d: u8)
    requires
        forall|i: int| 0 <= i < front.len() ==> 0x30 <= #[trigger] front[i] <= 0x39,
        forall|i: int| 0 <= i < back.len() ==> 0x30 <= #[trigger] back[i] <= 0x39,
        0x30 <= d <= 0x39,
    ensures
        digits_value(Seq::empty()) == 0,
        digits_value(seq![d]) == d - 0x30,
        digits_value(front + back) == digits_value(front) * pow(10, back.len()) + digits_value(
            back,
        ),
    decreases back.len(),
{
    reveal(pow);
    reveal_with_fuel(digits_value, 2);
    assert(seq![d].drop_last() =~= Seq::<u8>::empty());
    if back.len() == 0 {
        assert(front + back =~= front);
        assert(pow(10, 0) == 1);
        assert(digits_value(front) * 1 == digits_value(front));
    } else {
        let less = back.drop_last();
        assert((front + back).drop_last() =~= front + less);
        law_digits_value(front, less, d);
        let f = digits_value(front) as int;
        let p = pow(10, less.len());
        assert(pow(10, back.len()) == 10 * p);
        assert(10 * (f * p) == f * (10 * p)) by (nonlinear_arith);
    }
}

/// A number of rounds is replaced by the nearest one in range.
pub proof fn law_clamp_nearest(n: nat, m: nat)
    requires
        1000 <= m <= 999_999_999,
    ensures
        1000 <= clamp_rounds(n) <= 999_999_999,
        n <= clamp_rounds(n) ==> clamp_rounds(n) - n <= (if n <= m {
            m - n
        } else {
            n - m
        }),
        n >= clamp_rounds(n) ==> n - clamp_rounds(n) <= (if n <= m {
            m - n
        } else {
            n - m
        }),
{
}

} // verus!
