//! The base64 variant of Unix `crypt`: its own alphabet, low bits first, no
//! padding.

use vstd::prelude::*;

verus! {

/// The `crypt` base64 alphabet, in order of value.
pub const B64_CHARS: [u8; 64] = [
    // `./` and the digits.
    0x2e, 0x2f, 0x30, 0x31, 0x32, 0x33, 0x34, 0x35, 0x36, 0x37, 0x38, 0x39,
    // `A` to `Z`.
    0x41, 0x42, 0x43, 0x44, 0x45, 0x46, 0x47, 0x48, 0x49, 0x4a, 0x4b, 0x4c, 0x4d,
    0x4e, 0x4f, 0x50, 0x51, 0x52, 0x53, 0x54, 0x55, 0x56, 0x57, 0x58, 0x59, 0x5a,
    // `a` to `z`.
    0x61, 0x62, 0x63, 0x64, 0x65, 0x66, 0x67, 0x68, 0x69, 0x6a, 0x6b, 0x6c, 0x6d,
    0x6e, 0x6f, 0x70, 0x71, 0x72, 0x73, 0x74, 0x75, 0x76, 0x77, 0x78, 0x79, 0x7a,
];

/// The character of the alphabet that stands for `value`: `.` and `/` come
/// first, right before the digits, then the upper and the lower case letters.
pub open spec fn b64_char(value: int) -> u8
    recommends
        0 <= value < 64,
{
    if value < 12 {
        ('.' as int + value) as u8
    } else if value < 38 {
        ('A' as int + (value - 12)) as u8
    } else {
        ('a' as int + (value - 38)) as u8
    }
}

/// Whether `c` is a character of the alphabet.
pub open spec fn is_b64_char(c: u8) -> bool {
    ||| '.' as int <= c <= '9' as int
    ||| 'A' as int <= c <= 'Z' as int
    ||| 'a' as int <= c <= 'z' as int
}

/// Whether `s` is made of characters of the alphabet.
pub open spec fn is_b64_text(s: Seq<u8>) -> bool {
    forall|i: int| 0 <= i < s.len() ==> is_b64_char(#[trigger] s[i])
}

/// The lowest `n` base-64 digits of `w`, lowest first, as characters.
pub open spec fn b64_digits(w: int, n: nat) -> Seq<u8>
    decreases n,
{
    if n == 0 {
        Seq::empty()
    } else {
        seq![b64_char(w % 64)] + b64_digits(w / 64, (n - 1) as nat)
    }
}

/// `crypt` base64 of `input`: every three bytes make a little-endian number
/// of which the four base-64 digits are written; one or two bytes left over
/// at the end make two or three digits.
pub open spec fn b64_encode(input: Seq<u8>) -> Seq<u8>
    decreases input.len(),
{
    if input.len() == 0 {
        Seq::empty()
    } else if input.len() == 1 {
        b64_digits(input[0] as int, 2)
    } else if input.len() == 2 {
        b64_digits(input[0] + 0x100 * input[1], 3)
    } else {
        b64_digits(input[0] + 0x100 * input[1] + 0x10000 * input[2], 4) + b64_encode(input.skip(3))
    }
}

/// The table and the definition of the alphabet agree.
proof fn lemma_b64_table(value: int)
    requires
        0 <= value < 64,
    ensures
        B64_CHARS@[value] == b64_char(value),
{
}

/// The alphabet's characters are those that `is_b64_char` names.
pub proof fn lemma_b64_char(value: int)
    requires
        0 <= value < 64,
    ensures
        is_b64_char(b64_char(value)),
{
}

/// The alphabet's character for `value`.
pub fn b64_char_of(value: u8) -> (c: u8)
    requires
        value < 64,
    ensures
        c == b64_char(value as int),
{
    proof {
        lemma_b64_table(value as int);
    }
    B64_CHARS[value as usize]
}

/// Appends the lowest `n` base-64 digits of the number made of the bytes
/// `b2`, `b1` and `b0`, `b0` being the lowest.
fn push_b64_from_24bit(b2: u8, b1: u8, b0: u8, n: usize, output: &mut Vec<u8>)
    ensures
        final(output)@ == old(output)@ + b64_digits(b0 + 0x100 * b1 + 0x10000 * b2, n as nat),
{
    let mut w: u32 = ((b2 as u32) << 16) | ((b1 as u32) << 8) | (b0 as u32);
    assert(w == b0 + 0x100 * b1 + 0x10000 * b2) by {
        assert(((b2 as u32) << 16) | ((b1 as u32) << 8) | (b0 as u32) == b0 + 0x100 * b1 + 0x10000
            * b2) by (bit_vector);
    }
    let ghost full = b64_digits(w as int, n as nat);
    let ghost start = output@;
    let mut i: usize = 0;
    while i < n
        invariant
            i <= n,
            output@ + b64_digits(w as int, (n - i) as nat) == start + full,
        decreases n - i,
    {
        assert(w & 0x3f == w % 64 && w & 0x3f < 64 && w >> 6 == w / 64) by (bit_vector);
        let ghost before = output@;
        output.push(b64_char_of((w & 0x3f) as u8));
        proof {
            let rest = b64_digits(w as int / 64, (n - i - 1) as nat);
            assert(output@ + rest =~= before + (seq![b64_char(w as int % 64)] + rest));
        }
        w = w >> 6;
        i = i + 1;
    }
    assert(output@ + b64_digits(w as int, 0) =~= output@);
}

/// Encodes raw bytes with the `crypt` base64 alphabet, without padding.
pub fn encode_crypt_base64(input: &[u8]) -> (output: Vec<u8>)
    ensures
        output@ == b64_encode(input@),
{
    let mut output: Vec<u8> = Vec::new();
    let mut i: usize = 0;
    assert(input@.skip(0) =~= input@);
    assert(output@ + b64_encode(input@) =~= b64_encode(input@));
    while i < input.len()
        invariant
            i <= input@.len(),
            output@ + b64_encode(input@.skip(i as int)) == b64_encode(input@),
        decreases input@.len() - i,
    {
        let ghost before = output@;
        let ghost tail = input@.skip(i as int);
        let left: usize = input.len() - i;
        if left >= 3 {
            push_b64_from_24bit(input[i + 2], input[i + 1], input[i], 4, &mut output);
            i = i + 3;
            proof {
                assert(tail.skip(3) =~= input@.skip(i as int));
                let rest = b64_encode(tail.skip(3));
                assert(output@ + rest =~= before + b64_encode(tail));
            }
        } else {
            let b1: u8 = if left == 2 { input[i + 1] } else { 0 };
            push_b64_from_24bit(0, b1, input[i], left + 1, &mut output);
            i = input.len();
            proof {
                assert(output@ =~= before + b64_encode(tail));
                assert(b64_encode(input@.skip(i as int)) =~= Seq::<u8>::empty());
                assert(output@ + b64_encode(input@.skip(i as int)) =~= output@);
            }
        }
    }
    proof {
        assert(b64_encode(input@.skip(i as int)) =~= Seq::<u8>::empty());
        assert(output@ + b64_encode(input@.skip(i as int)) =~= output@);
    }
    output
}

/// Which byte of a digest is the `j`-th to be written. The digest is cut into
/// three runs of 21 bytes and one last byte; group `g` of the text takes byte
/// `g` of each run, with the run to start from changing from group to group.
pub open spec fn digest_order(j: int) -> int
    recommends
        0 <= j < 64,
{
    if j == 63 {
        63
    } else {
        j / 3 + 21 * ((j / 3 + 2 - j % 3) % 3)
    }
}

/// The bytes of a digest in the order in which they are written.
pub open spec fn digest_permuted(digest: Seq<u8>) -> Seq<u8> {
    Seq::new(64, |j: int| digest[digest_order(j)])
}

/// The text of a digest, at the end of a hash string.
pub open spec fn digest_text(digest: Seq<u8>) -> Seq<u8> {
    b64_encode(digest_permuted(digest))
}

/// Appends the text of a digest.
pub fn push_digest(digest: &[u8; 64], output: &mut Vec<u8>)
    ensures
        final(output)@ == old(output)@ + digest_text(digest@),
{
    let ghost start = output@;
    let ghost order = digest_permuted(digest@);
    let mut g: usize = 0;
    assert(order.skip(0) =~= order);
    while g < 21
        invariant
            g <= 21,
            order == digest_permuted(digest@),
            output@ + b64_encode(order.skip(3 * g)) == start + b64_encode(order),
        decreases 21 - g,
    {
        let ghost before = output@;
        let b2: u8 = digest[g + 21 * (g % 3)];
        let b1: u8 = digest[g + 21 * ((g + 1) % 3)];
        let b0: u8 = digest[g + 21 * ((g + 2) % 3)];
        push_b64_from_24bit(b2, b1, b0, 4, output);
        proof {
            let tail = order.skip(3 * g);
            assert(tail[0] == b0 && tail[1] == b1 && tail[2] == b2);
            assert(tail.skip(3) =~= order.skip(3 * (g + 1)));
            assert(output@ + b64_encode(tail.skip(3)) =~= before + b64_encode(tail));
        }
        g = g + 1;
    }
    let ghost before = output@;
    push_b64_from_24bit(0, 0, digest[63], 2, output);
    proof {
        let tail = order.skip(63);
        assert(tail.len() == 1 && tail[0] == digest@[63]);
        assert(output@ =~= before + b64_encode(tail));
    }
}

/// The number of characters that `n` bytes are encoded in.
pub open spec fn b64_len(n: nat) -> nat {
    n / 3 * 4 + (if n % 3 == 0 {
        0
    } else {
        n % 3 + 1
    })
}

proof fn lemma_b64_digits(w: int, n: nat)
    ensures
        b64_digits(w, n).len() == n,
        is_b64_text(b64_digits(w, n)),
    decreases n,
{
    if n > 0 {
        lemma_b64_char(w % 64);
        lemma_b64_digits(w / 64, (n - 1) as nat);
    }
}

/// Encoding `n` bytes gives `b64_len(n)` characters, all of the alphabet.
pub proof fn lemma_b64_encode(input: Seq<u8>)
    ensures
        b64_encode(input).len() == b64_len(input.len()),
        is_b64_text(b64_encode(input)),
    decreases input.len(),
{
    if input.len() == 0 {
    } else if input.len() == 1 {
        lemma_b64_digits(input[0] as int, 2);
    } else if input.len() == 2 {
        lemma_b64_digits(input[0] + 0x100 * input[1], 3);
    } else {
        lemma_b64_digits(input[0] + 0x100 * input[1] + 0x10000 * input[2], 4);
        lemma_b64_encode(input.skip(3));
    }
}

/// The text of a digest has 86 characters, all of the alphabet.
pub proof fn lemma_digest_text(digest: Seq<u8>)
    ensures
        digest_text(digest).len() == 86,
        is_b64_text(digest_text(digest)),
{
    lemma_b64_encode(digest_permuted(digest));
}

/// The number of values that `n` base-64 digits can take.
spec fn b64_range(n: nat) -> int
    decreases n,
{
    if n == 0 {
        1
    } else {
        64 * b64_range((n - 1) as nat)
    }
}

proof fn lemma_b64_digits_injective(w: int, v: int, n: nat)
    requires
        0 <= w < b64_range(n),
        0 <= v < b64_range(n),
        b64_digits(w, n) == b64_digits(v, n),
    ensures
        w == v,
    decreases n,
{
    if n > 0 {
        let a = b64_digits(w, n);
        let b = b64_digits(v, n);
        assert(a[0] == b64_char(w % 64) && b[0] == b64_char(v % 64));
        assert(a.skip(1) =~= b64_digits(w / 64, (n - 1) as nat));
        assert(b.skip(1) =~= b64_digits(v / 64, (n - 1) as nat));
        lemma_b64_digits_injective(w / 64, v / 64, (n - 1) as nat);
    }
}

/// The encoding loses nothing: two byte strings of one length with the same
/// text are the same.
pub proof fn lemma_b64_encode_injective(a: Seq<u8>, b: Seq<u8>)
    requires
        a.len() == b.len(),
        b64_encode(a) == b64_encode(b),
    ensures
        a == b,
    decreases a.len(),
{
    reveal_with_fuel(b64_range, 5);
    if a.len() == 0 {
        assert(a =~= b);
    } else if a.len() == 1 {
        lemma_b64_digits_injective(a[0] as int, b[0] as int, 2);
        assert(a =~= b);
    } else if a.len() == 2 {
        lemma_b64_digits_injective(a[0] + 0x100 * a[1], b[0] + 0x100 * b[1], 3);
        assert(a =~= b);
    } else {
        let wa = a[0] + 0x100 * a[1] + 0x10000 * a[2];
        let wb = b[0] + 0x100 * b[1] + 0x10000 * b[2];
        lemma_b64_digits(wa, 4);
        lemma_b64_digits(wb, 4);
        assert(b64_digits(wa, 4) =~= b64_encode(a).take(4));
        assert(b64_digits(wb, 4) =~= b64_encode(b).take(4));
        assert(b64_encode(a.skip(3)) =~= b64_encode(a).skip(4));
        assert(b64_encode(b.skip(3)) =~= b64_encode(b).skip(4));
        lemma_b64_digits_injective(wa, wb, 4);
        lemma_b64_encode_injective(a.skip(3), b.skip(3));
        assert forall|i: int| 0 <= i < a.len() implies a[i] == b[i] by {
            if i >= 3 {
                assert(a.skip(3)[i - 3] == b.skip(3)[i - 3]);
            }
        }
        assert(a =~= b);
    }
}

/// Two digests with the same text are the same digest.
pub proof fn lemma_digest_text_injective(a: Seq<u8>, b: Seq<u8>)
    requires
        a.len() == 64,
        b.len() == 64,
        digest_text(a) == digest_text(b),
    ensures
        a == b,
{
    lemma_b64_encode_injective(digest_permuted(a), digest_permuted(b));
    assert forall|i: int| 0 <= i < 64 implies a[i] == b[i] by {
        // Byte `i` is written at place `j`.
        let g = i % 21;
        let j = if i == 63 { 63 } else { 3 * g + (g + 2 - i / 21) % 3 };
        assert(0 <= j < 64 && digest_order(j) == i);
        assert(digest_permuted(a)[j] == digest_permuted(b)[j]);
    }
    assert(a =~= b);
}

} // verus!
