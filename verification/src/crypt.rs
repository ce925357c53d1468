//! The SHA512-crypt algorithm.

use crate::backend::{sha512, Sha512Context};
use crate::base64::{digest_text, push_digest};
use crate::secret::{SecretBytes, SecretSum};
use crate::setting::{
    lemma_setting_salt, parse_setting, push_setting, salt_spec_output_size, setting_rounds,
    setting_salt, setting_text, DOLLAR, ROUNDS_DEFAULT,
};
use vstd::prelude::*;

verus! {

/// Number of characters in the text of a digest.
pub const SHA512_HASH_ENCODED_LENGTH: usize = 86;

/// The first `n` bytes of `digest` written over and over.
pub open spec fn cycle(digest: Seq<u8>, n: nat) -> Seq<u8> {
    Seq::new(n, |i: int| digest[i % 64])
}

/// `n` copies of `s`, one after the other.
pub open spec fn copies(s: Seq<u8>, n: nat) -> Seq<u8>
    decreases n,
{
    if n == 0 {
        Seq::empty()
    } else {
        copies(s, (n - 1) as nat) + s
    }
}

/// For every binary digit of `n`, lowest first, `one` or `zero`.
pub open spec fn by_bits(n: nat, one: Seq<u8>, zero: Seq<u8>) -> Seq<u8>
    decreases n,
{
    if n == 0 {
        Seq::empty()
    } else {
        (if n % 2 == 1 {
            one
        } else {
            zero
        }) + by_bits(n / 2, one, zero)
    }
}

/// The alternate sum: the digest of the key, the salt and the key.
pub open spec fn alternate_sum(key: Seq<u8>, salt: Seq<u8>) -> Seq<u8> {
    sha512(key + salt + key)@
}

/// The sum that the rounds start from: the digest of the key, the salt, as
/// many bytes of the alternate sum as the key has, and then, for every binary
/// digit of the key's length, the alternate sum or the key.
pub open spec fn initial_sum(key: Seq<u8>, salt: Seq<u8>) -> Seq<u8> {
    let alt = alternate_sum(key, salt);
    sha512(key + salt + cycle(alt, key.len()) + by_bits(key.len(), alt, key))@
}

/// The byte sequence P, as long as the key: made of the digest of as many
/// copies of the key as the key has bytes.
pub open spec fn p_sequence(key: Seq<u8>) -> Seq<u8> {
    cycle(sha512(copies(key, key.len()))@, key.len())
}

/// The byte sequence S, as long as the salt: made of the digest of 16 copies
/// of the salt and as many more as the first byte of the initial sum says.
pub open spec fn s_sequence(key: Seq<u8>, salt: Seq<u8>) -> Seq<u8> {
    cycle(sha512(copies(salt, (16 + initial_sum(key, salt)[0]) as nat))@, salt.len())
}

/// What round `i` takes the digest of, `last` being the sum of the round
/// before.
pub open spec fn round_input(i: int, last: Seq<u8>, p: Seq<u8>, s: Seq<u8>) -> Seq<u8> {
    let first = if i % 2 == 1 {
        p
    } else {
        last
    };
    let second = if i % 3 != 0 {
        s
    } else {
        Seq::empty()
    };
    let third = if i % 7 != 0 {
        p
    } else {
        Seq::empty()
    };
    let fourth = if i % 2 == 1 {
        last
    } else {
        p
    };
    first + second + third + fourth
}

/// The sum after the first `n` rounds.
pub open spec fn sum_after(n: nat, key: Seq<u8>, salt: Seq<u8>) -> Seq<u8>
    decreases n,
{
    if n == 0 {
        initial_sum(key, salt)
    } else {
        sha512(
            round_input(
                n - 1,
                sum_after((n - 1) as nat, key, salt),
                p_sequence(key),
                s_sequence(key, salt),
            ),
        )@
    }
}

/// The sum after all the rounds; without a number, after the default number.
pub open spec fn last_sum(key: Seq<u8>, salt: Seq<u8>, rounds: Option<nat>) -> Seq<u8> {
    match rounds {
        Some(n) => sum_after(n, key, salt),
        None => sum_after(ROUNDS_DEFAULT as nat, key, salt),
    }
}

/// The hash string for a salt and, unless it is the default, a number of
/// rounds: their text, `$`, and the text of the last sum.
pub open spec fn hash_text(key: Seq<u8>, salt: Seq<u8>, rounds: Option<nat>) -> Seq<u8> {
    setting_text(salt, rounds).push(DOLLAR) + digest_text(last_sum(key, salt, rounds))
}

/// The hash string for a setting in text form.
pub open spec fn crypt_text(key: Seq<u8>, setting: Seq<u8>) -> Seq<u8> {
    hash_text(key, setting_salt(setting), setting_rounds(setting))
}

proof fn lemma_cycle_extend(digest: Seq<u8>, m: nat, k: nat)
    requires
        digest.len() == 64,
        m % 64 == 0,
        k <= 64,
    ensures
        cycle(digest, m) + digest.take(k as int) == cycle(digest, m + k),
{
    let whole = cycle(digest, m + k);
    assert forall|i: int| m <= i < m + k implies whole[i] == digest[i - m] by {
        if i < m + 64 {
            assert(i % 64 == i - m);
        }
    }
    assert(cycle(digest, m) + digest.take(k as int) =~= whole);
}

/// The first `len` bytes of `digest` written over and over.
fn cycled(digest: &[u8; 64], len: usize) -> (cycled: SecretBytes)
    ensures
        cycled@ == cycle(digest@, len as nat),
{
    let mut out: Vec<u8> = Vec::with_capacity(len);
    let mut cnt: usize = len;
    assert(out@ =~= cycle(digest@, 0));
    while cnt >= 64
        invariant
            cnt <= len,
            (len - cnt) % 64 == 0,
            out@ == cycle(digest@, (len - cnt) as nat),
        decreases cnt,
    {
        let ghost before = out@;
        out.extend_from_slice(digest);
        proof {
            lemma_cycle_extend(digest@, (len - cnt) as nat, 64);
            assert(out@ =~= before + digest@.take(64));
        }
        cnt = cnt - 64;
    }
    let ghost before = out@;
    out.extend_from_slice(&digest[0..cnt]);
    proof {
        lemma_cycle_extend(digest@, (len - cnt) as nat, cnt as nat);
        assert(out@ =~= before + digest@.take(cnt as int));
    }
    SecretBytes::new(out)
}

/// Feeds the first `len` bytes of `digest` written over and over.
fn update_cycled(ctx: &mut Sha512Context, digest: &[u8; 64], len: usize)
    ensures
        final(ctx)@ == old(ctx)@ + cycle(digest@, len as nat),
{
    let ghost start = ctx@;
    let mut cnt: usize = len;
    assert(start + cycle(digest@, 0) =~= start);
    while cnt > 64
        invariant
            cnt <= len,
            (len - cnt) % 64 == 0,
            ctx@ == start + cycle(digest@, (len - cnt) as nat),
        decreases cnt,
    {
        ctx.update(digest);
        proof {
            lemma_cycle_extend(digest@, (len - cnt) as nat, 64);
            assert(ctx@ =~= start + (cycle(digest@, (len - cnt) as nat) + digest@.take(64)));
        }
        cnt = cnt - 64;
    }
    ctx.update(&digest[0..cnt]);
    proof {
        lemma_cycle_extend(digest@, (len - cnt) as nat, cnt as nat);
        assert(ctx@ =~= start + (cycle(digest@, (len - cnt) as nat) + digest@.take(cnt as int)));
    }
}

/// The digest of `n` copies of `data`.
fn digest_of_copies(data: &[u8], n: usize) -> (digest: SecretSum)
    ensures
        digest@ == sha512(copies(data@, n as nat))@,
{
    let mut ctx = Sha512Context::new();
    let mut i: usize = 0;
    while i < n
        invariant
            i <= n,
            ctx@ == copies(data@, i as nat),
        decreases n - i,
    {
        ctx.update(data);
        i = i + 1;
    }
    SecretSum::new(ctx.finish())
}

/// The sum that the rounds start from.
fn compute_initial_sum(key: &[u8], salt: &[u8]) -> (sum: SecretSum)
    ensures
        sum@ == initial_sum(key@, salt@),
{
    // The alternate sum.
    let mut ctx = Sha512Context::new();
    ctx.update(key);
    ctx.update(salt);
    ctx.update(key);
    assert(ctx@ =~= key@ + salt@ + key@);
    let alt: SecretSum = SecretSum::new(ctx.finish());

    let mut ctx = Sha512Context::new();
    ctx.update(key);
    ctx.update(salt);
    assert(ctx@ =~= key@ + salt@);
    update_cycled(&mut ctx, alt.as_bytes(), key.len());

    // For every 1 in the binary form of the length of the key the alternate
    // sum, for every 0 the key.
    let ghost start = ctx@;
    let ghost all = by_bits(key@.len(), alt@, key@);
    let mut cnt: usize = key.len();
    while cnt > 0
        invariant
            ctx@ + by_bits(cnt as nat, alt@, key@) == start + all,
        decreases cnt,
    {
        let ghost before = ctx@;
        if cnt % 2 != 0 {
            ctx.update(alt.as_bytes());
        } else {
            ctx.update(key);
        }
        proof {
            let rest = by_bits(cnt as nat / 2, alt@, key@);
            assert(ctx@ + rest =~= before + by_bits(cnt as nat, alt@, key@));
        }
        cnt = cnt / 2;
    }
    assert(ctx@ + by_bits(0, alt@, key@) =~= ctx@);
    SecretSum::new(ctx.finish())
}

/// One round: the digest of its input.
fn compute_round(i: u32, last: &[u8; 64], p_bytes: &[u8], s_bytes: &[u8]) -> (sum: SecretSum)
    ensures
        sum@ == sha512(round_input(i as int, last@, p_bytes@, s_bytes@))@,
{
    let mut ctx = Sha512Context::new();

    // The key or the last sum.
    if i % 2 != 0 {
        ctx.update(p_bytes);
    } else {
        ctx.update(last);
    }

    // The salt for numbers not divisible by 3.
    if i % 3 != 0 {
        ctx.update(s_bytes);
    }

    // The key for numbers not divisible by 7.
    if i % 7 != 0 {
        ctx.update(p_bytes);
    }

    // The last sum or the key.
    if i % 2 != 0 {
        ctx.update(last);
    } else {
        ctx.update(p_bytes);
    }
    assert(ctx@ =~= round_input(i as int, last@, p_bytes@, s_bytes@));
    SecretSum::new(ctx.finish())
}

/// The hash string of `key` under a setting, as bytes.
///
/// Everything in between that depends on the key is a [`SecretSum`] or
/// [`SecretBytes`], and so is wiped when the function is left.
pub fn crypt_inner(key: &[u8], setting: &[u8]) -> (output: Vec<u8>)
    ensures
        output@ == crypt_text(key@, setting@),
{
    let (salt, custom) = parse_setting(setting);
    let rounds: u32 = match custom {
        Some(n) => n,
        None => ROUNDS_DEFAULT,
    };

    let mut result: SecretSum = compute_initial_sum(key, salt);

    let p_digest: SecretSum = digest_of_copies(key, key.len());
    let p_bytes: SecretBytes = cycled(p_digest.as_bytes(), key.len());

    let s_digest: SecretSum = digest_of_copies(salt, 16 + result.as_bytes()[0] as usize);
    let s_bytes: SecretBytes = cycled(s_digest.as_bytes(), salt.len());

    // Run the sum through SHA-512 again and again to burn CPU cycles.
    let mut i: u32 = 0;
    while i < rounds
        invariant
            i <= rounds,
            p_bytes@ == p_sequence(key@),
            s_bytes@ == s_sequence(key@, salt@),
            result@ == sum_after(i as nat, key@, salt@),
        decreases rounds - i,
    {
        result = compute_round(i, result.as_bytes(), p_bytes.as_bytes(), s_bytes.as_bytes());
        i = i + 1;
    }

    proof {
        lemma_setting_salt(setting@);
    }
    let mut output: Vec<u8> = Vec::with_capacity(
        salt_spec_output_size(salt.len(), custom.is_some()) + SHA512_HASH_ENCODED_LENGTH,
    );
    push_setting(salt, custom, &mut output);
    output.push(DOLLAR);
    push_digest(result.as_bytes(), &mut output);
    assert(output@ =~= crypt_text(key@, setting@));
    output
}

} // verus!
