//! Laws of the algorithm: which bytes every digest of a computation is taken
//! of, and that no two passwords share a last sum without a collision.

use crate::backend::sha512;
use crate::base64::digest_text;
use crate::crypt::{
    alternate_sum, by_bits, copies, crypt_text, cycle, initial_sum, p_sequence, round_input,
    s_sequence, sum_after,
};
use crate::decimal::decimal;
use crate::setting::{setting_rounds, setting_salt};
use vstd::arithmetic::div_mod::{lemma_div_denominator, lemma_fundamental_div_mod_converse};
use vstd::arithmetic::power2::{lemma2_to64, lemma_pow2_pos, lemma_pow2_unfold, pow2};
use vstd::prelude::*;

verus! {

/// The alternate sum is the digest of the whole key, the salt and the whole key
/// again.
pub proof fn law_alternate_sum(key: Seq<u8>, salt: Seq<u8>, m: Seq<u8>)
    requires
        m.len() == 2 * key.len() + salt.len(),
        forall|i: int| 0 <= i < key.len() ==> m[i] == #[trigger] key[i],
        forall|i: int| 0 <= i < salt.len() ==> m[key.len() + i] == #[trigger] salt[i],
        forall|i: int| 0 <= i < key.len() ==> m[key.len() + salt.len() + i] == #[trigger] key[i],
    ensures
        alternate_sum(key, salt) == sha512(m)@,
{
    assert(m =~= key + salt + key);
}

proof fn lemma_by_bits_blocks(n: nat, one: Seq<u8>, zero: Seq<u8>, blocks: Seq<Seq<u8>>)
    requires
        n < pow2(blocks.len()),
        blocks.len() > 0 ==> pow2((blocks.len() - 1) as nat) <= n,
        forall|j: int|
            0 <= j < blocks.len() ==> #[trigger] blocks[j] == (if n as int / pow2(j as nat) as int
                % 2 == 1 {
                one
            } else {
                zero
            }),
    ensures
        blocks.flatten() == by_bits(n, one, zero),
    decreases n,
{
    lemma2_to64();
    if n == 0 {
        if blocks.len() > 0 {
            lemma_pow2_pos((blocks.len() - 1) as nat);
        }
    } else {
        assert(pow2(0) == 1);
        let rest = blocks.drop_first();
        assert(n as int / 1 == n);
        assert(blocks[0] == (if n % 2 == 1 {
            one
        } else {
            zero
        }));
        lemma_pow2_unfold(blocks.len());
        if rest.len() > 0 {
            lemma_pow2_unfold(rest.len());
        }
        assert forall|j: int| 0 <= j < rest.len() implies #[trigger] rest[j] == (if (n / 2) as int
            / pow2(j as nat) as int % 2 == 1 {
            one
        } else {
            zero
        }) by {
            lemma_pow2_unfold((j + 1) as nat);
            lemma_pow2_pos(j as nat);
            lemma_div_denominator(n as int, 2, pow2(j as nat) as int);
            assert(rest[j] == blocks[j + 1]);
        }
        lemma_by_bits_blocks(n / 2, one, zero, rest);
    }
}

/// The initial sum is the digest of the whole key, the salt, as many bytes of
/// the alternate sum, over and over, as the key has, and then a block for every
/// binary digit of the key's length, from the lowest to the highest that is not
/// zero: the alternate sum for a 1, the whole key for a 0.
pub proof fn law_initial_sum(key: Seq<u8>, salt: Seq<u8>, m: Seq<u8>, blocks: Seq<Seq<u8>>)
    requires
        key.len() < pow2(blocks.len()),
        blocks.len() > 0 ==> pow2((blocks.len() - 1) as nat) <= key.len(),
        forall|j: int|
            0 <= j < blocks.len() ==> #[trigger] blocks[j] == (if key.len() as int / pow2(
                j as nat,
            ) as int % 2 == 1 {
                alternate_sum(key, salt)
            } else {
                key
            }),
        m.len() == 2 * key.len() + salt.len() + blocks.flatten().len(),
        forall|i: int| 0 <= i < key.len() ==> m[i] == #[trigger] key[i],
        forall|i: int| 0 <= i < salt.len() ==> m[key.len() + i] == #[trigger] salt[i],
        forall|i: int|
            key.len() + salt.len() <= i < 2 * key.len() + salt.len() ==> #[trigger] m[i]
                == alternate_sum(key, salt)[(i - key.len() - salt.len()) % 64],
        m.skip(2 * key.len() + salt.len() as int) == blocks.flatten(),
    ensures
        initial_sum(key, salt) == sha512(m)@,
        sum_after(0, key, salt) == sha512(m)@,
{
    let alt = alternate_sum(key, salt);
    let n = key.len();
    lemma_by_bits_blocks(n, alt, key, blocks);
    let front = key + salt + cycle(alt, n);
    assert forall|i: int| 0 <= i < m.len() implies #[trigger] m[i] == (front + by_bits(
        n,
        alt,
        key,
    ))[i] by {
        if i < n {
            assert(m[i] == key[i]);
        } else if i < n + salt.len() {
            assert(m[n + (i - n)] == salt[i - n]);
        } else if i >= front.len() {
            assert(m[i] == m.skip(front.len() as int)[i - front.len()]);
        }
    }
    assert(m =~= front + by_bits(n, alt, key));
}

proof fn lemma_copies_at(s: Seq<u8>, n: nat)
    ensures
        copies(s, n).len() == n * s.len(),
        forall|i: int| 0 <= i < n * s.len() ==> #[trigger] copies(s, n)[i] == s[i % s.len() as int],
    decreases n,
{
    if n == 0 {
        assert(0 * s.len() == 0);
    } else {
        let k = (n - 1) as nat;
        lemma_copies_at(s, k);
        let len = s.len() as int;
        assert(n * s.len() == k * s.len() + s.len()) by (nonlinear_arith)
            requires
                k == n - 1,
        ;
        assert forall|i: int| 0 <= i < n * s.len() implies #[trigger] copies(s, n)[i] == s[i
            % s.len() as int] by {
            if i >= k * s.len() {
                lemma_fundamental_div_mod_converse(i, len, k as int, i - k * s.len());
            }
        }
    }
}

/// P is as long as the key, and is made of a digest written over and over: that
/// of as many copies of the key, one after the other, as the key has bytes.
pub proof fn law_p_sequence(key: Seq<u8>, m: Seq<u8>, i: int)
    requires
        m.len() == key.len() * key.len(),
        forall|j: int| 0 <= j < m.len() ==> #[trigger] m[j] == key[j % key.len() as int],
    ensures
        p_sequence(key).len() == key.len(),
        0 <= i < key.len() ==> p_sequence(key)[i] == sha512(m)@[i % 64],
{
    lemma_copies_at(key, key.len());
    assert(m =~= copies(key, key.len()));
}

/// S is as long as the salt, and is made of a digest written over and over: that
/// of copies of the salt, 16 and as many more as the first byte of the initial
/// sum says.
pub proof fn law_s_sequence(key: Seq<u8>, salt: Seq<u8>, m: Seq<u8>, i: int)
    requires
        m.len() == (16 + initial_sum(key, salt)[0]) * salt.len(),
        forall|j: int| 0 <= j < m.len() ==> #[trigger] m[j] == salt[j % salt.len() as int],
    ensures
        s_sequence(key, salt).len() == salt.len(),
        0 <= i < salt.len() ==> s_sequence(key, salt)[i] == sha512(m)@[i % 64],
{
    let times = (16 + initial_sum(key, salt)[0]) as nat;
    lemma_copies_at(salt, times);
    assert(m =~= copies(salt, times));
}

/// Round `i` takes the digest of the sum before it and P, with more between
/// them: in even rounds the sum comes first and P last, in odd rounds the other
/// way round. Between them stands S, but not in every third round, and then P,
/// but not in every seventh, both counted from round 0.
pub proof fn law_round(i: nat, key: Seq<u8>, salt: Seq<u8>, between: Seq<u8>)
    requires
        i % 3 == 0 && i % 7 == 0 ==> between == Seq::<u8>::empty(),
        i % 3 == 0 && i % 7 != 0 ==> between == p_sequence(key),
        i % 3 != 0 && i % 7 == 0 ==> between == s_sequence(key, salt),
        i % 3 != 0 && i % 7 != 0 ==> between == s_sequence(key, salt) + p_sequence(key),
    ensures
        sum_after(i, key, salt).len() == 64,
        i % 2 == 0 ==> sum_after(i + 1, key, salt) == sha512(
            sum_after(i, key, salt) + between + p_sequence(key),
        )@,
        i % 2 == 1 ==> sum_after(i + 1, key, salt) == sha512(
            p_sequence(key) + between + sum_after(i, key, salt),
        )@,
{
    let sum = sum_after(i, key, salt);
    let p = p_sequence(key);
    let s = s_sequence(key, salt);
    let m = round_input(i as int, sum, p, s);
    if i % 2 == 0 {
        assert(m =~= sum + between + p);
    } else {
        assert(m =~= p + between + sum);
    }
}

proof fn lemma_sum_len(n: nat, key: Seq<u8>, salt: Seq<u8>)
    ensures
        sum_after(n, key, salt).len() == 64,
{
}

/// The hash string of a key under a setting is `$6$`, then `rounds=`, the number
/// and `$` if the setting names one, then the salt, `$`, and the text of the sum
/// after that many rounds, or after 5000, computed of the whole key.
pub proof fn law_hash_of_setting(key: Seq<u8>, setting: Seq<u8>)
    ensures
        ({
            let salt = setting_salt(setting);
            crypt_text(key, setting) == (match setting_rounds(setting) {
                Some(n) => seq![
                    0x24u8,
                    0x36,
                    0x24,
                    0x72,
                    0x6f,
                    0x75,
                    0x6e,
                    0x64,
                    0x73,
                    0x3d,
                ] + decimal(n) + seq![0x24u8] + salt + seq![0x24u8] + digest_text(
                    sum_after(n, key, salt),
                ),
                None => seq![0x24u8, 0x36, 0x24] + salt + seq![0x24u8] + digest_text(
                    sum_after(5000, key, salt),
                ),
            })
        }),
{
    let salt = setting_salt(setting);
    match setting_rounds(setting) {
        Some(n) => {
            assert(crypt_text(key, setting) =~= seq![
                0x24u8,
                0x36,
                0x24,
                0x72,
                0x6f,
                0x75,
                0x6e,
                0x64,
                0x73,
                0x3d,
            ] + decimal(n) + seq![0x24u8] + salt + seq![0x24u8] + digest_text(
                sum_after(n, key, salt),
            ));
        },
        None => {
            assert(crypt_text(key, setting) =~= seq![0x24u8, 0x36, 0x24] + salt + seq![0x24u8]
                + digest_text(sum_after(5000, key, salt)));
        },
    }
}

/// Two different passwords with the same salt and the same sum after any number
/// of rounds, at least one, give a collision of SHA-512: two different messages
/// with one digest. Every byte of the password counts, and its length.
pub proof fn law_same_sum_collides(
    key: Seq<u8>,
    other: Seq<u8>,
    salt: Seq<u8>,
    n: nat,
) -> (pair: (Seq<u8>, Seq<u8>))
    requires
        key != other,
        n > 0,
        sum_after(n, key, salt) == sum_after(n, other, salt),
    ensures
        pair.0 != pair.1,
        sha512(pair.0)@ == sha512(pair.1)@,
    decreases n,
{
    let i = (n - 1) as nat;
    let mine = sum_after(i, key, salt);
    let theirs = sum_after(i, other, salt);
    let a = round_input(i as int, mine, p_sequence(key), s_sequence(key, salt));
    let b = round_input(i as int, theirs, p_sequence(other), s_sequence(other, salt));
    lemma_sum_len(i, key, salt);
    lemma_sum_len(i, other, salt);
    if a != b {
        (a, b)
    } else {
        let more = (if i % 3 != 0 {
            salt.len()
        } else {
            0
        });
        assert(a.len() == 64 + more + (if i % 7 != 0 {
            2 * key.len()
        } else {
            key.len()
        }));
        assert(b.len() == 64 + more + (if i % 7 != 0 {
            2 * other.len()
        } else {
            other.len()
        }));
        assert(key.len() == other.len());
        if i % 2 == 1 {
            assert(mine =~= a.skip(a.len() - 64));
            assert(theirs =~= b.skip(b.len() - 64));
        } else {
            assert(mine =~= a.take(64));
            assert(theirs =~= b.take(64));
        }
        if i > 0 {
            law_same_sum_collides(key, other, salt, i)
        } else {
            let x = key + salt + cycle(alternate_sum(key, salt), key.len()) + by_bits(
                key.len(),
                alternate_sum(key, salt),
                key,
            );
            let y = other + salt + cycle(alternate_sum(other, salt), other.len()) + by_bits(
                other.len(),
                alternate_sum(other, salt),
                other,
            );
            assert(x.take(key.len() as int) =~= key);
            assert(y.take(other.len() as int) =~= other);
            (x, y)
        }
    }
}

} // verus!
