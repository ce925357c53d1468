use crypt_sha512::api::{encode_salt, generate_salt};
use crypt_sha512::backend::{constant_time_eq, secure_zero_bytes, secure_zero_vec, Sha512Context};
use crypt_sha512::base64::{b64_char_of, encode_crypt_base64, push_digest, B64_CHARS};
use crypt_sha512::decimal::{atoi_u32, push_u32_as_ascii};
use crypt_sha512::Password;

fn hex(bytes: &[u8]) -> String {
    bytes.iter().map(|b| format!("{:02x}", b)).collect()
}

fn decimal(value: u32) -> String {
    let mut out = vec![b'#'];
    push_u32_as_ascii(value, &mut out);
    String::from_utf8(out).unwrap()
}

#[test]
fn sha512_of_nothing() {
    assert_eq!(
        hex(&Sha512Context::new().finish()),
        "cf83e1357eefb8bdf1542850d66d8007d620e4050b5715dc83f4a921d36ce9ce47d0d13c5d85f2b0ff8318d2877eec2f63b931bd47417a81a538327af927da3e"
    );
}

#[test]
fn sha512_of_abc_in_pieces() {
    let expected = "ddaf35a193617abacc417349ae20413112e6fa4e89a97ea20a9eeee64b55d39a2192992a274fc1a836ba3c23a3feebbd454d4423643ce80e2a9ac94fa54ca49f";
    let mut whole = Sha512Context::new();
    whole.update(b"abc");
    assert_eq!(hex(&whole.finish()), expected);
    let mut pieces = Sha512Context::new();
    pieces.update(b"a");
    pieces.update(b"");
    pieces.update(b"bc");
    assert_eq!(hex(&pieces.finish()), expected);
}

#[test]
fn constant_time_eq_compares() {
    assert!(constant_time_eq(b"", b""));
    assert!(constant_time_eq(b"abc", b"abc"));
    assert!(!constant_time_eq(b"abc", b"abd"));
    assert!(!constant_time_eq(b"abc", b"ab"));
    assert!(!constant_time_eq(b"", b"a"));
}

#[test]
fn wiping_keeps_the_length() {
    let mut v = vec![1u8, 2, 3];
    secure_zero_vec(&mut v);
    assert_eq!(v, vec![0u8, 0, 0]);
    let mut a = [9u8; 5];
    secure_zero_bytes(&mut a[1..3]);
    assert_eq!(a, [9, 0, 0, 9, 9]);
    let mut none: Vec<u8> = Vec::new();
    secure_zero_vec(&mut none);
    assert!(none.is_empty());
}

#[test]
fn generated_salts_are_of_the_alphabet() {
    let mut a = [0u8; 64];
    let mut b = [0u8; 64];
    generate_salt(&mut a);
    generate_salt(&mut b);
    assert!(a.iter().all(|c| B64_CHARS.contains(c)));
    assert!(b.iter().all(|c| B64_CHARS.contains(c)));
    assert_ne!(a, b);
}

#[test]
fn salt_takes_the_lower_six_bits() {
    let mut buf = [0u8, 1, 11, 12, 37, 38, 63, 64, 127, 255];
    encode_salt(&mut buf);
    assert_eq!(&buf, b"./9AZaz.zz");
}

#[test]
fn alphabet() {
    assert_eq!(
        &B64_CHARS,
        b"./0123456789ABCDEFGHIJKLMNOPQRSTUVWXYZabcdefghijklmnopqrstuvwxyz"
    );
    for value in 0..64u8 {
        assert_eq!(b64_char_of(value), B64_CHARS[value as usize]);
    }
}

#[test]
fn base64_of_all_bits() {
    assert_eq!(encode_crypt_base64(&[0xff]), b"z1");
    assert_eq!(encode_crypt_base64(&[0xff, 0xff]), b"zzD");
    assert_eq!(encode_crypt_base64(&[0xff, 0xff, 0xff]), b"zzzz");
    assert_eq!(encode_crypt_base64(&[0, 0, 0, 1]), b"..../.");
}

#[test]
fn digest_order_in_text() {
    // A digest of one set byte at a time: its place in the text shows the order.
    let mut first = [0u8; 64];
    first[42] = 1;
    let mut out = Vec::new();
    push_digest(&first, &mut out);
    assert_eq!(out.len(), 86);
    assert_eq!(out[0], b'/');
    assert!(out[1..].iter().all(|&c| c == b'.'));

    let mut last = [0u8; 64];
    last[63] = 0xff;
    let mut out = Vec::new();
    push_digest(&last, &mut out);
    assert_eq!(&out[84..], b"z1");
    assert!(out[..84].iter().all(|&c| c == b'.'));
}

#[test]
fn numbers_read() {
    assert_eq!(atoi_u32(b""), Some(0));
    assert_eq!(atoi_u32(b"0"), Some(0));
    assert_eq!(atoi_u32(b"007"), Some(7));
    assert_eq!(atoi_u32(b"4294967295"), Some(u32::MAX));
    assert_eq!(atoi_u32(b"4294967296"), Some(u32::MAX));
    assert_eq!(atoi_u32(b"99999999999999999999999999"), Some(u32::MAX));
    assert_eq!(atoi_u32(b"12a"), None);
    assert_eq!(atoi_u32(b"-1"), None);
    assert_eq!(atoi_u32(b"1/"), None);
    assert_eq!(atoi_u32(b"1:"), None);
}

#[test]
fn numbers_written() {
    assert_eq!(decimal(0), "#0");
    assert_eq!(decimal(9), "#9");
    assert_eq!(decimal(10), "#10");
    assert_eq!(decimal(5000), "#5000");
    assert_eq!(decimal(999_999_999), "#999999999");
    assert_eq!(decimal(4_000_000_000), "#4000000000");
    assert_eq!(decimal(u32::MAX), "#4294967295");
}

#[test]
fn passwords_hold_their_bytes() {
    assert_eq!(Password::from("pä".to_string()).into_bytes(), "pä".as_bytes());
    assert_eq!(Password::from("pä").into_bytes(), "pä".as_bytes());
    assert_eq!(Password::from(vec![0u8, 255]).into_bytes(), vec![0u8, 255]);
    assert_eq!(Password::from_bytes(vec![1u8]).into_bytes(), vec![1u8]);
    assert_eq!(Password::from("secret").debug_string(), "Password { .. }");
}
