use crypt_sha512::backend::secure_zero_bytes;
use crypt_sha512::base64::B64_CHARS;
use crypt_sha512::setting::{salt_spec_output_size, ROUNDS_DEFAULT, ROUNDS_MIN, SALT_LEN_MAX};
use crypt_sha512::{hash, hash_with_salt, verify, InvalidHash, Password};

// --- Published SHA-crypt vectors ---

#[test]
fn test_hello_world_basic() {
    let result = hash_with_salt(Password::from("Hello world!"), b"$6$saltstring");
    assert_eq!(
        result,
        "$6$saltstring$svn8UoSVapNtMuq1ukKS4tPQd8iKwSMHWjl/O817G3uBnIFNjnQJuesI68u4OTLiBFdcbYEdFCoEOfaS35inz1"
    );
}

#[test]
fn test_hello_world_with_rounds() {
    let result = hash_with_salt(
        Password::from("Hello world!"),
        b"$6$rounds=10000$saltstringsaltstring",
    );
    assert_eq!(
        result,
        "$6$rounds=10000$saltstringsaltst$OW1/O6BYHV6BcXZu8QVeXbDWra3Oeqh0sbHbbMCVNSnCM/UrjmM0Dp8vOuZeHBy/YTBmSK6H9qs/y3RnOaw5v."
    );
}

#[test]
fn test_long_salt_string() {
    let result = hash_with_salt(
        Password::from("This is just a test"),
        b"$6$rounds=5000$toolongsaltstring",
    );
    assert_eq!(
        result,
        "$6$rounds=5000$toolongsaltstrin$lQ8jolhgVRVhY4b5pZKaysCLi0QBxGoNeKQzQ3glMhwllF7oGDZxUhx1yxdYcz/e1JSbq3y6JMxxl8audkUEm0"
    );
}

#[test]
fn test_multiline_text() {
    let result = hash_with_salt(
        Password::from("a very much longer text to encrypt.  This one even stretches over morethan one line."),
        b"$6$rounds=1400$anotherlongsaltstring"
    );
    assert_eq!(
        result,
        "$6$rounds=1400$anotherlongsalts$POfYwTEok97VWcjxIiSOjiykti.o/pQs.wPvMxQ6Fm7I6IoYN3CmLs66x9t0oSwbtEW7o7UmJEiDwGqd8p4ur1"
    );
}

#[test]
fn test_short_salt() {
    let result = hash_with_salt(
        Password::from("we have a short salt string but not a short password"),
        b"$6$rounds=77777$short",
    );
    assert_eq!(
        result,
        "$6$rounds=77777$short$WuQyW2YR.hBNpjjRhpYD/ifIw05xdfeEyQoMxIXbkvr0gge1a1x3yRULJ5CCaUeOxFmtlcGZelFl5CxtgfiAc0"
    );
}

#[test]
fn test_short_string() {
    let result = hash_with_salt(
        Password::from("a short string"),
        b"$6$rounds=123456$asaltof16chars..",
    );
    assert_eq!(
        result,
        "$6$rounds=123456$asaltof16chars..$BtCwjqMJGx5hrJhZywWvt0RLE8uZ4oPwcelCjmw2kSYu.Ec6ycULevoBK25fs2xXgMNrCzIMVcgEJAstJeonj1"
    );
}

#[test]
fn test_rounds_minimum() {
    let result = hash_with_salt(
        Password::from("the minimum number is still observed"),
        b"$6$rounds=10$roundstoolow",
    );
    assert_eq!(
        result,
        "$6$rounds=1000$roundstoolow$kUMsbe306n21p9R.FRkW3IGn.S9NPN0x50YhH1xhLsPuWGsUSklZt58jaTfF4ZEQpyUNGc0dqbpBYYBaHHrsX."
    );
}

// --- verify() ---

#[test]
fn test_verify_correct_password() {
    let h = "$6$saltstring$svn8UoSVapNtMuq1ukKS4tPQd8iKwSMHWjl/O817G3uBnIFNjnQJuesI68u4OTLiBFdcbYEdFCoEOfaS35inz1";
    assert_eq!(verify(Password::from("Hello world!"), h), Ok(true));
}

#[test]
fn test_verify_wrong_password() {
    let h = "$6$saltstring$svn8UoSVapNtMuq1ukKS4tPQd8iKwSMHWjl/O817G3uBnIFNjnQJuesI68u4OTLiBFdcbYEdFCoEOfaS35inz1";
    assert_eq!(verify(Password::from("wrong password"), h), Ok(false));
}

#[test]
fn test_verify_with_rounds() {
    let h = "$6$rounds=10000$saltstringsaltst$OW1/O6BYHV6BcXZu8QVeXbDWra3Oeqh0sbHbbMCVNSnCM/UrjmM0Dp8vOuZeHBy/YTBmSK6H9qs/y3RnOaw5v.";
    assert_eq!(verify(Password::from("Hello world!"), h), Ok(true));
    assert_eq!(verify(Password::from("Hello world"), h), Ok(false)); // missing !
}

#[test]
fn test_verify_invalid_hash_format() {
    assert_eq!(
        verify(Password::from("password"), "invalid_hash"),
        Err(InvalidHash)
    );
    assert_eq!(
        verify(Password::from("password"), "$5$saltstring$hash"),
        Err(InvalidHash)
    ); // wrong algo
    assert_eq!(
        verify(Password::from("password"), "$6$nosalt"),
        Err(InvalidHash)
    ); // missing digest
}

#[test]
fn test_invalid_hash_display() {
    let s = InvalidHash.to_string();
    assert!(s.contains("$6$"));
}

#[test]
fn test_constant_time_comparison_smoke() {
    let h1 = hash_with_salt(Password::from("password1"), b"$6$salt");
    let h2 = hash_with_salt(Password::from("password2"), b"$6$salt");
    assert_eq!(verify(Password::from("password1"), &h2), Ok(false));
    assert_eq!(verify(Password::from("password2"), &h1), Ok(false));
}

// --- hash() ---

#[test]
fn test_hash_default_rounds() {
    let h = hash(Password::from("test_password"), None);
    assert!(h.starts_with("$6$"));
    assert!(!h.contains("rounds="));
    assert_eq!(verify(Password::from("test_password"), &h), Ok(true));
    assert_eq!(verify(Password::from("wrong_password"), &h), Ok(false));
}

#[test]
fn test_hash_custom_rounds() {
    let h = hash(Password::from("test_password"), Some(10000));
    assert!(h.starts_with("$6$rounds=10000$"));
    assert_eq!(verify(Password::from("test_password"), &h), Ok(true));
    assert_eq!(verify(Password::from("wrong_password"), &h), Ok(false));
}

#[test]
fn test_hash_different_salts() {
    let h1 = hash(Password::from("test_password"), None);
    let h2 = hash(Password::from("test_password"), None);
    assert_ne!(h1, h2);
    assert_eq!(verify(Password::from("test_password"), &h1), Ok(true));
    assert_eq!(verify(Password::from("test_password"), &h2), Ok(true));
}

#[test]
fn test_hash_salt_length_and_alphabet() {
    let h = hash(Password::from("test"), None);
    let parts: Vec<&str> = h.splitn(4, '$').collect();
    assert_eq!(parts.len(), 4);
    assert_eq!(parts[1], "6");
    let salt = parts[2];
    assert_eq!(salt.len(), SALT_LEN_MAX);
    for c in salt.chars() {
        assert!(B64_CHARS.contains(&(c as u8)));
    }
}

#[test]
fn test_hash_rounds_clamping() {
    let h_low = hash(Password::from("test"), Some(100));
    assert!(h_low.contains(&format!("rounds={}$", ROUNDS_MIN)));
    let h_min = hash(Password::from("test"), Some(ROUNDS_MIN));
    assert!(h_min.contains(&format!("rounds={}$", ROUNDS_MIN)));
    let h_normal = hash(Password::from("test"), Some(10000));
    assert!(h_normal.contains("rounds=10000$"));
    assert_eq!(verify(Password::from("test"), &h_low), Ok(true));
    assert_eq!(verify(Password::from("test"), &h_min), Ok(true));
    assert_eq!(verify(Password::from("test"), &h_normal), Ok(true));
}

#[test]
fn test_hash_some_default_omits_rounds_segment() {
    // Documented behavior: Some(ROUNDS_DEFAULT) is treated as None.
    let h = hash(Password::from("x"), Some(ROUNDS_DEFAULT));
    assert!(!h.contains("rounds="));
}

#[test]
fn test_hash_empty_password() {
    let h = hash(Password::from(""), None);
    assert_eq!(verify(Password::from(""), &h), Ok(true));
    assert_eq!(verify(Password::from("not_empty"), &h), Ok(false));
}

#[test]
fn test_hash_unicode() {
    let pw = "пароль🔐test";
    let h = hash(Password::from(pw), Some(5000));
    assert_eq!(verify(Password::from(pw), &h), Ok(true));
    assert_eq!(verify(Password::from("wrong"), &h), Ok(false));
}

// --- helpers / invariants ---

#[test]
fn test_salt_spec_output_size() {
    let salt = "saltstring";
    // 3 ("$6$") + 10 + 1 = 14
    assert_eq!(salt_spec_output_size(salt.len(), false), 14);
    // 3 + 7 ("rounds=") + 9 + 1 + 10 + 1 = 31
    assert_eq!(salt_spec_output_size(salt.len(), true), 31);
    // 3 + 7 + 9 + 1 + 16 + 1 = 37
    assert_eq!(salt_spec_output_size(SALT_LEN_MAX, true), 37);
}

#[test]
fn test_secure_zero_bytes() {
    let mut v = vec![0x42u8; 128];
    secure_zero_bytes(&mut v);
    assert!(v.iter().all(|&b| b == 0));
}

#[test]
fn test_password_drop_zeros_buffer() {
    // Freed memory cannot be looked at, so this only runs the destructor.
    let p = Password::from("secret");
    drop(p);

    // Taking the bytes out does not wipe them.
    let bytes = vec![0xAAu8; 32];
    let p = Password::from_bytes(bytes);
    let recovered = p.into_bytes();
    assert!(recovered.iter().all(|&b| b == 0xAA));
}

#[test]
fn test_password_debug_does_not_leak() {
    let p = Password::from("super-secret-value");
    let dbg = p.debug_string();
    assert!(!dbg.contains("super-secret-value"));
    assert!(dbg.contains("Password"));
}
