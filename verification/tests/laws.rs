//! The laws on concrete values.

use crypt_sha512::api::{
    encode_salt, hash_and_wipe, hash_bytes_with_salt, hash_rounds_and_wipe, hash_text_and_wipe,
    verify_and_wipe,
};
use crypt_sha512::base64::{encode_crypt_base64, B64_CHARS};
use crypt_sha512::modular::split_hash;
use crypt_sha512::{
    hash, hash_with_salt, verify, Error, InvalidHash, Password, Sha512Crypt, Sha512CryptParams,
};

fn pw(text: &str) -> Password {
    Password::from(text)
}

const SETTINGS: [&[u8]; 6] = [
    b"",
    b"salt",
    b"$6$rounds=1$salt",
    b"$6$rounds=1234$0123456789abcdefXYZ$more",
    b"$6$rounds=123",
    b"$6$rounds=x$y",
];

#[test]
fn hash_format() {
    for setting in SETTINGS {
        let h = hash_with_salt(pw("secret"), setting);
        let digest = h.rsplit('$').next().unwrap();
        assert!(h.starts_with("$6$"));
        assert_eq!(digest.len(), 86);
        assert!(digest.bytes().all(|b| B64_CHARS.contains(&b)));
    }
}

#[test]
fn verify_accepts() {
    for setting in SETTINGS {
        let h = hash_with_salt(pw("secret"), setting);
        assert_eq!(verify(pw("secret"), &h), Ok(true));
        assert_eq!(verify(pw("Secret"), &h), Ok(false));
    }
}

#[test]
fn new_salt_and_new_hash() {
    let mut salt = [7u8, 200, 63, 64, 65, 0, 1, 2, 3, 4, 5, 6, 7, 8, 9, 255];
    encode_salt(&mut salt);
    assert!(salt.iter().all(|c| B64_CHARS.contains(c)));
    for rounds in [None, Some(0), Some(1500), Some(5000)] {
        let h = hash_rounds_and_wipe(&mut pw("secret"), rounds, &salt);
        assert_eq!(verify(pw("secret"), &h), Ok(true));
        assert_eq!(Sha512Crypt::default().verify_password(b"secret", &h), Ok(()));
        let h = hash(pw("secret"), rounds);
        assert_eq!(verify(pw("secret"), &h), Ok(true));
        assert_eq!(Sha512Crypt::default().verify_password(b"secret", &h), Ok(()));
    }
}

#[test]
fn default_rounds_unnamed() {
    assert_eq!(
        hash_rounds_and_wipe(&mut pw("secret"), Some(5000), b"salt"),
        hash_rounds_and_wipe(&mut pw("secret"), None, b"salt")
    );
}

#[test]
fn rounds_clamped() {
    assert_eq!(
        hash_with_salt(pw("secret"), b"$6$rounds=10$salt"),
        hash_with_salt(pw("secret"), b"$6$rounds=1000$salt")
    );
}

#[test]
fn salt_cut() {
    assert_eq!(
        hash_with_salt(pw("secret"), b"$6$0123456789abcdefXYZ"),
        hash_with_salt(pw("secret"), b"$6$0123456789abcdef")
    );
}

#[test]
fn id_optional() {
    assert_eq!(
        hash_with_salt(pw("secret"), b"rounds=1100$salt"),
        hash_with_salt(pw("secret"), b"$6$rounds=1100$salt")
    );
}

#[test]
fn hash_is_setting() {
    let h = hash_with_salt(pw("secret"), b"$6$rounds=1100$salt");
    assert_eq!(hash_with_salt(pw("secret"), h.as_bytes()), h);
    // The exception: with a `$` after it this salt is a number of rounds.
    let h = hash_with_salt(pw("secret"), b"$6$rounds=123");
    assert_ne!(hash_with_salt(pw("secret"), h.as_bytes()), h);
}

#[test]
fn params_round_trip() {
    for n in [1_000, 5_000, 123_456, 999_999_999] {
        let params = Sha512CryptParams::new(n).unwrap();
        assert_eq!(params.to_string().parse::<Sha512CryptParams>(), Ok(params));
    }
}

#[test]
fn hasher_accepts_hashes() {
    let hasher = Sha512Crypt::default();
    for setting in [&b"salt"[..], b"$6$rounds=1$salt", b"$6$rounds=1234$0123456789abcdefXYZ$more"] {
        let h = hash_with_salt(pw("secret"), setting);
        assert_eq!(hasher.verify_password(b"secret", &h), Ok(()));
    }
    // The exceptions: a salt that cannot be a field, and one that is taken for
    // the rounds.
    let h = hash_with_salt(pw("secret"), b"");
    assert_eq!(hasher.verify_password(b"secret", &h), Err(Error::EncodingInvalid));
    let h = hash_with_salt(pw("secret"), b"$6$rounds=123");
    assert_eq!(hasher.verify_password(b"secret", &h), Err(Error::EncodingInvalid));
}

#[test]
fn hasher_round_trip_and_agreement() {
    for rounds in [1_000, 5_000] {
        let hasher = Sha512Crypt::new(Sha512CryptParams::new(rounds).unwrap());
        for salt in [&b"s"[..], b"raw salt", b"a raw salt that is too long"] {
            let h = hasher.hash_password_with_salt(b"secret", salt).unwrap();
            assert_eq!(hasher.verify_password_hash(b"secret", &h), Ok(()));
            assert_eq!(
                hasher.verify_password_hash(b"guess", &h),
                Err(Error::PasswordInvalid)
            );
            assert_eq!(verify(pw("secret"), h.as_str()), Ok(true));
            assert_eq!(verify(pw("guess"), h.as_str()), Ok(false));
            let mut setting = match rounds {
                5_000 => b"$6$".to_vec(),
                _ => format!("$6$rounds={}$", rounds).into_bytes(),
            };
            setting.extend_from_slice(&encode_crypt_base64(salt));
            assert_eq!(hash_with_salt(pw("secret"), &setting), h.as_str());
        }
    }
}

#[test]
fn hasher_looks_at_digest() {
    let hasher = Sha512Crypt::default();
    let h = hash_with_salt(pw("secret"), b"$6$rounds=1000$0123456789abcdef");
    for other in [
        h.replace("rounds=1000$", "rounds=0001000$"),
        h.replace("rounds=1000$", "rounds=1$"),
        h.replace("abcdef$", "abcdef0$"),
    ] {
        assert_ne!(h, other);
        assert_eq!(hasher.verify_password(b"secret", &other), Ok(()));
        assert_eq!(
            hasher.verify_password(b"guess", &other),
            Err(Error::PasswordInvalid)
        );
        // Not in normal form, so `verify` does not accept it.
        assert_eq!(verify(pw("secret"), &other), Ok(false));
    }
}

#[test]
fn ascii_settings_and_text() {
    let settings: [&[u8]; 3] = [b"\x00\x01\x7f", b"$6$rounds=1000$ !~\n", b"$6$rounds=1000$"];
    for setting in settings {
        let h = hash_with_salt(pw("secret"), setting);
        assert!(h.is_ascii());
        assert_eq!(h.as_bytes(), hash_bytes_with_salt(pw("secret"), setting));
    }
}

#[test]
fn passwords_are_wiped() {
    let mut p = pw("secret");
    let bytes = hash_and_wipe(&mut p, b"salt");
    assert_eq!(bytes, hash_with_salt(pw("secret"), b"salt").as_bytes());
    assert_eq!(p.into_bytes(), vec![0u8; 6]);

    let mut p = pw("secret");
    let h = hash_text_and_wipe(&mut p, b"salt");
    assert_eq!(h.as_bytes(), bytes);
    assert_eq!(p.into_bytes(), vec![0u8; 6]);
    let mut p = pw("secret");
    assert_eq!(hash_text_and_wipe(&mut p, b"\xff"), "");
    assert_eq!(p.into_bytes(), vec![0u8; 6]);

    let mut p = pw("secret");
    assert_eq!(hash_rounds_and_wipe(&mut p, None, b"salt"), h);
    assert_eq!(p.into_bytes(), vec![0u8; 6]);

    let mut p = pw("secret");
    assert_eq!(verify_and_wipe(&mut p, &h), Ok(true));
    assert_eq!(p.into_bytes(), vec![0u8; 6]);
    for (hash, result) in [
        (h.as_str(), Ok(false)),
        ("$6$no", Err(InvalidHash)),
        ("no", Err(InvalidHash)),
    ] {
        let mut p = pw("guess");
        assert_eq!(verify_and_wipe(&mut p, hash), result);
        assert_eq!(p.into_bytes(), vec![0u8; 5]);
    }

    let mut p = pw("secret");
    p.wipe();
    assert_eq!(p.into_bytes(), vec![0u8; 6]);
}

#[test]
fn parts_agree() {
    let hasher = Sha512Crypt::default();
    let h = hash_with_salt(pw("secret"), b"$6$rounds=1000$salt");
    for hash in [h.as_str(), "$5$salt$digest", "$6$salt", "$6$a$b$c", "$6"] {
        let (id, fields) = split_hash(hash).unwrap();
        assert_eq!(
            hasher.verify_parts(b"secret", id, &fields),
            hasher.verify_password(b"secret", hash)
        );
    }
    // Fields that no string in the format has.
    let h = hash_with_salt(pw("secret"), b"");
    let digest = h.rsplit('$').next().unwrap();
    assert_eq!(hasher.verify_parts(b"secret", "6", &["", digest]), Ok(()));
    assert_eq!(
        hasher.verify_parts(b"guess", "6", &["", digest]),
        Err(Error::PasswordInvalid)
    );
    assert_eq!(
        hasher.verify_parts(b"secret", "6", &["$", digest]),
        Err(Error::EncodingInvalid)
    );
    assert_eq!(hasher.verify_parts(b"secret", "", &["$"]), Err(Error::Algorithm));
}
