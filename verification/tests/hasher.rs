use crypt_sha512::base64::{encode_crypt_base64, B64_CHARS};
use crypt_sha512::setting::{ROUNDS_DEFAULT, SALT_LEN_MAX};
use crypt_sha512::{
    hash, hash_with_salt, verify, Error, Password, Sha512Crypt, Sha512CryptParams,
};

#[test]
fn hash_and_verify_round_trip() {
    let hasher = Sha512Crypt::default();
    let hash = hasher
        .hash_password_with_salt(b"hunter2", b"raw salt bytes")
        .unwrap();
    assert!(hash.as_str().starts_with("$6$"));
    // The default rounds are not named.
    assert!(!hash.as_str().contains("rounds="));

    hasher.verify_password_hash(b"hunter2", &hash).unwrap();
    hasher.verify_password(b"hunter2", hash.as_str()).unwrap();
    assert_eq!(
        hasher.verify_password_hash(b"wrong", &hash),
        Err(Error::PasswordInvalid)
    );
    assert_eq!(
        hasher.verify_password(b"wrong", hash.as_str()),
        Err(Error::PasswordInvalid)
    );
}

#[test]
fn customized_hashing() {
    let params = Sha512CryptParams::new(10_000).unwrap();
    let hasher = Sha512Crypt::default();

    let h = hasher
        .hash_password_with_params(b"pw", b"salt", params)
        .unwrap();
    assert!(h.as_str().starts_with("$6$rounds=10000$"));
    hasher.verify_password_hash(b"pw", &h).unwrap();

    // The algorithm can be named...
    hasher
        .hash_password_customized(b"pw", b"salt", Some("6"), None, params)
        .unwrap();
    // ...but no other, and there are no versions.
    assert_eq!(
        hasher.hash_password_customized(b"pw", b"salt", Some("5"), None, params),
        Err(Error::Algorithm)
    );
    assert_eq!(
        hasher.hash_password_customized(b"pw", b"salt", Some("sha512"), None, params),
        Err(Error::Algorithm)
    );
    assert_eq!(
        hasher.hash_password_customized(b"pw", b"salt", None, Some(1), params),
        Err(Error::Version)
    );
}

#[test]
fn verifies_drepper_reference_hashes() {
    let hasher = Sha512Crypt::default();

    let h = "$6$saltstring$svn8UoSVapNtMuq1ukKS4tPQd8iKwSMHWjl/O817G3uBnIFNjnQJuesI68u4OTLiBFdcbYEdFCoEOfaS35inz1";
    hasher.verify_password(b"Hello world!", h).unwrap();
    assert_eq!(
        hasher.verify_password(b"wrong password", h),
        Err(Error::PasswordInvalid)
    );

    let h = "$6$rounds=10000$saltstringsaltst$OW1/O6BYHV6BcXZu8QVeXbDWra3Oeqh0sbHbbMCVNSnCM/UrjmM0Dp8vOuZeHBy/YTBmSK6H9qs/y3RnOaw5v.";
    hasher.verify_password(b"Hello world!", h).unwrap();

    // Made with `rounds=10`, which means 1000.
    let h = "$6$rounds=1000$roundstoolow$kUMsbe306n21p9R.FRkW3IGn.S9NPN0x50YhH1xhLsPuWGsUSklZt58jaTfF4ZEQpyUNGc0dqbpBYYBaHHrsX.";
    hasher
        .verify_password(b"the minimum number is still observed", h)
        .unwrap();
}

#[test]
fn verify_rejects_foreign_and_malformed_hashes() {
    let hasher = Sha512Crypt::default();
    // Another algorithm.
    assert_eq!(
        hasher.verify_password(b"pw", "$5$salt$hash"),
        Err(Error::Algorithm)
    );
    // Not in Modular Crypt Format.
    assert_eq!(
        hasher.verify_password(b"pw", "not a hash"),
        Err(Error::EncodingInvalid)
    );
    // No digest.
    assert_eq!(
        hasher.verify_password(b"pw", "$6$nosalt"),
        Err(Error::EncodingInvalid)
    );
    // A field too many.
    assert_eq!(
        hasher.verify_password(b"pw", "$6$salt$hash$extra"),
        Err(Error::EncodingInvalid)
    );
}

#[test]
fn verify_tolerates_oversized_salt_field() {
    // Some producers store the whole salt, of which 16 characters count.
    let base = hash_with_salt(Password::from("Hello world!"), b"$6$1234567890abcdef");
    let extended = base.replace("$6$1234567890abcdef$", "$6$1234567890abcdefXYZ$");
    Sha512Crypt::default()
        .verify_password(b"Hello world!", extended.as_str())
        .unwrap();
}

#[test]
fn raw_salt_bytes_are_base64_encoded() {
    let hasher = Sha512Crypt::default();
    let h = hasher
        .hash_password_with_salt(b"pw", &[0xde, 0xad, 0xbe, 0xef])
        .unwrap();
    hasher.verify_password_hash(b"pw", &h).unwrap();

    let salt_field = h.as_str().split('$').nth(2).unwrap();
    assert!(salt_field.len() <= SALT_LEN_MAX);
    assert!(salt_field.bytes().all(|b| B64_CHARS.contains(&b)));

    // A salt cannot be empty.
    assert_eq!(
        hasher.hash_password_with_salt(b"pw", b""),
        Err(Error::SaltInvalid)
    );
}

#[test]
fn interops_with_native_api() {
    let hasher = Sha512Crypt::default();

    for rounds in [None, Some(ROUNDS_DEFAULT), Some(100_000)] {
        let h = hash(Password::from("hunter2"), rounds);
        hasher.verify_password(b"hunter2", h.as_str()).unwrap();
    }

    for params in [Sha512CryptParams::default(), Sha512CryptParams::new(100_000).unwrap()] {
        let h = Sha512Crypt::new(params)
            .hash_password_with_salt(b"hunter2", b"pepper")
            .unwrap();
        assert_eq!(verify(Password::from("hunter2"), h.as_str()), Ok(true));
    }
}

#[test]
fn params_validation_and_formatting() {
    assert_eq!(Sha512CryptParams::default().rounds(), 5_000);
    assert_eq!(Sha512CryptParams::new(1_000).unwrap().rounds(), 1_000);
    assert!(Sha512CryptParams::new(999).is_err());
    assert!(Sha512CryptParams::new(1_000_000_000).is_err());

    assert_eq!(Sha512CryptParams::default().to_string(), "rounds=5000");
    assert_eq!(
        "rounds=10000".parse::<Sha512CryptParams>().unwrap(),
        Sha512CryptParams::new(10_000).unwrap()
    );
    assert_eq!(
        "".parse::<Sha512CryptParams>().unwrap(),
        Sha512CryptParams::default()
    );
    assert!("nonsense".parse::<Sha512CryptParams>().is_err());
    assert!("rounds=abc".parse::<Sha512CryptParams>().is_err());

    let params = Sha512CryptParams::new(42_000).unwrap();
    let hasher = Sha512Crypt::from(params);
    assert_eq!(hasher.params(), params);
    assert_eq!(
        Sha512Crypt::new(Sha512CryptParams::default()),
        Sha512Crypt::default()
    );
}

#[test]
fn crypt_base64_encoder_matches_reference() {
    assert_eq!(encode_crypt_base64(b""), b"");
    assert_eq!(encode_crypt_base64(b"f"), b"a/");
    assert_eq!(encode_crypt_base64(b"fo"), b"ax4");
    assert_eq!(encode_crypt_base64(b"foo"), b"axqP");
    assert_eq!(encode_crypt_base64(b"foob"), b"axqPW/");
    assert_eq!(encode_crypt_base64(b"fooba"), b"axqPW34");
    assert_eq!(encode_crypt_base64(b"foobar"), b"axqPW3aQ");

    // From raw salt bytes to the hash string.
    let h = Sha512Crypt::default()
        .hash_password_with_salt(b"hunter2", b"raw salt bytes")
        .unwrap();
    assert_eq!(
        h.as_str(),
        "$6$m3qRUALMgF56WZ5R$yf0LQe6XA6TzObAJAYVtbfLybgkh9VuN8mPHFN4zgb36g4ZwZqCTiDBYZeOuX.cky5uePKTVcqlx54jWH.FnK/"
    );
}

// --- Exact values ---

#[test]
fn hash_with_params_exact() {
    let hasher = Sha512Crypt::default();
    let params = Sha512CryptParams::new(1_000).unwrap();
    let h = hasher
        .hash_password_with_params(b"pw", &[0xde, 0xad, 0xbe, 0xef], params)
        .unwrap();
    assert_eq!(
        h.as_str(),
        "$6$rounds=1000$Srejj1$lTTOkev9aXHA3ONYJsR6dFUyv.IJhy4FaMenxwuOxNk6g/Rd4IP0ckgDYs0ge3OKE8T6HlnKt.5D6V14h3.kE."
    );
}

#[test]
fn long_raw_salt_is_cut() {
    let hasher = Sha512Crypt::default();
    let salt: Vec<u8> = (0..20).collect();
    let h = hasher.hash_password_with_salt(b"pw", &salt).unwrap();
    assert_eq!(
        h.as_str(),
        "$6$.2U.1EE/4Q.07ck0$AuYItRcXJ0j7bOwMx17.iPD.p8k/IPNCowsJLsi.RlJ7kFYNFyy/M39QrTXpSlTWeafl57CCRzFLbeUOr4TY0/"
    );
    // Twelve bytes fill the salt.
    assert_eq!(hasher.hash_password_with_salt(b"pw", &salt[..12]).unwrap(), h);
}

#[test]
fn hasher_takes_its_own_params() {
    let params = Sha512CryptParams::new(1_000).unwrap();
    let ours = Sha512Crypt::new(params)
        .hash_password_with_salt(b"pw", b"salt")
        .unwrap();
    let given = Sha512Crypt::default()
        .hash_password_customized(b"pw", b"salt", None, None, params)
        .unwrap();
    assert_eq!(ours, given);
}

#[test]
fn errors_come_in_order() {
    let hasher = Sha512Crypt::default();
    let params = Sha512CryptParams::default();
    assert_eq!(
        hasher.hash_password_customized(b"pw", b"", Some("5"), Some(1), params),
        Err(Error::Algorithm)
    );
    assert_eq!(
        hasher.hash_password_customized(b"pw", b"", Some("6"), Some(1), params),
        Err(Error::Version)
    );
    assert_eq!(
        hasher.hash_password_customized(b"pw", b"", Some("6"), None, params),
        Err(Error::SaltInvalid)
    );
    assert_eq!(
        hasher.hash_password_with_params(b"pw", b"", params),
        Err(Error::SaltInvalid)
    );
    assert_eq!(
        hasher.hash_password_customized(b"pw", b"s", Some(""), None, params),
        Err(Error::Algorithm)
    );
    assert_eq!(
        hasher.hash_password_customized(b"pw", b"s", Some("66"), None, params),
        Err(Error::Algorithm)
    );
}

#[test]
fn params_errors() {
    let invalid = Error::ParamInvalid { name: "rounds" };
    assert_eq!(Sha512CryptParams::new(0), Err(invalid));
    assert_eq!(Sha512CryptParams::new(u32::MAX), Err(invalid));
    assert_eq!(Sha512CryptParams::from_str("rounds"), Err(Error::ParamsInvalid));
    assert_eq!(Sha512CryptParams::from_str("r=1000"), Err(Error::ParamsInvalid));
    assert_eq!(Sha512CryptParams::from_str("rounds="), Err(invalid));
    assert_eq!(Sha512CryptParams::from_str("rounds=999"), Err(invalid));
    assert_eq!(Sha512CryptParams::from_str("rounds=1000 "), Err(invalid));
    assert_eq!(Sha512CryptParams::from_str("rounds=99999999999999999999"), Err(invalid));
    assert_eq!(Sha512CryptParams::from_str("rounds=001000").unwrap().rounds(), 1_000);
    assert_eq!(Sha512CryptParams::MIN_ROUNDS, 1_000);
    assert_eq!(Sha512CryptParams::MAX_ROUNDS, 999_999_999);
    assert_eq!(
        Sha512CryptParams::new(999_999_999).unwrap().to_string(),
        "rounds=999999999"
    );
}

#[test]
fn rounds_field_is_read_with_its_digits() {
    let hasher = Sha512Crypt::default();
    let digest = "0CkGRxLhcQawrAntJgTL6JzJGzKJdsQTE1fu5PPmznSVVXtHt9cIQpmBRQMyIdJ3UIWwgdDgMAdodcwyLQpJw0";
    assert_eq!(
        hasher.verify_password(b"pw", &format!("$6$rounds=1200$salt${}", digest)),
        Ok(())
    );
    assert_eq!(
        hasher.verify_password(b"pw", &format!("$6$rounds=01200$salt${}", digest)),
        Ok(())
    );
    assert_eq!(
        hasher.verify_password(b"pw", &format!("$6$rounds=1201$salt${}", digest)),
        Err(Error::PasswordInvalid)
    );
    // Without digits the field is a salt, and the next one the digest.
    assert_eq!(
        hasher.verify_password(b"pw", &format!("$6$rounds=$salt${}", digest)),
        Err(Error::EncodingInvalid)
    );
    assert_eq!(
        hasher.verify_password(
            b"pw",
            "$6$rounds=abc$aogKgpmsQVjJlltW4NyByuBZobKQqY1J1ZmOlGJ.pMAEBElE6FP8IlmD894Ra4YNnl7RjCisjIvGxNRGTI24/1"
        ),
        Ok(())
    );
    // The rounds, and then a field short.
    assert_eq!(
        hasher.verify_password(b"pw", "$6$rounds=1200$salt"),
        Err(Error::EncodingInvalid)
    );
    assert_eq!(
        hasher.verify_password(b"pw", "$6$rounds=1200"),
        Err(Error::EncodingInvalid)
    );
    assert_eq!(hasher.verify_password(b"pw", "$6"), Err(Error::EncodingInvalid));
}

#[test]
fn out_of_range_rounds_are_brought_into_range() {
    let h = "$6$rounds=10$roundstoolow$kUMsbe306n21p9R.FRkW3IGn.S9NPN0x50YhH1xhLsPuWGsUSklZt58jaTfF4ZEQpyUNGc0dqbpBYYBaHHrsX.";
    let password = "the minimum number is still observed";
    assert_eq!(
        Sha512Crypt::default().verify_password(password.as_bytes(), h),
        Ok(())
    );
    // The string is not the one that hashing gives, so `verify` refuses it.
    assert_eq!(verify(Password::from(password), h), Ok(false));
}
