use crypt_sha512::api::{hash_bytes_with_salt, hash_rounds_and_wipe};
use crypt_sha512::crypt::crypt_inner;
use crypt_sha512::setting::{find_dollar, parse_setting, push_setting, starts_with};
use crypt_sha512::{hash_with_salt, verify, InvalidHash, Password};

#[test]
fn settings_read() {
    assert_eq!(parse_setting(b""), (&b""[..], None));
    assert_eq!(parse_setting(b"salt"), (&b"salt"[..], None));
    assert_eq!(parse_setting(b"$6$salt"), (&b"salt"[..], None));
    assert_eq!(parse_setting(b"$6$salt$digest"), (&b"salt"[..], None));
    assert_eq!(parse_setting(b"$6$$6$salt"), (&b""[..], None));
    assert_eq!(parse_setting(b"$5$salt"), (&b""[..], None));
    assert_eq!(parse_setting(b"$6$0123456789abcdefg"), (&b"0123456789abcdef"[..], None));
    assert_eq!(parse_setting(b"rounds=2000$salt"), (&b"salt"[..], Some(2000)));
    assert_eq!(parse_setting(b"$6$rounds=2000$salt$x"), (&b"salt"[..], Some(2000)));
    assert_eq!(parse_setting(b"$6$rounds=5000$"), (&b""[..], Some(5000)));
}

#[test]
fn rounds_out_of_range_read() {
    assert_eq!(parse_setting(b"rounds=$s"), (&b"s"[..], Some(1000)));
    assert_eq!(parse_setting(b"rounds=0$s"), (&b"s"[..], Some(1000)));
    assert_eq!(parse_setting(b"rounds=999$s"), (&b"s"[..], Some(1000)));
    assert_eq!(parse_setting(b"rounds=1000$s"), (&b"s"[..], Some(1000)));
    assert_eq!(parse_setting(b"rounds=999999999$s"), (&b"s"[..], Some(999_999_999)));
    assert_eq!(parse_setting(b"rounds=1000000000$s"), (&b"s"[..], Some(999_999_999)));
    assert_eq!(parse_setting(b"rounds=4294968296$s"), (&b"s"[..], Some(999_999_999)));
    assert_eq!(
        parse_setting(b"rounds=99999999999999999999999$s"),
        (&b"s"[..], Some(999_999_999))
    );
}

#[test]
fn rounds_that_are_salt() {
    // Without a `$` after it, or with more than digits in it, it is a salt.
    assert_eq!(parse_setting(b"$6$rounds=2000"), (&b"rounds=2000"[..], None));
    assert_eq!(parse_setting(b"$6$rounds=2k$s"), (&b"rounds=2k"[..], None));
    assert_eq!(parse_setting(b"$6$rounds=+2000$s"), (&b"rounds=+2000"[..], None));
    assert_eq!(parse_setting(b"$6$Rounds=2000$s"), (&b"Rounds=2000"[..], None));
}

#[test]
fn settings_written() {
    let mut out = vec![b'>'];
    push_setting(b"salt", None, &mut out);
    assert_eq!(out, b">$6$salt");
    let mut out = Vec::new();
    push_setting(b"", Some(999_999_999), &mut out);
    assert_eq!(out, b"$6$rounds=999999999$");
}

#[test]
fn bytes_are_found() {
    assert_eq!(find_dollar(b""), 0);
    assert_eq!(find_dollar(b"$a"), 0);
    assert_eq!(find_dollar(b"ab$c$"), 2);
    assert_eq!(find_dollar(b"abc"), 3);
    assert!(starts_with(b"abc", b"ab"));
    assert!(starts_with(b"abc", b""));
    assert!(!starts_with(b"ab", b"abc"));
    assert!(!starts_with(b"abc", b"b"));
}

#[test]
fn key_lengths() {
    // Around the multiples of the digest's length.
    let expected = [
        (0, "8.6rbmbp5x0d6GHKoit3wSooHPfMEY9cwCpDMr6.bC46HXi1Eqr7xqKZ9RPwaFW/eCyoUBBNRq1xG/f612CuH0"),
        (1, "dp.sf6xrDVOi6TLP3zDbIJaA6gs0VgRbHlpmjjxGZKgmGeTPVWC8FNtkny4LZetNMVSTwdL6c/OB/cDBZl76V0"),
        (63, "RT85dwozUIOZ1Iqzp16GhtfeotwDTyPvhfp..I0Mv88HIb/Th2kx/ynDYgw5mDPLuFSpeVkZ1MMjfrs.oBY/O1"),
        (64, "JvC/rO7Uo40vL/yzPKuK8AsZQnaeIe4wZAVQy8p0dqJ6VyzzPu0iJECxvhx5J2k4sPIs4ycnZWSeL7VUAATnj."),
        (65, "GE6FzzNMkLZA2YzAvlXDocpNj9sRcJwZRWmlRrD9iA5n/bLa/r6jBJpS8xz4.qt5bAQvsU/rQu2y9.x/hCym90"),
        (127, "qzj59i3eJ6BwGtV/7p6NqV/l/hyuAugJDRkFkecpdloWP0Y7/TNQTJ4q4FAtgKqvc57jn7Beibeo9M.P1fX2B0"),
        (128, "w8.S91Pz4TE8nzqwsyVMP0YsCjEQyEvHyLxZSKogqcDv6nrGAKP6rzksl2w7kkLvfUjXv8MXD7SowbAJw817v/"),
        (129, "GMQZYPKy9MaV2s1Nvq9nhk6GzpuqAEGjddzQIgcxNb3dWDfL/nrJgu.eTSNMJlG0pzwBYjRy6SU./UH3F1JOS0"),
    ];
    for (n, digest) in expected {
        let hash = hash_with_salt(Password::from_bytes(vec![b'x'; n]), b"$6$rounds=1000$salt");
        assert_eq!(hash, format!("$6$rounds=1000$salt${}", digest));
    }
}

#[test]
fn key_of_every_byte() {
    let key: Vec<u8> = (0..=255).collect();
    assert_eq!(
        hash_with_salt(Password::from_bytes(key), b"$6$rounds=1000$abcdefghijklmnopq"),
        "$6$rounds=1000$abcdefghijklmnop$o/q5bkSBzadN1JBdXyDpeSizmltNuceFmJbbDUFac75Wn5yyvbKNTxoJx0tGqEQD/.4SjhWYrsHQYPf1Hufxd1"
    );
}

#[test]
fn settings_hashed() {
    let expected: [(&[u8], &str); 10] = [
        (
            b"",
            "$6$$Z7WSO9A8tKGD2oGB9t2ViKdYTIHgnjMZIbdOJElGnO.QoZE5zDsfnF1WHM.IL2KPxhNG4/v/zU9LBcGhxg5Uy.",
        ),
        (
            b"$6$rounds=$salt",
            "$6$rounds=1000$salt$d7eV9s8slZkQfSpeUNlCmopaL.Tpt4XY61764aINp2KRzpE5Z1iZ0R2WyFPpdxHBQpj2PwPDM2H3NdKLRu/Ax/",
        ),
        (
            b"$6$rounds=abc$salt",
            "$6$rounds=abc$aogKgpmsQVjJlltW4NyByuBZobKQqY1J1ZmOlGJ.pMAEBElE6FP8IlmD894Ra4YNnl7RjCisjIvGxNRGTI24/1",
        ),
        (
            b"$6$rounds=2000",
            "$6$rounds=2000$uZ837wPafsiopVqV/B3WxJp1Xu7JM/jqxxbLYhObOXRIv0SfvAxRsQkqiwWVNHo78PRrpRi3krh02EnmK2yDL/",
        ),
        (
            b"rounds=1500$salt",
            "$6$rounds=1500$salt$PxToZiCBxwnu6w4/pRdTYnOlOOwRvndsnepv0KpMWzFXww4xXb3At92sGQ4ApRajG8fJoaCumMOEJ9YSS2Edl.",
        ),
        (
            b"$6$$6$salt",
            "$6$$Z7WSO9A8tKGD2oGB9t2ViKdYTIHgnjMZIbdOJElGnO.QoZE5zDsfnF1WHM.IL2KPxhNG4/v/zU9LBcGhxg5Uy.",
        ),
        (
            b"$6$rounds=01200$salt",
            "$6$rounds=1200$salt$0CkGRxLhcQawrAntJgTL6JzJGzKJdsQTE1fu5PPmznSVVXtHt9cIQpmBRQMyIdJ3UIWwgdDgMAdodcwyLQpJw0",
        ),
        (
            b"$6$rounds=123",
            "$6$rounds=123$uiYe8sxR.3ZdAIuI0yOUzUgBYyPNe4DyWLGXCvUFNXxHv29sFx.rcqsP9FkRumgQa6gCtkzVwvZw1hGdgHigf0",
        ),
        (
            b"$6$rounds=123$",
            "$6$rounds=1000$$Ww46dvdmbJa51Tn2FjNpXolxguszXFYv9Rxe3VazHhtMSHfmYDtk1WRGASHU.A.aIG6LLP4iqYBXgPIOSQrGS0",
        ),
        (
            b"$6$salt$ignored",
            "$6$salt$AkOOBO38SQQ8T8Q46KuCONe.8zg41nvCDKDq7pVQd2n2hy8sf8aR3G89VY.57up0eSIa/69odCCcLT4hx7FpW/",
        ),
    ];
    for (setting, hash) in expected {
        assert_eq!(hash_with_salt(Password::from("pw"), setting), hash);
        assert_eq!(crypt_inner(b"pw", setting), hash.as_bytes());
    }
}

#[test]
fn salt_beyond_ascii() {
    let hash = "$6$rounds=1000$sälz$QUrt50rOXzmzrWU6K9iq2OI.Eg8m4ZWeVECzYZt0tXZI6RqrbCkH5ELGIzG/eh2NOPrNEI6Wf.0trfmIv5xOD/";
    assert_eq!(
        hash_with_salt(Password::from("pw"), "$6$rounds=1000$sälz".as_bytes()),
        hash
    );
    assert_eq!(verify(Password::from("pw"), hash), Ok(true));

    let mut bytes = b"$6$rounds=1000$\xff\xfe$".to_vec();
    bytes.extend_from_slice(
        b"2eUTczeweVI8rIbiFcZxIpeTdoO2WKVX4O5PuU18MvbjHagMXAucV2lIUkvSDlQ.ICQSdhp8PVcpeg.h.466w0",
    );
    assert_eq!(
        hash_bytes_with_salt(Password::from("pw"), b"$6$rounds=1000$\xff\xfe"),
        bytes
    );
    // That is no text, and neither is a salt cut inside a character.
    assert_eq!(hash_with_salt(Password::from("pw"), b"\xff"), "");
    assert_eq!(hash_with_salt(Password::from("pw"), "0123456789abcdeä".as_bytes()), "");
    assert_eq!(verify(Password::from("pw"), ""), Err(InvalidHash));
    // What is cut off does not matter.
    assert_eq!(
        hash_with_salt(Password::from("pw"), b"$6$0123456789abcdef\xff"),
        hash_with_salt(Password::from("pw"), b"$6$0123456789abcdef")
    );
}

#[test]
fn verify_cuts_a_salt_inside_a_character() {
    // The seventeenth byte of the salt is the second half of a character.
    let hash = "$6$rounds=1000$0123456789abcdeä$digest";
    assert_eq!(verify(Password::from("pw"), hash), Ok(false));
}

#[test]
fn rounds_requested() {
    let salt = b"0123456789abcdef";
    assert_eq!(
        hash_rounds_and_wipe(&mut Password::from("pw"), None, salt),
        hash_with_salt(Password::from("pw"), b"$6$0123456789abcdef")
    );
    assert_eq!(
        hash_rounds_and_wipe(&mut Password::from("pw"), Some(1), salt),
        hash_with_salt(Password::from("pw"), b"$6$rounds=1000$0123456789abcdef")
    );
    assert_eq!(
        hash_rounds_and_wipe(&mut Password::from("pw"), Some(1500), b"salt"),
        "$6$rounds=1500$salt$PxToZiCBxwnu6w4/pRdTYnOlOOwRvndsnepv0KpMWzFXww4xXb3At92sGQ4ApRajG8fJoaCumMOEJ9YSS2Edl."
    );
}

#[test]
fn verify_looks_for_prefix_and_dollar() {
    for hash in ["", "$6", "$6$", "$6$salt", "6$salt$digest", " $6$salt$digest", "$2y$salt$digest"] {
        assert_eq!(verify(Password::from("pw"), hash), Err(InvalidHash), "{}", hash);
    }
    for hash in ["$6$$", "$6$salt$", "$6$salt$digest", "$6$a$b$c"] {
        assert_eq!(verify(Password::from("pw"), hash), Ok(false), "{}", hash);
    }
}

#[test]
fn invalid_hash_in_words() {
    assert_eq!(InvalidHash.to_string(), "not a well-formed SHA512-crypt ($6$) hash");
}
