use crypt_sha512::modular::split_hash;
use crypt_sha512::{Error, PasswordHash};

#[test]
fn splits_into_identifier_and_fields() {
    let (id, fields) = split_hash("$6$rounds=1000$salt$digest").unwrap();
    assert_eq!(id, "6");
    assert_eq!(fields, vec!["rounds=1000", "salt", "digest"]);
    let (id, fields) = split_hash("$argon-2").unwrap();
    assert_eq!(id, "argon-2");
    assert!(fields.is_empty());
    let (id, fields) = split_hash("$2y$10$AZaz09./+=,-").unwrap();
    assert_eq!(id, "2y");
    assert_eq!(fields, vec!["10", "AZaz09./+=,-"]);
}

#[test]
fn takes_modular_strings_as_they_are() {
    for text in ["$6", "$6$a", "$a-b$c$d", "$6$rounds=5000$x$y"] {
        assert_eq!(PasswordHash::new(text.to_string()).unwrap().as_str(), text);
        assert!(split_hash(text).is_ok());
    }
}

#[test]
fn refuses_what_is_not_modular() {
    let bad = [
        "", "$", "$$", "6", "6$a$b", "$6$", "$6$$a", "$6$a$", "$$a", "$-6$a", "$6-$a", "$-$a",
        "$A$a", "$6 $a", "$6$a b", "$6$a_b", "$6$a*", "$6$ä", "$ä$a", "$6$a\n", "Hello, world!",
    ];
    for text in bad {
        assert_eq!(PasswordHash::new(text.to_string()), Err(Error::EncodingInvalid), "{}", text);
        assert_eq!(split_hash(text), Err(Error::EncodingInvalid), "{}", text);
    }
}
