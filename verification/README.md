# crypt_sha512

SHA512-crypt (`$6$`) password hashing, written and verified in Verus.

```rust
use crypt_sha512::{hash, verify, InvalidHash, Password};

let stored = hash(Password::from("correct horse battery staple"), None);
assert_eq!(verify(Password::from("correct horse battery staple"), &stored), Ok(true));
assert_eq!(verify(Password::from("Tr0ub4dor&3"), &stored), Ok(false));
assert_eq!(verify(Password::from("anything"), "not a hash"), Err(InvalidHash));
```

A hash string is `$6$[rounds=N$]salt$digest`: the rounds lie between 1000 and
999,999,999 and are left out for the default of 5000, the salt has up to 16
bytes, and the digest is 86 characters of `crypt` base64.

## Layout

| Module | What it holds |
|---|---|
| `backend` | SHA-512 (`sha2`), comparison (`subtle`), random bytes (`getrandom`), wiping (`zeroize`) |
| `base64`, `decimal`, `text` | the encodings |
| `setting` | reading and writing `$6$[rounds=N$]salt` |
| `crypt` | the algorithm |
| `password`, `secret` | `Password` and the buffers of the computation, wiped on drop |
| `api` | `hash`, `hash_with_salt`, `verify` |
| `modular` | Modular Crypt Format (`mcf`) |
| `params`, `hasher`, `error` | `Sha512Crypt` and its parameters |
| `laws` | what holds of the functions together |

`app/` wraps the library's types for the `password-hash` traits and for
`Display`, `Debug` and `std::error::Error`.

## What is trusted

The contracts of the calls into outside crates, each in a small wrapper in
`backend` and `modular`, and of `String::from_utf8` and `String::into_bytes`.
SHA-512 itself is an unknown function there: nothing is assumed of it but that
it is one. That comparing takes constant time, that wiping cannot be optimised
away and that random bytes are unpredictable are properties of those crates
which the contracts do not speak of.
