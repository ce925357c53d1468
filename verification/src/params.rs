//! The parameters of SHA512-crypt.

use crate::decimal::{
    all_digits, atoi_u32, decimal, digits_value, is_digit, lemma_decimal_value, push_u32_as_ascii,
};
use crate::error::Error;
use crate::setting::{starts_with, ROUNDS_DEFAULT, ROUNDS_MAX, ROUNDS_MIN, SHA512_ROUNDS_PREFIX};
use crate::text::{is_ascii_bytes, lemma_ascii_valid_utf8};
use vstd::prelude::*;
use vstd::utf8::encode_utf8;

verus! {

/// The parameters of SHA512-crypt: the number of rounds, from
/// [`Sha512CryptParams::MIN_ROUNDS`] to [`Sha512CryptParams::MAX_ROUNDS`].
#[derive(Clone, Copy, Debug, PartialEq, Eq)]
pub struct Sha512CryptParams {
    rounds: u32,
}

/// Whether `n` rounds are allowed.
pub open spec fn rounds_in_range(n: nat) -> bool {
    ROUNDS_MIN <= n <= ROUNDS_MAX
}

/// The number of rounds that a parameter field sets: the default for an empty
/// field, and otherwise the number after `rounds=`.
pub open spec fn read_params(field: Seq<u8>) -> Result<nat, Error> {
    if field.len() == 0 {
        Ok(ROUNDS_DEFAULT as nat)
    } else if !SHA512_ROUNDS_PREFIX@.is_prefix_of(field) {
        Err(Error::ParamsInvalid)
    } else if all_digits(field.skip(7)) && rounds_in_range(digits_value(field.skip(7))) {
        Ok(digits_value(field.skip(7)))
    } else {
        Err(Error::ParamInvalid { name: "rounds" })
    }
}

/// The parameter field for a number of rounds.
pub open spec fn params_text(n: nat) -> Seq<u8> {
    SHA512_ROUNDS_PREFIX@ + decimal(n)
}

impl View for Sha512CryptParams {
    type V = nat;

    /// The number of rounds.
    closed spec fn view(&self) -> nat {
        self.rounds as nat
    }
}

impl Sha512CryptParams {
    /// Only numbers of rounds in range are held.
    #[verifier::type_invariant]
    spec fn wf(self) -> bool {
        rounds_in_range(self.rounds as nat)
    }

    /// The fewest rounds allowed.
    pub const MIN_ROUNDS: u32 = ROUNDS_MIN;

    /// The most rounds allowed.
    pub const MAX_ROUNDS: u32 = ROUNDS_MAX;

    /// Parameters with the given number of rounds, if it is in range.
    pub fn new(rounds: u32) -> (params: Result<Self, Error>)
        ensures
            params is Ok <==> rounds_in_range(rounds as nat),
            params matches Ok(p) ==> p@ == rounds,
            params matches Err(e) ==> e == (Error::ParamInvalid { name: "rounds" }),
    {
        if rounds >= ROUNDS_MIN && rounds <= ROUNDS_MAX {
            Ok(Self { rounds })
        } else {
            Err(Error::ParamInvalid { name: "rounds" })
        }
    }

    /// The number of rounds.
    pub fn rounds(self) -> (rounds: u32)
        ensures
            rounds == self@,
            rounds_in_range(rounds as nat),
    {
        proof {
            use_type_invariant(&self);
        }
        self.rounds
    }

    /// The parameter field, such as `rounds=5000`.
    pub fn to_string(&self) -> (text: String)
        ensures
            encode_utf8(text@) == params_text(self@),
    {
        let mut bytes: Vec<u8> = Vec::new();
        bytes.extend_from_slice(&SHA512_ROUNDS_PREFIX);
        push_u32_as_ascii(self.rounds, &mut bytes);
        proof {
            assert(bytes@ =~= params_text(self@));
            lemma_decimal_value(self@);
            let digits = decimal(self@);
            assert(forall|i: int| 0 <= i < digits.len() ==> is_digit(#[trigger] digits[i]));
            assert(is_ascii_bytes(bytes@));
            lemma_ascii_valid_utf8(bytes@);
        }
        match String::from_utf8(bytes) {
            Ok(text) => text,
            Err(_) => String::new(),
        }
    }

    /// Reads a parameter field: `rounds=N`, or nothing for the default.
    pub fn from_str(s: &str) -> (params: Result<Self, Error>)
        ensures
            match read_params(encode_utf8(s@)) {
                Ok(n) => params matches Ok(p) && p@ == n,
                Err(e) => params matches Err(e2) && e2 == e,
            },
    {
        let field: &[u8] = s.as_bytes();
        if field.len() == 0 {
            return Ok(Self { rounds: ROUNDS_DEFAULT });
        }
        if !starts_with(field, &SHA512_ROUNDS_PREFIX) {
            return Err(Error::ParamsInvalid);
        }
        let digits: &[u8] = &field[7..field.len()];
        assert(digits@ =~= field@.skip(7));
        match atoi_u32(digits) {
            Some(rounds) => Self::new(rounds),
            None => Err(Error::ParamInvalid { name: "rounds" }),
        }
    }
}

impl std::str::FromStr for Sha512CryptParams {
    type Err = Error;

    fn from_str(s: &str) -> (params: Result<Self, Error>)
        ensures
            match read_params(encode_utf8(s@)) {
                Ok(n) => params matches Ok(p) && p@ == n,
                Err(e) => params matches Err(e2) && e2 == e,
            },
    {
        Self::from_str(s)
    }
}

impl Default for Sha512CryptParams {
    /// The default parameters: 5000 rounds.
    fn default() -> (params: Self)
        ensures
            params@ == ROUNDS_DEFAULT,
    {
        Self { rounds: ROUNDS_DEFAULT }
    }
}

} // verus!
