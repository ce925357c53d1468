//! Hash strings in Modular Crypt Format: `$`, an identifier, and fields with a
//! `$` before each.

use crate::error::Error;
use crate::setting::{first_dollar, lemma_first_dollar, lemma_first_dollar_is, no_dollar, DOLLAR};
use mcf::Error as McfError;
use vstd::prelude::*;
use vstd::utf8::encode_utf8;

verus! {

/// The pieces of `s` between its `$`s: one more than there are `$`s.
pub open spec fn split_dollar(s: Seq<u8>) -> Seq<Seq<u8>>
    decreases s.len(),
{
    let k = first_dollar(s);
    if 0 <= k < s.len() {
        seq![s.take(k)] + split_dollar(s.skip(k + 1))
    } else {
        seq![s]
    }
}

/// Whether `c` is a lower case letter or a digit.
pub open spec fn is_id_end_char(c: u8) -> bool {
    'a' as int <= c <= 'z' as int || '0' as int <= c <= '9' as int
}

/// Whether `id` can identify an algorithm: lower case letters, digits and `-`,
/// with no `-` at either end.
pub open spec fn is_id(id: Seq<u8>) -> bool {
    &&& id.len() > 0
    &&& is_id_end_char(id[0])
    &&& is_id_end_char(id.last())
    &&& forall|i: int|
        0 <= i < id.len() ==> is_id_end_char(#[trigger] id[i]) || id[i] == '-' as int
}

/// Whether `c` can stand in a field.
pub open spec fn is_field_char(c: u8) -> bool {
    ||| 'A' as int <= c <= 'Z' as int
    ||| 'a' as int <= c <= 'z' as int
    ||| '0' as int <= c <= '9' as int
    ||| c == '.' as int
    ||| c == '/' as int
    ||| c == '+' as int
    ||| c == '=' as int
    ||| c == ',' as int
    ||| c == '-' as int
}

/// Whether `field` is well formed: not empty, and of the characters of a field.
pub open spec fn is_field(field: Seq<u8>) -> bool {
    &&& field.len() > 0
    &&& forall|i: int| 0 <= i < field.len() ==> is_field_char(#[trigger] field[i])
}

/// The identifier of a hash string.
pub open spec fn id_of(hash: Seq<u8>) -> Seq<u8> {
    split_dollar(hash.skip(1))[0]
}

/// The fields of a hash string, after the identifier.
pub open spec fn fields_of(hash: Seq<u8>) -> Seq<Seq<u8>> {
    split_dollar(hash.skip(1)).skip(1)
}

/// Whether a hash string is in Modular Crypt Format.
pub open spec fn is_modular(hash: Seq<u8>) -> bool {
    &&& hash.len() > 0
    &&& hash[0] == DOLLAR
    &&& is_id(id_of(hash))
    &&& forall|i: int| 0 <= i < fields_of(hash).len() ==> is_field(#[trigger] fields_of(hash)[i])
}

/// The error of the `mcf` crate.
#[verifier::external_type_specification]
#[verifier::external_body]
pub struct ExMcfError(McfError);

/// `mcf::PasswordHash::new`: takes a string in Modular Crypt Format, keeping
/// it as it is, and refuses any other. Identifiers and fields are ASCII, so
/// the format is a matter of the string's bytes.
#[verifier::external_body]
fn mcf_password_hash(text: String) -> (hash: Result<String, McfError>)
    ensures
        hash is Ok <==> is_modular(encode_utf8(text@)),
        hash matches Ok(kept) ==> kept@ == text@,
{
    mcf::PasswordHash::new(text).map(String::from)
}

/// `mcf::PasswordHashRef::new`: as [`mcf_password_hash`], for a borrowed string.
#[verifier::external_body]
fn mcf_password_hash_ref(text: &str) -> (hash: Result<&str, McfError>)
    ensures
        hash is Ok <==> is_modular(encode_utf8(text@)),
        hash matches Ok(kept) ==> kept@ == text@,
{
    mcf::PasswordHashRef::new(text).map(|hash| hash.as_str())
}

/// `mcf::PasswordHashRef::id`: the identifier of a string in Modular Crypt
/// Format.
#[verifier::external_body]
fn mcf_id(text: &str) -> (id: &str)
    requires
        is_modular(encode_utf8(text@)),
    ensures
        encode_utf8(id@) == id_of(encode_utf8(text@)),
{
    mcf::PasswordHashRef::new(text).unwrap().id()
}

/// `mcf::PasswordHashRef::fields`: the fields after the identifier of a string
/// in Modular Crypt Format, in order.
#[verifier::external_body]
fn mcf_fields(text: &str) -> (fields: Vec<&str>)
    requires
        is_modular(encode_utf8(text@)),
    ensures
        fields@.len() == fields_of(encode_utf8(text@)).len(),
        forall|i: int|
            0 <= i < fields@.len() ==> encode_utf8((#[trigger] fields@[i])@) == fields_of(
                encode_utf8(text@),
            )[i],
{
    mcf::PasswordHashRef::new(text).unwrap().fields().map(|field| field.as_str()).collect()
}

/// A hash string in Modular Crypt Format.
#[derive(Debug, PartialEq, Eq)]
pub struct PasswordHash {
    text: String,
}

impl View for PasswordHash {
    type V = Seq<char>;

    /// The hash string.
    closed spec fn view(&self) -> Seq<char> {
        self.text@
    }
}

impl PasswordHash {
    /// Only strings in Modular Crypt Format are held.
    #[verifier::type_invariant]
    spec fn wf(self) -> bool {
        is_modular(encode_utf8(self.text@))
    }

    /// Takes a hash string, if it is in Modular Crypt Format.
    pub fn new(text: String) -> (hash: Result<Self, Error>)
        ensures
            hash is Ok <==> is_modular(encode_utf8(text@)),
            hash matches Ok(h) ==> h@ == text@,
            hash matches Err(e) ==> e == Error::EncodingInvalid,
    {
        match mcf_password_hash(text) {
            Ok(text) => Ok(Self { text }),
            Err(_) => Err(Error::EncodingInvalid),
        }
    }

    /// The hash string.
    pub fn as_str(&self) -> (text: &str)
        ensures
            text@ == self@,
            is_modular(encode_utf8(text@)),
    {
        proof {
            use_type_invariant(self);
        }
        self.text.as_str()
    }
}

/// The identifier and the fields of a hash string, if it is in Modular Crypt
/// Format.
pub fn split_hash(text: &str) -> (parts: Result<(&str, Vec<&str>), Error>)
    ensures
        parts is Ok <==> is_modular(encode_utf8(text@)),
        parts matches Err(e) ==> e == Error::EncodingInvalid,
        parts matches Ok(p) ==> {
            &&& encode_utf8(p.0@) == id_of(encode_utf8(text@))
            &&& p.1@.len() == fields_of(encode_utf8(text@)).len()
            &&& forall|i: int|
                0 <= i < p.1@.len() ==> encode_utf8((#[trigger] p.1@[i])@) == fields_of(
                    encode_utf8(text@),
                )[i]
        },
{
    match mcf_password_hash_ref(text) {
        Ok(text) => Ok((mcf_id(text), mcf_fields(text))),
        Err(_) => Err(Error::EncodingInvalid),
    }
}

/// A piece without `$` is split off whole.
pub proof fn lemma_split_dollar(piece: Seq<u8>, rest: Seq<u8>)
    requires
        no_dollar(piece),
    ensures
        split_dollar(piece) == seq![piece],
        split_dollar(piece.push(DOLLAR) + rest) == seq![piece] + split_dollar(rest),
{
    assert(piece.take(piece.len() as int) =~= piece);
    lemma_first_dollar_is(piece, piece.len() as int);
    let s = piece.push(DOLLAR) + rest;
    assert(s.take(piece.len() as int) =~= piece);
    lemma_first_dollar_is(s, piece.len() as int);
    assert(s.skip(piece.len() as int + 1) =~= rest);
}

/// Splitting takes nothing away: the first piece, and the rest after a `$` if
/// there are more pieces, make up the whole.
pub proof fn lemma_split_first(s: Seq<u8>) -> (rest: Seq<u8>)
    ensures
        split_dollar(s).len() > 0,
        split_dollar(s).len() == 1 ==> s == split_dollar(s)[0],
        split_dollar(s).len() > 1 ==> s == split_dollar(s)[0].push(DOLLAR) + rest
            && split_dollar(rest) == split_dollar(s).skip(1),
{
    lemma_first_dollar(s);
    let k = first_dollar(s);
    if k < s.len() {
        let rest = s.skip(k + 1);
        assert(s =~= s.take(k).push(DOLLAR) + rest);
        assert(split_dollar(s).skip(1) =~= split_dollar(rest));
        lemma_split_nonempty(rest);
        rest
    } else {
        s
    }
}

proof fn lemma_split_nonempty(s: Seq<u8>)
    ensures
        split_dollar(s).len() > 0,
{
}

} // verus!
