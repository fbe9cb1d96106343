//! Text-safe encoding of filesystem paths.
//!
//! A path is stored as the padded standard base64 encoding of its UTF-8
//! bytes, so that any path survives as plain ASCII text.

use base64::engine::general_purpose;
use base64::Engine as _;
use vstd::prelude::*;
use vstd::utf8::{decode_utf8, encode_utf8, valid_utf8};

verus! {

broadcast use vstd::utf8::group_utf8_lib;

#[verifier::external_type_specification]
#[verifier::external_body]
pub struct ExDecodeError(base64::DecodeError);

/// The padded standard-alphabet base64 text of `bytes`.
pub uninterp spec fn base64_of(bytes: Seq<u8>) -> Seq<char>;

/// Relies on base64's `STANDARD` engine, `Engine::encode`: the padded
/// standard-alphabet encoding, which depends on the bytes alone.
#[verifier::external_body]
fn base64_encode(bytes: &[u8]) -> (r: String)
    ensures
        r@ == base64_of(bytes@),
{
    general_purpose::STANDARD.encode(bytes)
}

/// Relies on base64's `STANDARD` engine, `Engine::decode`: with canonical
/// padding required and trailing bits refused, it accepts exactly the texts
/// that `encode` produces, and gives back the bytes that were encoded.
#[verifier::external_body]
fn base64_decode(text: &str) -> (r: Result<Vec<u8>, base64::DecodeError>)
    ensures
        forall|v: Seq<u8>| #[trigger] base64_of(v) == text@ ==> r is Ok && r->Ok_0@ == v,
        r matches Ok(d) ==> base64_of(d@) == text@,
{
    general_purpose::STANDARD.decode(text)
}

/// Relies on `String::from_utf8`: it succeeds exactly on valid UTF-8 and
/// then holds the characters that the bytes encode.
#[verifier::external_body]
fn string_from_utf8(bytes: Vec<u8>) -> (r: Option<String>)
    ensures
        r is Some <==> valid_utf8(bytes@),
        r matches Some(s) ==> s@ == decode_utf8(bytes@),
{
    String::from_utf8(bytes).ok()
}

/// The stored form of the path whose characters are `path`.
pub open spec fn encoded_path(path: Seq<char>) -> Seq<char> {
    base64_of(encode_utf8(path))
}

/// Why a stored text is not the stored form of any path.
#[derive(Debug, Clone, Copy, PartialEq, Eq, Structural)]
pub enum PathDecodeError {
    /// The text is not canonical padded base64.
    NotBase64,
    /// The text is base64, but the bytes it encodes are not UTF-8.
    NotUtf8,
}

/// Encodes `path` into its stored form.
pub fn encode_path(path: &str) -> (r: String)
    ensures
        r@ == encoded_path(path@),
{
    base64_encode(path.as_bytes())
}

/// Decodes a stored text back into the path it stands for.
///
/// Decoding the stored form of a path gives back exactly that path.
pub fn decode_path(text: &str) -> (r: Result<String, PathDecodeError>)
    ensures
        forall|p: Seq<char>| #[trigger] encoded_path(p) == text@ ==> (r matches Ok(q) && q@ == p),
        r matches Ok(q) ==> encoded_path(q@) == text@,
        r == Err::<String, PathDecodeError>(PathDecodeError::NotBase64) <==> !exists|v: Seq<u8>|
            #[trigger] base64_of(v) == text@,
        r == Err::<String, PathDecodeError>(PathDecodeError::NotUtf8) <==> exists|v: Seq<u8>|
            #[trigger] base64_of(v) == text@ && !valid_utf8(v),
{
    match base64_decode(text) {
        Err(_) => {
            assert forall|p: Seq<char>| #[trigger] encoded_path(p) != text@ by {
                assert(base64_of(encode_utf8(p)) != text@);
            }
            Err(PathDecodeError::NotBase64)
        },
        Ok(bytes) => {
            let ghost b = bytes@;
            assert(base64_of(b) == text@);
            match string_from_utf8(bytes) {
                Some(s) => {
                    assert(encode_utf8(decode_utf8(b)) == b);
                    assert forall|p: Seq<char>| #[trigger] encoded_path(p) == text@ implies s@
                        == p by {
                        assert(base64_of(encode_utf8(p)) == text@);
                        assert(decode_utf8(encode_utf8(p)) == p);
                    }
                    Ok(s)
                },
                None => {
                    assert forall|p: Seq<char>| #[trigger] encoded_path(p) != text@ by {
                        if base64_of(encode_utf8(p)) == text@ {
                            assert(encode_utf8(p) == b);
                        }
                    }
                    Err(PathDecodeError::NotUtf8)
                },
            }
        },
    }
}

} // verus!
