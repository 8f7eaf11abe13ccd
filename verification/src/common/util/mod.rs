//! What a finished command gives back, and fresh identifiers.
use vstd::prelude::*;
use vstd::utf8::*;

use crate::text::{trim, trimmed};

pub mod zip_util;

verus! {

/// What `String::from_utf8` reports, as text, for bytes that are not UTF-8.
pub uninterp spec fn utf8_error_message(bytes: Seq<u8>) -> Seq<char>;

/// The text that `bytes` encode, or the error message where they are not UTF-8.
pub open spec fn decoded(bytes: Seq<u8>) -> Result<Seq<char>, Seq<char>> {
    if valid_utf8(bytes) {
        Ok(decode_utf8(bytes))
    } else {
        Err(utf8_error_message(bytes))
    }
}

/// Calls `String::from_utf8`: the bytes decoded where they are valid UTF-8
/// (the standard library's documented behaviour), else the error's message.
#[verifier::external_body]
pub(crate) fn string_from_utf8(bytes: Vec<u8>) -> (r: Result<String, String>)
    ensures
        match r {
            Ok(s) => valid_utf8(bytes@) && s@ == decode_utf8(bytes@),
            Err(e) => !valid_utf8(bytes@) && e@ == utf8_error_message(bytes@),
        },
{
    match String::from_utf8(bytes) {
        Ok(s) => Ok(s),
        Err(e) => Err(e.to_string()),
    }
}

/// What a finished command is turned into: on success its standard output,
/// decoded and trimmed; on failure its standard error, decoded and untrimmed,
/// as the error. Bytes that are not UTF-8 give the decoding error instead.
pub open spec fn command_result(success: bool, stdout: Seq<u8>, stderr: Seq<u8>) -> Result<
    Seq<char>,
    Seq<char>,
> {
    if success {
        match decoded(stdout) {
            Ok(s) => Ok(trim(s)),
            Err(e) => Err(e),
        }
    } else {
        match decoded(stderr) {
            Ok(s) => Err(s),
            Err(e) => Err(e),
        }
    }
}

/// The result of a finished command, from its exit status and its two
/// output streams.
pub fn run_cmd_get_result(success: bool, stdout: Vec<u8>, stderr: Vec<u8>) -> (r: Result<
    String,
    String,
>)
    ensures
        match (r, command_result(success, stdout@, stderr@)) {
            (Ok(s), Ok(t)) => s@ == t,
            (Err(e), Err(t)) => e@ == t,
            _ => false,
        },
{
    if success {
        match string_from_utf8(stdout) {
            Ok(s) => Ok(trimmed(s.as_str())),
            Err(e) => Err(e),
        }
    } else {
        match string_from_utf8(stderr) {
            Ok(s) => Err(s),
            Err(e) => Err(e),
        }
    }
}

/// A lower-case hexadecimal digit.
pub open spec fn is_lower_hex(c: char) -> bool {
    ('0' <= c <= '9') || ('a' <= c <= 'f')
}

/// The hyphenated text of a random (version 4) UUID: 36 characters, hyphens
/// at 8, 13, 18 and 23, lower-case hexadecimal digits elsewhere, the version
/// digit `4` at 14 and one of `8`, `9`, `a`, `b` at 19.
pub open spec fn is_uuid_v4_text(s: Seq<char>) -> bool {
    &&& s.len() == 36
    &&& forall|i: int|
        0 <= i < 36 ==> if i == 8 || i == 13 || i == 18 || i == 23 {
            s[i] == '-'
        } else {
            is_lower_hex(#[trigger] s[i])
        }
    &&& s[14] == '4'
    &&& s[19] == '8' || s[19] == '9' || s[19] == 'a' || s[19] == 'b'
}

/// Calls `uuid::Uuid::new_v4` and renders it with `to_string`: a random
/// UUID in its hyphenated lower-case form. Which UUID comes back is left open.
#[verifier::external_body]
pub(crate) fn fresh_uuid_text() -> (r: String)
    ensures
        is_uuid_v4_text(r@),
{
    uuid::Uuid::new_v4().to_string()
}

} // verus!
