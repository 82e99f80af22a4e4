//! The few places where the library leans on code it does not verify: base64
//! decoding, regular-expression matching, and two std functions that vstd
//! gives no specification. Each item's contract states only what the outside
//! source or documentation shows.

use vstd::prelude::*;

use base64::Engine;

verus! {

/// What base64's `general_purpose::STANDARD` engine decodes a run of
/// characters to: `None` exactly when the engine rejects the input.
pub uninterp spec fn b64_standard_of(s: Seq<char>) -> Option<Seq<u8>>;

/// Whether a pattern is accepted by regex's `Regex::new`.
pub uninterp spec fn regex_compiles(pattern: Seq<char>) -> bool;

/// What regex's `Regex::is_match` returns for a compiled pattern and a text.
pub uninterp spec fn regex_matches(pattern: Seq<char>, text: Seq<char>) -> bool;

/// Relies on base64's `Engine::decode` with the `STANDARD` engine: the result
/// is a function of the input characters alone.
#[verifier::external_body]
pub(crate) fn b64_decode_standard(s: &str) -> (r: Option<Vec<u8>>)
    ensures
        match r {
            Some(v) => b64_standard_of(s@) == Some(v@),
            None => b64_standard_of(s@) is None,
        },
{
    base64::engine::general_purpose::STANDARD.decode(s).ok()
}

/// Relies on regex's `Regex::new` and `Regex::is_match`: whether the pattern
/// compiles, and whether it matches a text, depend on the characters alone.
#[verifier::external_body]
pub(crate) fn regex_try_match(pattern: &str, text: &str) -> (r: Option<bool>)
    ensures
        r is Some <==> regex_compiles(pattern@),
        r matches Some(b) ==> b == regex_matches(pattern@, text@),
{
    match regex::Regex::new(pattern) {
        Ok(re) => Some(re.is_match(text)),
        Err(_) => None,
    }
}

/// Relies on `String::from_utf8`: it succeeds exactly on valid UTF-8 and
/// returns the decoded characters.
#[verifier::external_body]
pub(crate) fn bytes_to_string(v: &Vec<u8>) -> (r: Option<String>)
    ensures
        match r {
            Some(s) => vstd::utf8::valid_utf8(v@) && s@ == vstd::utf8::decode_utf8(v@),
            None => !vstd::utf8::valid_utf8(v@),
        },
{
    String::from_utf8(v.clone()).ok()
}

/// Relies on `char::encode_utf8`: it writes exactly the character's UTF-8
/// bytes.
#[verifier::external_body]
pub(crate) fn push_char_utf8(out: &mut Vec<u8>, c: char)
    ensures
        final(out)@ == old(out)@ + vstd::utf8::encode_utf8(seq![c]),
{
    let mut buf = [0u8; 4];
    let s = c.encode_utf8(&mut buf);
    out.extend_from_slice(s.as_bytes());
}

/// Relies on `String::push`: it appends exactly the given character.
pub assume_specification[ String::push ](s: &mut String, c: char)
    ensures
        final(s)@ == old(s)@.push(c),
;

/// Relies on `char::from_u32`: it returns the scalar value itself when it is
/// one (not a surrogate, at most 0x10FFFF), and `None` otherwise.
pub assume_specification[ char::from_u32 ](i: u32) -> (r: Option<char>)
    ensures
        r is Some <==> (i < 0xD800 || (0xE000 <= i && i <= 0x10FFFF)),
        r matches Some(c) ==> c as int == i as int,
;

} // verus!
