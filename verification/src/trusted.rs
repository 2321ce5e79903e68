//! Trusted bridges to functions of std and of outside crates that vstd gives
//! no specification. Each wrapper's body only makes the call and converts its
//! arguments and result; Verus believes the stated contract without reading
//! the body.

use vstd::prelude::*;

verus! {

/// What html_escape's entity decoding returns: a pure function of the
/// characters of the input.
pub uninterp spec fn decoded_entities(s: Seq<char>) -> Seq<char>;

/// Relies on html_escape::decode_html_entities: decodes the HTML entities in
/// the text, a result that depends on the input characters alone.
#[verifier::external_body]
pub fn decode_entities(s: &str) -> (r: String)
    ensures
        r@ == decoded_entities(s@),
{
    html_escape::decode_html_entities(s).into_owned()
}

/// What decoding a data URL yields: a pure function of the URL's characters,
/// `None` when the text is not a decodable data URL.
pub uninterp spec fn data_url_decoded(url: Seq<char>) -> Option<Seq<u8>>;

/// Relies on data_url's DataUrl::process and DataUrl::decode_to_vec: parsing
/// a data URL and decoding its body depend on the URL's characters alone.
#[verifier::external_body]
pub fn decode_data_url(url: &Vec<char>) -> (r: Option<Vec<u8>>)
    ensures
        match r {
            Some(v) => data_url_decoded(url@) == Some(v@),
            None => data_url_decoded(url@) is None,
        },
{
    let text: String = url.iter().collect();
    match data_url::DataUrl::process(&text) {
        Ok(parsed) => match parsed.decode_to_vec() {
            Ok((body, _fragment)) => Some(body),
            Err(_) => None,
        },
        Err(_) => None,
    }
}

/// Relies on String::from_utf8_lossy: bytes that are valid UTF-8 decode to
/// exactly the characters they encode.
#[verifier::external_body]
pub fn string_from_utf8(v: Vec<u8>) -> (r: String)
    ensures
        vstd::utf8::valid_utf8(v@) ==> r@ == vstd::utf8::decode_utf8(v@),
{
    String::from_utf8_lossy(&v).into_owned()
}

/// Whether a character has the Unicode white-space property: a fact of the
/// character alone.
pub uninterp spec fn char_is_unicode_ws(c: char) -> bool;

/// Relies on char::is_whitespace: true exactly for characters with the
/// Unicode white-space property.
#[verifier::external_body]
pub fn is_unicode_whitespace(c: char) -> (r: bool)
    ensures
        r == char_is_unicode_ws(c),
{
    c.is_whitespace()
}

/// Relies on String::push: appends exactly one character to the string.
#[verifier::external_body]
pub fn push_char(s: &mut String, c: char)
    ensures
        final(s)@ == old(s)@.push(c),
{
    s.push(c)
}

} // verus!
