//! The library's calls into code it does not verify, each behind a
//! contract that states no more than the callee's documentation promises.

use vstd::prelude::*;
use rand_core::RngCore;
use base64::Engine;

verus! {

use vstd::utf8::{valid_utf8, decode_utf8};

/// Relies on `String::from_utf8`: it succeeds exactly on valid UTF-8,
/// and the resulting string holds the characters those bytes encode.
#[verifier::external_body]
pub(crate) fn bytes_to_string(bytes: Vec<u8>) -> (r: Option<String>)
    ensures
        match r {
            Some(s) => valid_utf8(bytes@) && s@ == decode_utf8(bytes@),
            None => !valid_utf8(bytes@),
        },
{
    match String::from_utf8(bytes) {
        Ok(s) => Some(s),
        Err(_) => None,
    }
}

/// What URL-safe unpadded base64 makes of a byte string.
pub uninterp spec fn base64_url_nopad_of(b: Seq<u8>) -> Seq<char>;

/// The characters the URL-safe base64 alphabet uses.
pub open spec fn is_base64_url_char(c: char) -> bool {
    ('A' <= c && c <= 'Z') || ('a' <= c && c <= 'z') || ('0' <= c && c <= '9') || c == '-'
        || c == '_'
}

/// Whether URL parsing accepts a text as an absolute URL with a host.
pub uninterp spec fn link_parses(s: Seq<char>) -> bool;

/// The host a link names, as URL parsing reads it.
pub uninterp spec fn link_host_of(s: Seq<char>) -> Seq<char>;

/// The decoded query pairs of a link, in order.
pub uninterp spec fn link_query_of(s: Seq<char>) -> Seq<(Seq<char>, Seq<char>)>;

/// Whether the link-shaped pattern the clipboard check uses matches.
pub uninterp spec fn matches_link_pattern(s: Seq<char>) -> bool;

/// Relies on `rand_core::OsRng::fill_bytes`: it fills the whole buffer
/// from the operating system's generator; nothing can be promised of
/// the values.
#[verifier::external_body]
pub(crate) fn random_bytes(byte_length: usize) -> (r: Vec<u8>)
    ensures
        r@.len() == byte_length,
{
    let mut bytes = vec![0u8; byte_length];
    rand_core::OsRng.fill_bytes(&mut bytes);
    bytes
}

/// Relies on `base64::Engine::encode` with the URL-safe no-pad
/// alphabet: the output depends on the input bytes alone, four
/// characters for every three bytes, the remainder unpadded, all from
/// the URL-safe alphabet.
#[verifier::external_body]
pub(crate) fn base64_url_nopad(bytes: &Vec<u8>) -> (r: String)
    ensures
        r@ == base64_url_nopad_of(bytes@),
        r@.len() == (4 * bytes@.len() + 2) / 3,
        forall|i: int| 0 <= i < r@.len() ==> is_base64_url_char(#[trigger] r@[i]),
{
    base64::engine::general_purpose::URL_SAFE_NO_PAD.encode(bytes)
}

/// Relies on `url::Url::parse`, `Url::host_str` and `Url::query_pairs`:
/// whether a text parses as an absolute URL with a host is a function
/// of the text alone, and a parsed URL hands back its host and its
/// decoded query pairs, both functions of the text alone as well.
#[verifier::external_body]
pub(crate) fn parse_link_parts(link: &str) -> (r: Option<(String, Vec<(String, String)>)>)
    ensures
        match r {
            Some(parts) => {
                &&& link_parses(link@)
                &&& parts.0@ == link_host_of(link@)
                &&& parts.1@.map_values(|p: (String, String)| (p.0@, p.1@)) == link_query_of(
                    link@,
                )
            },
            None => !link_parses(link@),
        },
{
    let parsed = match url::Url::parse(link) {
        Ok(u) => u,
        Err(_) => {
            return None;
        },
    };
    let host = match parsed.host_str() {
        Some(h) => h.to_owned(),
        None => {
            return None;
        },
    };
    let pairs = parsed.query_pairs().map(|(k, v)| (k.to_string(), v.to_string())).collect();
    Some((host, pairs))
}

/// Relies on `regex::Regex::is_match` with the fixed link pattern the
/// clipboard check uses: the verdict depends on the text alone.  The
/// pattern is a constant and compiles, so `Regex::new` cannot fail.
#[verifier::external_body]
pub(crate) fn link_regex_is_match(s: &str) -> (r: bool)
    ensures
        r == matches_link_pattern(s@),
{
    let pattern = r"^https?:\/\/(?:www\.)?[-a-zA-Z0-9@:%._\+~#=]{1,256}\.[a-zA-Z0-9()]{1,6}\b(?:[-a-zA-Z0-9()@:%_\+.~#?&\/=]*)$";
    regex::Regex::new(pattern).unwrap().is_match(s)
}

/// A fresh URL-safe token: the base64 encoding of `byte_length` bytes
/// drawn from the system's generator.
pub fn generate_secure_base64_token(byte_length: usize) -> (r: String)
    ensures
        r@.len() == (4 * byte_length + 2) / 3,
        exists|b: Seq<u8>| b.len() == byte_length && r@ == base64_url_nopad_of(b),
        forall|i: int| 0 <= i < r@.len() ==> is_base64_url_char(#[trigger] r@[i]),
{
    let bytes = random_bytes(byte_length);
    let r = base64_url_nopad(&bytes);
    proof {
        assert(bytes@.len() == byte_length && r@ == base64_url_nopad_of(bytes@));
    }
    r
}

} // verus!
