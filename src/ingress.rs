//! Turning a Push Port frame body into the XML text to decode: the body is
//! gzip-compressed, and namespace prefixes `nsN:` are noise to be removed.

use std::io::Read;
use vstd::prelude::*;

use crate::processor::decimal_u32;
use crate::seq_util::{lemma_split_at_first, lemma_split_at_first_none, split_at_first, split_once_char};

verus! {

/// The UTF-8 text a gzip stream inflates to, if it inflates to text.
pub uninterp spec fn gunzip_text(b: Seq<u8>) -> Option<Seq<char>>;

/// The text with every match of the regular expression removed, if the
/// expression compiles.
pub uninterp spec fn regex_removed(pattern: Seq<char>, text: Seq<char>) -> Option<Seq<char>>;

/// Relies on flate2's GzDecoder read to a string: the text depends on the
/// bytes alone.
#[verifier::external_body]
fn gunzip(body: &[u8]) -> (r: Option<String>)
    ensures
        match r {
            Some(s) => gunzip_text(body@) == Some(s@),
            None => gunzip_text(body@) is None,
        },
{
    let mut text = String::new();
    match flate2::read::GzDecoder::new(body).read_to_string(&mut text) {
        Ok(_) => Some(text),
        Err(_) => None,
    }
}

/// Relies on regex's Regex::new and replace_all with an empty replacement.
#[verifier::external_body]
fn remove_matches(pattern: &str, text: &str) -> (r: Option<String>)
    ensures
        match r {
            Some(s) => regex_removed(pattern@, text@) == Some(s@),
            None => regex_removed(pattern@, text@) is None,
        },
{
    match regex::Regex::new(pattern) {
        Ok(re) => Some(re.replace_all(text, "").into_owned()),
        Err(_) => None,
    }
}

/// A namespace prefix such as `ns5:`.
pub const NAMESPACE_PREFIX: &'static str = "ns\\d+:";

/// The XML text of a frame body: nothing for an empty body or one that does
/// not inflate; else the inflated text without namespace prefixes.
pub open spec fn frame_text(body: Seq<u8>) -> Option<Seq<char>> {
    if body.len() == 0 {
        None
    } else {
        match gunzip_text(body) {
            Some(t) => regex_removed("ns\\d+:"@, t),
            None => None,
        }
    }
}

pub fn decode_frame_text(body: &[u8]) -> (r: Option<String>)
    ensures
        match r {
            Some(s) => frame_text(body@) == Some(s@),
            None => frame_text(body@) is None,
        },
{
    if body.len() == 0 {
        return None;
    }
    match gunzip(body) {
        Some(text) => remove_matches(NAMESPACE_PREFIX, text.as_str()),
        None => None,
    }
}

// ---------------------------------------------------------------------------
// STOMP frame headers.
/// The text without leading and trailing whitespace, as `str::trim` gives it.
pub uninterp spec fn trimmed(s: Seq<char>) -> Seq<char>;

/// The text in lower case, as `str::to_lowercase` gives it.
pub uninterp spec fn lowercased(s: Seq<char>) -> Seq<char>;

/// Relies on str::trim: the result depends on the text alone.
#[verifier::external_body]
fn trim_text(s: &str) -> (r: String)
    ensures
        r@ == trimmed(s@),
{
    s.trim().to_string()
}

/// Relies on str::to_lowercase: the result depends on the text alone.
#[verifier::external_body]
fn lowercase_text(s: &str) -> (r: String)
    ensures
        r@ == lowercased(s@),
{
    s.to_lowercase()
}

/// Whether a line is blank: it ends the headers, and is skipped before a
/// command.
pub fn is_blank(line: &str) -> (r: bool)
    ensures
        r == (trimmed(line@).len() == 0),
{
    let t = trim_text(line);
    t.as_str().is_empty()
}

/// A header line `key:value`: the key trimmed and in lower case, the value
/// trimmed; a line without `:` is no header.
pub open spec fn header_of(line: Seq<char>) -> Option<(Seq<char>, Seq<char>)> {
    match split_at_first(trimmed(line), ':') {
        Some(p) => Some((lowercased(trimmed(p.0)), trimmed(p.1))),
        None => None,
    }
}

pub fn parse_header_line(line: &str) -> (r: Option<(String, String)>)
    ensures
        match r {
            Some(p) => header_of(line@) == Some((p.0@, p.1@)),
            None => header_of(line@) is None,
        },
{
    let t = trim_text(line);
    match split_once_char(t.as_str(), ':') {
        Some(p) => {
            proof {
                lemma_split_at_first(t@, ':', p.0@, p.1@);
            }
            let k = trim_text(p.0.as_str());
            let key = lowercase_text(k.as_str());
            let value = trim_text(p.1.as_str());
            Some((key, value))
        },
        None => {
            proof {
                lemma_split_at_first_none(t@, ':');
            }
            None
        },
    }
}

/// The body length a header announces: the value of `content-length`, when
/// it reads as a number.
pub fn content_length(key: &str, value: &str) -> (r: Option<u32>)
    ensures
        r == if key@ == "content-length"@ {
            decimal_u32(value@)
        } else {
            None
        },
{
    let expected = "content-length".to_owned();
    if key.to_owned() == expected {
        crate::processor::parse_u32(value)
    } else {
        None
    }
}

/// The id a message is acknowledged with: its `ack` header, else its
/// `message-id`.
pub fn ack_id(ack: Option<String>, message_id: Option<String>) -> (r: Option<String>)
    ensures
        r == match ack {
            Some(a) => Some(a),
            None => message_id,
        },
{
    match ack {
        Some(a) => Some(a),
        None => message_id,
    }
}

} // verus!
