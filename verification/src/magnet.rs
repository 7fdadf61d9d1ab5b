//! Magnet links: telling whether a text is one.

use crate::file::TorrentFile;
use regex::Regex;
use vstd::prelude::*;
use vstd::string::StringExecFns;

verus! {

/// The pattern of a magnet link for a torrent: the scheme, the `btih` topic
/// and at least forty hexadecimal digits.
pub const MAGNET_PATTERN: &'static str = "magnet:\\?xt=urn:btih:[0-9a-fA-F]{40,}.*";

/// Whether the regular expression `pattern` matches somewhere in `text`;
/// `None` where `pattern` is no regular expression.
///
/// The expression is compiled and run by the `regex` crate; this library
/// does not model its syntax.
pub uninterp spec fn regex_is_match(pattern: Seq<char>, text: Seq<char>) -> Option<bool>;

/// Trusted: calls `Regex::new` and `Regex::is_match` of the `regex` crate.
/// The contract names what they return for the texts of `pattern` and
/// `text` and claims no more.
#[verifier::external_body]
pub(crate) fn regex_match(pattern: &str, text: &str) -> (out: Option<bool>)
    ensures
        out == regex_is_match(pattern@, text@),
{
    match Regex::new(pattern) {
        Ok(expression) => Some(expression.is_match(text)),
        Err(_) => None,
    }
}

/// A torrent named by a magnet link.
pub struct Magnet {
    torrent_file: TorrentFile,
}

impl Magnet {
    /// What is made of the result of matching a text against the magnet
    /// pattern: the text is accepted where the pattern matched, else it is
    /// rejected as ill-formed.
    pub fn verdict(matched: Option<bool>) -> (out: Result<String, String>)
        ensures
            out is Ok <==> matched == Some(true),
            out matches Ok(s) ==> s@ == "1"@,
            out matches Err(e) ==> e@ == "link format error"@,
    {
        match matched {
            Some(true) => Ok(String::from_str("1")),
            _ => Err(String::from_str("link format error")),
        }
    }

    /// Tells whether `url` is a magnet link for a torrent.
    pub fn new(url: &str) -> (out: Result<String, String>)
        ensures
            out is Ok <==> regex_is_match(MAGNET_PATTERN@, url@) == Some(true),
            out matches Ok(s) ==> s@ == "1"@,
            out matches Err(e) ==> e@ == "link format error"@,
    {
        Magnet::verdict(regex_match(MAGNET_PATTERN, url))
    }
}

} // verus!
