//! URL syntax: which strings the frontier accepts, where a URL's protocol
//! ends and which links a page holds. The patterns are regular expressions;
//! searching for them is the `regex` crate's work.

use vstd::prelude::*;
use crate::text::{opt_text, texts};

verus! {

/// The pattern of a URL that the crawl follows.
pub const URL_PATTERN: &'static str =
    r"http[s]?:\/\/.(?:www\.)?[-a-zA-Z0-9@%._\+~#=]{2,256}\.[a-z]{2,6}\b(?:[-a-zA-Z0-9@:%_\+.~\/\/]*)";

/// The pattern of the protocol in front of a URL.
pub const PROTOCOL_PATTERN: &'static str = r"https?:\/\/";

/// Whether the regular expression `pattern` matches anywhere in `text`;
/// `None` where `pattern` is no regular expression that `regex` compiles.
pub uninterp spec fn regex_is_match(pattern: Seq<char>, text: Seq<char>) -> Option<bool>;

/// The leftmost match of the regular expression `pattern` in `text`; `None`
/// where there is none or `pattern` does not compile.
pub uninterp spec fn regex_find(pattern: Seq<char>, text: Seq<char>) -> Option<Seq<char>>;

/// The successive non-overlapping matches of the regular expression
/// `pattern` in `text`, from left to right; empty where `pattern` does not
/// compile.
pub uninterp spec fn regex_find_iter(pattern: Seq<char>, text: Seq<char>) -> Seq<Seq<char>>;

/// `regex::Regex::is_match`, on the expression compiled from `pattern` by
/// `regex::Regex::new`. Not proved: that the answer is the one named by
/// [`regex_is_match`], which is to say that it depends on the two texts alone.
#[verifier::external_body]
fn search(pattern: &str, text: &str) -> (found: Option<bool>)
    ensures
        found == regex_is_match(pattern@, text@),
{
    match regex::Regex::new(pattern) {
        Ok(re) => Some(re.is_match(text)),
        Err(_) => None,
    }
}

/// `regex::Regex::find`, on the expression compiled from `pattern`, handing
/// out the matched part of `text`. Not proved: that the answer is the one
/// named by [`regex_find`].
#[verifier::external_body]
fn first_match(pattern: &str, text: &str) -> (found: Option<String>)
    ensures
        opt_text(found) == regex_find(pattern@, text@),
{
    match regex::Regex::new(pattern) {
        Ok(re) => re.find(text).map(|m| m.as_str().to_string()),
        Err(_) => None,
    }
}

/// `regex::Regex::find_iter`, on the expression compiled from `pattern`,
/// handing out the matched parts of `text` in the order found. Not proved:
/// that the answer is the one named by [`regex_find_iter`].
#[verifier::external_body]
fn all_matches(pattern: &str, text: &str) -> (found: Vec<String>)
    ensures
        texts(found@) == regex_find_iter(pattern@, text@),
{
    match regex::Regex::new(pattern) {
        Ok(re) => re.find_iter(text).map(|m| m.as_str().to_string()).collect(),
        Err(_) => Vec::new(),
    }
}

/// Whether a string has the syntax of a URL.
pub open spec fn url_syntax_ok(url: Seq<char>) -> bool {
    regex_is_match(URL_PATTERN@, url) == Some(true)
}

/// The protocol in a URL, where it has one.
pub open spec fn protocol_in(url: Seq<char>) -> Option<Seq<char>> {
    regex_find(PROTOCOL_PATTERN@, url)
}

/// The links in a page's text, in the order in which they occur.
pub open spec fn links_in(body: Seq<char>) -> Seq<Seq<char>> {
    regex_find_iter(URL_PATTERN@, body)
}

/// Tests a string for the syntax of a URL.
pub fn is_valid_url(url: &str) -> (ok: bool)
    ensures
        ok == url_syntax_ok(url@),
{
    match search(URL_PATTERN, url) {
        Some(found) => found,
        None => false,
    }
}

/// Finds the protocol in a URL.
pub fn find_protocol(url: &str) -> (protocol: Option<String>)
    ensures
        opt_text(protocol) == protocol_in(url@),
{
    first_match(PROTOCOL_PATTERN, url)
}

/// Extracts the links from a page's text.
pub fn extract_links(body: &str) -> (links: Vec<String>)
    ensures
        texts(links@) == links_in(body@),
{
    all_matches(URL_PATTERN, body)
}

} // verus!
