//! The name under which a fetched page is stored: the URL without its
//! protocol, with every path separator replaced, cut to a fixed length.

use vstd::prelude::*;
use vstd::string::StringExecFns;
use crate::syntax::{find_protocol, protocol_in};
use crate::text::chars_of;

verus! {

/// The greatest number of characters that a name keeps of its URL.
pub const MAX_STEM: usize = 200;

/// The text without the copies of `prefix` that it starts with.
pub open spec fn strip_leading(text: Seq<char>, prefix: Seq<char>) -> Seq<char>
    decreases text.len(),
{
    if prefix.len() > 0 && prefix.is_prefix_of(text) {
        strip_leading(text.skip(prefix.len() as int), prefix)
    } else {
        text
    }
}

/// The character that stands for `c` in a name.
pub open spec fn dash(c: char) -> char {
    if c == '/' {
        '-'
    } else {
        c
    }
}

/// The text with a dash in place of every path separator.
pub open spec fn dashed(text: Seq<char>) -> Seq<char> {
    text.map_values(|c: char| dash(c))
}

/// What a name keeps of its URL: the protocol stripped, the separators
/// replaced, and of that the first [`MAX_STEM`] characters.
pub open spec fn stem_of(url: Seq<char>, protocol: Option<Seq<char>>) -> Seq<char> {
    let rest = match protocol {
        Some(p) => strip_leading(url, p),
        None => url,
    };
    if rest.len() > MAX_STEM {
        dashed(rest).take(MAX_STEM as int)
    } else {
        dashed(rest)
    }
}

/// The name of the artifact that holds the page of `url`.
pub open spec fn artifact_name_of(url: Seq<char>, protocol: Option<Seq<char>>) -> Seq<char> {
    stem_of(url, protocol) + ".html"@
}

/// The view of an optional string.
pub open spec fn text_of(s: Option<&str>) -> Option<Seq<char>> {
    match s {
        Some(t) => Some(t@),
        None => None,
    }
}

/// A name's stem holds no path separator and is never longer than
/// [`MAX_STEM`].
pub proof fn lemma_stem_is_safe(url: Seq<char>, protocol: Option<Seq<char>>)
    ensures
        stem_of(url, protocol).len() <= MAX_STEM,
        forall|i: int| 0 <= i < stem_of(url, protocol).len() ==> stem_of(url, protocol)[i] != '/',
{
}

/// Whether `prefix` stands in `text` at position `at`.
fn stands_at(text: &Vec<char>, prefix: &Vec<char>, at: usize) -> (found: bool)
    requires
        at <= text@.len(),
    ensures
        found == prefix@.is_prefix_of(text@.skip(at as int)),
{
    let n: usize = text.len();
    let m: usize = prefix.len();
    if m > n - at {
        return false;
    }
    let rest = Ghost(text@.skip(at as int));
    let mut i: usize = 0;
    while i < m
        invariant
            i <= m,
            m == prefix@.len(),
            n == text@.len(),
            at + m <= n,
            rest@ == text@.skip(at as int),
            forall|j: int| 0 <= j < i ==> prefix@[j] == text@[at + j],
        decreases m - i,
    {
        if prefix[i] != text[at + i] {
            assert(rest@.subrange(0, m as int)[i as int] == text@[at + i]);
            return false;
        }
        i += 1;
    }
    assert(prefix@ =~= rest@.subrange(0, m as int));
    true
}

/// Where the text begins once the copies of `prefix` in front of it are
/// passed over.
fn leading_end(text: &Vec<char>, prefix: &Vec<char>) -> (at: usize)
    ensures
        at <= text@.len(),
        strip_leading(text@, prefix@) == text@.skip(at as int),
{
    let n: usize = text.len();
    let m: usize = prefix.len();
    let mut at: usize = 0;
    assert(text@.skip(0) == text@);
    if m == 0 {
        return 0;
    }
    while stands_at(text, prefix, at)
        invariant
            n == text@.len(),
            m == prefix@.len(),
            m > 0,
            at <= n,
            strip_leading(text@, prefix@) == strip_leading(text@.skip(at as int), prefix@),
        decreases n - at,
    {
        assert(m <= text@.skip(at as int).len());
        assert(text@.skip(at as int).skip(m as int) == text@.skip(at + m));
        at += m;
    }
    at
}

/// Builds the artifact's name for a URL whose protocol has been found.
pub fn artifact_name_from(url: &str, protocol: Option<&str>) -> (name: String)
    ensures
        name@ == artifact_name_of(url@, text_of(protocol)),
{
    let text: Vec<char> = chars_of(url);
    let start: usize = match protocol {
        Some(p) => {
            let prefix: Vec<char> = chars_of(p);
            leading_end(&text, &prefix)
        },
        None => {
            assert(text@.skip(0) == text@);
            0
        },
    };
    let n: usize = text.len();
    let rest = Ghost(text@.skip(start as int));
    let end: usize = if n - start > MAX_STEM {
        start + MAX_STEM
    } else {
        n
    };
    let mut name: String = String::new();
    let mut i: usize = start;
    while i < end
        invariant
            start <= i <= end <= n,
            n == text@.len(),
            rest@ == text@.skip(start as int),
            name@ == dashed(rest@).take(i - start),
        decreases end - i,
    {
        let c: char = text[i];
        let d: char = if c == '/' {
            '-'
        } else {
            c
        };
        assert(dashed(rest@).take(i - start + 1) == dashed(rest@).take(i - start).push(d));
        name.push(d);
        i += 1;
    }
    assert(dashed(rest@).take(rest@.len() as int) == dashed(rest@));
    name.append(".html");
    name
}

/// Builds the name of the artifact that holds the page of `url`.
pub fn artifact_name(url: &str) -> (name: String)
    ensures
        name@ == artifact_name_of(url@, protocol_in(url@)),
{
    match find_protocol(url) {
        Some(p) => artifact_name_from(url, Some(p.as_str())),
        None => artifact_name_from(url, None),
    }
}

} // verus!
