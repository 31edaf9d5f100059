//! The visit registry: how often each URL was taken from the frontier, and
//! the claim that grants a URL to its first visitor.

use vstd::prelude::*;
use dashmap::DashMap;
use std::collections::hash_map::RandomState;
use crate::visit_count::VisitCount;

verus! {

/// `dashmap::DashMap`, as a type of which nothing is known but what the
/// wrappers below say of [`dashmap_counts`].
#[verifier::external_type_specification]
#[verifier::external_body]
#[verifier::reject_recursive_types(K)]
#[verifier::reject_recursive_types(V)]
#[verifier::reject_recursive_types(S)]
pub struct ExDashMap<K, V, S>(DashMap<K, V, S>);

/// What a map of counts holds: the text of each key with the number that its
/// count denotes. The library changes such a map through `&mut` alone, so
/// that what it holds changes only where a contract says so.
pub uninterp spec fn dashmap_counts(table: DashMap<String, VisitCount, RandomState>) -> Map<
    Seq<char>,
    nat,
>;

/// `dashmap::DashMap::new`. Not proved: that the new map holds nothing.
#[verifier::external_body]
fn counts_new() -> (table: DashMap<String, VisitCount, RandomState>)
    ensures
        dashmap_counts(table).dom() == Set::<Seq<char>>::empty(),
{
    DashMap::new()
}

/// `dashmap::DashMap::contains_key`. Not proved: that it says whether the
/// map holds the key.
#[verifier::external_body]
fn counts_contains(table: &DashMap<String, VisitCount, RandomState>, key: &str) -> (found: bool)
    ensures
        found == dashmap_counts(*table).dom().contains(key@),
{
    table.contains_key(key)
}

/// `dashmap::DashMap::entry`, then `Entry::and_modify` with
/// [`VisitCount::increment`], then `Entry::or_insert` with `first`; hands out
/// a copy of the count that the entry then holds. Not proved: that a count
/// which the map held for the key was incremented in place, that `first` was
/// stored where it held none, and that no other entry changed.
#[verifier::external_body]
fn counts_bump(
    table: &mut DashMap<String, VisitCount, RandomState>,
    key: String,
    first: VisitCount,
) -> (now: VisitCount)
    ensures
        dashmap_counts(*final(table)) == dashmap_counts(*old(table)).insert(key@, now@),
        now@ == (if dashmap_counts(*old(table)).dom().contains(key@) {
            dashmap_counts(*old(table))[key@] + 1
        } else {
            first@
        }),
{
    table.entry(key).and_modify(|count| count.increment()).or_insert(first).value().clone()
}

/// `dashmap::DashMap::iter`, handing out a copy of each entry. Not proved:
/// that every entry of the map is handed out once, in whatever order.
#[verifier::external_body]
fn counts_entries(table: &DashMap<String, VisitCount, RandomState>) -> (entries: Vec<
    (String, VisitCount),
>)
    ensures
        forall|i: int|
            0 <= i < entries@.len() ==> dashmap_counts(*table).dom().contains(
                (#[trigger] entries@[i]).0@,
            ) && dashmap_counts(*table)[entries@[i].0@] == entries@[i].1@,
        forall|key: Seq<char>|
            dashmap_counts(*table).dom().contains(key) ==> exists|i: int|
                0 <= i < entries@.len() && (#[trigger] entries@[i]).0@ == key,
        forall|i: int, j: int|
            0 <= i < j < entries@.len() ==> (#[trigger] entries@[i]).0@ != (
            #[trigger] entries@[j]).0@,
{
    table.iter().map(|entry| (entry.key().clone(), entry.value().clone())).collect()
}

/// How often a URL was visited: zero where the registry does not hold it.
pub open spec fn visits(counts: Map<Seq<char>, nat>, url: Seq<char>) -> nat {
    if counts.dom().contains(url) {
        counts[url]
    } else {
        0
    }
}

/// The registry after one more visit of `url` was counted.
pub open spec fn after_claim(counts: Map<Seq<char>, nat>, url: Seq<char>) -> Map<Seq<char>, nat> {
    counts.insert(url, visits(counts, url) + 1)
}

/// Whether a claim of `url` is the first: the one that takes its count from
/// zero to one.
pub open spec fn is_first_claim(counts: Map<Seq<char>, nat>, url: Seq<char>) -> bool {
    visits(counts, url) == 0
}

/// Every URL that the registry holds was visited at least once.
pub open spec fn counts_wf(counts: Map<Seq<char>, nat>) -> bool {
    forall|url: Seq<char>| counts.dom().contains(url) ==> #[trigger] counts[url] >= 1
}

/// The registry after the URLs were claimed one after the other.
pub open spec fn after_claims(counts: Map<Seq<char>, nat>, urls: Seq<Seq<char>>) -> Map<
    Seq<char>,
    nat,
>
    decreases urls.len(),
{
    if urls.len() == 0 {
        counts
    } else {
        after_claims(after_claim(counts, urls.first()), urls.drop_first())
    }
}

/// How many of the claims of `urls`, made one after the other, were a first
/// claim of `url`.
pub open spec fn first_claims(counts: Map<Seq<char>, nat>, urls: Seq<Seq<char>>, url: Seq<char>) -> nat
    decreases urls.len(),
{
    if urls.len() == 0 {
        0
    } else {
        let here: nat = if urls.first() == url && is_first_claim(counts, url) {
            1
        } else {
            0
        };
        here + first_claims(after_claim(counts, urls.first()), urls.drop_first(), url)
    }
}

/// How often `url` occurs among `urls`.
pub open spec fn occurrences(urls: Seq<Seq<char>>, url: Seq<char>) -> nat
    decreases urls.len(),
{
    if urls.len() == 0 {
        0
    } else {
        let here: nat = if urls.first() == url {
            1
        } else {
            0
        };
        here + occurrences(urls.drop_first(), url)
    }
}

/// A claim keeps the registry well-formed and leaves the URL in it.
pub proof fn lemma_claim_keeps_wf(counts: Map<Seq<char>, nat>, url: Seq<char>)
    requires
        counts_wf(counts),
    ensures
        counts_wf(after_claim(counts, url)),
        after_claim(counts, url).dom().contains(url),
        is_first_claim(counts, url) <==> !counts.dom().contains(url),
{
}

/// Exactly once: in whatever order claims are made, each claim of a URL
/// counts one visit of it, and of all the claims of a URL that the registry
/// did not hold, one and only one is the first.
pub proof fn lemma_claim_exactly_once(
    counts: Map<Seq<char>, nat>,
    urls: Seq<Seq<char>>,
    url: Seq<char>,
)
    ensures
        visits(after_claims(counts, urls), url) == visits(counts, url) + occurrences(urls, url),
        first_claims(counts, urls, url) == (if visits(counts, url) == 0 && occurrences(urls, url)
            > 0 {
            1nat
        } else {
            0nat
        }),
    decreases urls.len(),
{
    if urls.len() > 0 {
        lemma_claim_exactly_once(after_claim(counts, urls.first()), urls.drop_first(), url);
    }
}

/// The visit counts of a crawl.
pub struct VisitRegistry {
    visited: DashMap<String, VisitCount, RandomState>,
}

impl View for VisitRegistry {
    type V = Map<Seq<char>, nat>;

    closed spec fn view(&self) -> Map<Seq<char>, nat> {
        dashmap_counts(self.visited)
    }
}

impl VisitRegistry {
    /// A registry that holds no URL.
    pub fn new() -> (registry: VisitRegistry)
        ensures
            registry@ == Map::<Seq<char>, nat>::empty(),
            counts_wf(registry@),
    {
        VisitRegistry { visited: counts_new() }
    }

    /// Counts one more visit of `url`, and says whether it is the first.
    pub fn claim(&mut self, url: String) -> (first: bool)
        ensures
            final(self)@ == after_claim(old(self)@, url@),
            first == is_first_claim(old(self)@, url@),
    {
        let now: VisitCount = counts_bump(&mut self.visited, url, VisitCount::one());
        now.is_one()
    }

    /// Whether `url` was claimed before.
    pub fn contains(&self, url: &str) -> (found: bool)
        ensures
            found == self@.dom().contains(url@),
    {
        counts_contains(&self.visited, url)
    }

    /// The URLs of the registry with their counts, each once, in no
    /// particular order.
    pub fn snapshot(&self) -> (entries: Vec<(String, VisitCount)>)
        ensures
            forall|i: int|
                0 <= i < entries@.len() ==> self@.dom().contains((#[trigger] entries@[i]).0@)
                    && self@[entries@[i].0@] == entries@[i].1@,
            forall|url: Seq<char>|
                self@.dom().contains(url) ==> exists|i: int|
                    0 <= i < entries@.len() && (#[trigger] entries@[i]).0@ == url,
            forall|i: int, j: int|
                0 <= i < j < entries@.len() ==> (#[trigger] entries@[i]).0@ != (
                #[trigger] entries@[j]).0@,
    {
        counts_entries(&self.visited)
    }
}

} // verus!
