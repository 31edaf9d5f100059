//! The frontier: the URLs that wait for a visit. A URL may wait in it more
//! than once; one that has not the syntax of a URL never enters.

use vstd::prelude::*;
use std::collections::VecDeque;
use crate::syntax::{is_valid_url, url_syntax_ok};
use crate::text::{opt_text, texts};

verus! {

/// The queue after `url` was offered to it: at its end, if it is a URL.
pub open spec fn after_push(queue: Seq<Seq<char>>, url: Seq<char>) -> Seq<Seq<char>> {
    if url_syntax_ok(url) {
        queue.push(url)
    } else {
        queue
    }
}

/// The queue after each of `urls` was offered to it in turn.
pub open spec fn after_push_all(queue: Seq<Seq<char>>, urls: Seq<Seq<char>>) -> Seq<Seq<char>> {
    queue + urls.filter(|u: Seq<char>| url_syntax_ok(u))
}

/// The URL that is taken next: the one that has waited longest when the
/// traversal is breadth-first, else the one that came last.
pub open spec fn next_of(queue: Seq<Seq<char>>, is_bfs: bool) -> Option<Seq<char>> {
    if queue.len() == 0 {
        None
    } else if is_bfs {
        Some(queue.first())
    } else {
        Some(queue.last())
    }
}

/// The queue once the next URL is taken from it.
pub open spec fn after_pop(queue: Seq<Seq<char>>, is_bfs: bool) -> Seq<Seq<char>> {
    if queue.len() == 0 {
        queue
    } else if is_bfs {
        queue.drop_first()
    } else {
        queue.drop_last()
    }
}

/// The URLs in the order in which they leave the queue when it is emptied.
pub open spec fn drained(queue: Seq<Seq<char>>, is_bfs: bool) -> Seq<Seq<char>>
    decreases queue.len(),
{
    match next_of(queue, is_bfs) {
        None => Seq::empty(),
        Some(url) => seq![url] + drained(after_pop(queue, is_bfs), is_bfs),
    }
}

/// The queue after the same string was offered to it `times` times.
pub open spec fn after_push_times(queue: Seq<Seq<char>>, url: Seq<char>, times: nat) -> Seq<
    Seq<char>,
>
    decreases times,
{
    if times == 0 {
        queue
    } else {
        after_push_times(after_push(queue, url), url, (times - 1) as nat)
    }
}

/// Offering one more string is offering all of them together.
pub proof fn lemma_push_all_step(queue: Seq<Seq<char>>, urls: Seq<Seq<char>>, url: Seq<char>)
    ensures
        after_push_all(queue, urls.push(url)) == after_push(after_push_all(queue, urls), url),
{
    let keep = |u: Seq<char>| url_syntax_ok(u);
    let all = urls.push(url);
    assert(all.drop_last() == urls);
    assert(all.last() == url);
    reveal(Seq::filter);
    assert(all.filter(keep) == if keep(url) {
        urls.filter(keep).push(url)
    } else {
        urls.filter(keep)
    });
}

/// Breadth-first, the URLs leave in the order in which they came.
pub proof fn lemma_bfs_is_fifo(queue: Seq<Seq<char>>)
    ensures
        drained(queue, true) == queue,
    decreases queue.len(),
{
    if queue.len() > 0 {
        lemma_bfs_is_fifo(queue.drop_first());
        assert(seq![queue.first()] + queue.drop_first() == queue);
    }
}

/// Depth-first, the URLs leave in the reverse of the order in which they
/// came: the most recent first.
pub proof fn lemma_dfs_is_lifo(queue: Seq<Seq<char>>)
    ensures
        drained(queue, false) == queue.reverse(),
    decreases queue.len(),
{
    if queue.len() > 0 {
        lemma_dfs_is_lifo(queue.drop_last());
        assert(seq![queue.last()] + queue.drop_last().reverse() == queue.reverse());
    }
}

/// The order of traversal: of the strings that are offered one after the
/// other to an empty frontier, those that are URLs leave it in the order in
/// which they were offered when the traversal is breadth-first, and in the
/// reverse order when it is depth-first.
pub proof fn lemma_traversal_order(urls: Seq<Seq<char>>)
    ensures
        drained(after_push_all(Seq::empty(), urls), true) == urls.filter(
            |u: Seq<char>| url_syntax_ok(u),
        ),
        drained(after_push_all(Seq::empty(), urls), false) == urls.filter(
            |u: Seq<char>| url_syntax_ok(u),
        ).reverse(),
{
    let accepted = urls.filter(|u: Seq<char>| url_syntax_ok(u));
    assert(Seq::<Seq<char>>::empty() + accepted == accepted);
    lemma_bfs_is_fifo(accepted);
    lemma_dfs_is_lifo(accepted);
}

/// However often a string that is no URL is offered, the frontier stays as
/// it was.
pub proof fn lemma_malformed_is_dropped(queue: Seq<Seq<char>>, url: Seq<char>, times: nat)
    requires
        !url_syntax_ok(url),
    ensures
        after_push_times(queue, url, times) == queue,
    decreases times,
{
    if times > 0 {
        lemma_malformed_is_dropped(queue, url, (times - 1) as nat);
    }
}

/// The URLs that wait for a visit, with the order of traversal that was
/// chosen when the frontier was made.
pub struct Frontier {
    queue: VecDeque<String>,
    is_bfs: bool,
}

impl View for Frontier {
    type V = Seq<Seq<char>>;

    closed spec fn view(&self) -> Seq<Seq<char>> {
        texts(self.queue@)
    }
}

impl Frontier {
    /// Whether the traversal is breadth-first.
    pub closed spec fn bfs(&self) -> bool {
        self.is_bfs
    }

    /// An empty frontier.
    pub fn new(is_bfs: bool) -> (frontier: Frontier)
        ensures
            frontier@ == Seq::<Seq<char>>::empty(),
            frontier.bfs() == is_bfs,
    {
        Frontier { queue: VecDeque::new(), is_bfs }
    }

    /// Whether the traversal is breadth-first.
    pub fn is_bfs(&self) -> (is_bfs: bool)
        ensures
            is_bfs == self.bfs(),
    {
        self.is_bfs
    }

    /// The number of URLs that wait.
    pub fn len(&self) -> (len: usize)
        ensures
            len == self@.len(),
    {
        self.queue.len()
    }

    /// Whether no URL waits.
    pub fn is_empty(&self) -> (empty: bool)
        ensures
            empty == (self@.len() == 0),
    {
        self.queue.len() == 0
    }

    /// Offers a string to the frontier, which takes it in if it has the
    /// syntax of a URL and drops it otherwise. Says whether it was taken.
    pub fn push(&mut self, url: String) -> (taken: bool)
        ensures
            taken == url_syntax_ok(url@),
            final(self)@ == after_push(old(self)@, url@),
            final(self).bfs() == old(self).bfs(),
    {
        if is_valid_url(url.as_str()) {
            self.queue.push_back(url);
            assert(texts(self.queue@) == texts(old(self).queue@).push(url@));
            true
        } else {
            false
        }
    }

    /// Takes the next URL from the frontier, if one waits.
    pub fn pop(&mut self) -> (url: Option<String>)
        ensures
            opt_text(url) == next_of(old(self)@, old(self).bfs()),
            final(self)@ == after_pop(old(self)@, old(self).bfs()),
            final(self).bfs() == old(self).bfs(),
    {
        let url: Option<String> = if self.is_bfs {
            self.queue.pop_front()
        } else {
            self.queue.pop_back()
        };
        proof {
            if old(self).queue@.len() > 0 {
                if self.is_bfs {
                    assert(texts(self.queue@) == texts(old(self).queue@).drop_first());
                } else {
                    assert(texts(self.queue@) == texts(old(self).queue@).drop_last());
                }
            }
        }
        url
    }
}

} // verus!
