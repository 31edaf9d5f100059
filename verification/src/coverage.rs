//! No work is lost: when a crawl ends because every worker has finished,
//! every URL that can be reached from the seed was visited.

use vstd::prelude::*;
use crate::crawl::{step_of, visit_done, StepView};
use crate::frontier::{after_pop, next_of};
use crate::pool::{
    after_step, after_visit, lemma_finished_is_quiet, lemma_start_is_wf, lemma_step_keeps_wf,
    lemma_visit_keeps_wf, pool_at_start, pool_finished, pool_wf, step_at, visits_at, PoolView,
};
use crate::registry::visits;
use crate::syntax::url_syntax_ok;

verus! {

/// What happens to a pool: a worker takes a turn through its loop, or a
/// worker ends its visit with the links of the page that it fetched.
pub enum Event {
    /// Worker number `0` takes a turn.
    Turn(nat),
    /// Worker number `0` ends its visit with the links `1`.
    Links(nat, Seq<Seq<char>>),
}

/// The pool after an event.
pub open spec fn after_event(pool: PoolView, event: Event) -> PoolView {
    match event {
        Event::Turn(id) => after_step(pool, id),
        Event::Links(id, links) => after_visit(pool, id, links),
    }
}

/// The pool after a series of events.
pub open spec fn after_events(pool: PoolView, events: Seq<Event>) -> PoolView
    decreases events.len(),
{
    if events.len() == 0 {
        pool
    } else {
        after_event(after_events(pool, events.drop_last()), events.last())
    }
}

/// The links that the page of `url` holds: what the web gives for it, and
/// nothing where the page cannot be had.
pub open spec fn links_of(web: Map<Seq<char>, Seq<Seq<char>>>, url: Seq<char>) -> Seq<Seq<char>> {
    if web.dom().contains(url) {
        web[url]
    } else {
        Seq::empty()
    }
}

/// Whether a turn of worker number `id` is what the web allows: the worker
/// gives up a visit only of a page that has no links to hand over.
pub open spec fn turn_follows(pool: PoolView, id: nat, web: Map<Seq<char>, Seq<Seq<char>>>) -> bool {
    forall|url: Seq<char>| #[trigger]
        visits_at(pool, id as int, url) ==> links_of(web, url).len() == 0
}

/// Whether the end of a visit of worker number `id` is what the web allows:
/// the worker hands over the links of the page that it visits.
pub open spec fn links_follow(
    pool: PoolView,
    id: nat,
    links: Seq<Seq<char>>,
    web: Map<Seq<char>, Seq<Seq<char>>>,
) -> bool {
    forall|url: Seq<char>| #[trigger] visits_at(pool, id as int, url) ==> links == links_of(web, url)
}

/// Whether an event is what the web allows.
pub open spec fn event_follows(
    pool: PoolView,
    event: Event,
    web: Map<Seq<char>, Seq<Seq<char>>>,
) -> bool {
    match event {
        Event::Turn(id) => turn_follows(pool, id, web),
        Event::Links(id, links) => links_follow(pool, id, links, web),
    }
}

/// Whether each event of a series is what the web allows, in the pool that
/// the events before it have made.
pub open spec fn events_follow(
    pool: PoolView,
    events: Seq<Event>,
    web: Map<Seq<char>, Seq<Seq<char>>>,
) -> bool
    decreases events.len(),
{
    if events.len() == 0 {
        true
    } else {
        &&& events_follow(pool, events.drop_last(), web)
        &&& event_follows(after_events(pool, events.drop_last()), events.last(), web)
    }
}

/// Whether `path` leads from page to page over links that are URLs.
pub open spec fn is_path(web: Map<Seq<char>, Seq<Seq<char>>>, path: Seq<Seq<char>>) -> bool {
    &&& path.len() >= 1
    &&& forall|i: int|
        0 <= i < path.len() - 1 ==> links_of(web, #[trigger] path[i]).contains(path[i + 1])
            && url_syntax_ok(path[i + 1])
}

/// Whether `url` can be reached from `seed`.
pub open spec fn reachable(
    web: Map<Seq<char>, Seq<Seq<char>>>,
    seed: Seq<char>,
    url: Seq<char>,
) -> bool {
    exists|path: Seq<Seq<char>>| #[trigger]
        is_path(web, path) && path.first() == seed && path.last() == url
}

/// Whether the crawl knows of `url`: it was visited or it waits for a visit.
pub open spec fn covered(pool: PoolView, url: Seq<char>) -> bool {
    pool.crawl.counts.dom().contains(url) || pool.crawl.frontier.contains(url)
}

/// Whether the crawl knows of every link of the page of `url` that is a URL.
pub open spec fn settled(pool: PoolView, web: Map<Seq<char>, Seq<Seq<char>>>, url: Seq<char>) -> bool {
    forall|i: int|
        0 <= i < links_of(web, url).len() && url_syntax_ok(#[trigger] links_of(web, url)[i])
            ==> covered(pool, links_of(web, url)[i])
}

/// Whether some worker fetches the page of `url`.
pub open spec fn in_flight(pool: PoolView, url: Seq<char>) -> bool {
    exists|id: int| visits_at(pool, id, url)
}

/// What a crawl keeps at every moment: it knows of the seed, and of every
/// URL that was visited either the page is still being fetched or the crawl
/// knows of all its links.
pub open spec fn crawl_closed(
    pool: PoolView,
    web: Map<Seq<char>, Seq<Seq<char>>>,
    seed: Seq<char>,
) -> bool {
    &&& covered(pool, seed)
    &&& forall|url: Seq<char>| #[trigger]
        pool.crawl.counts.dom().contains(url) ==> in_flight(pool, url) || settled(pool, web, url)
}

/// A URL that waits in the frontier still waits after the next one was
/// taken, unless it was the one.
pub proof fn lemma_pop_keeps(queue: Seq<Seq<char>>, is_bfs: bool, url: Seq<char>)
    requires
        queue.contains(url),
    ensures
        after_pop(queue, is_bfs).contains(url) || next_of(queue, is_bfs) == Some(url),
{
    let at = choose|i: int| 0 <= i < queue.len() && queue[i] == url;
    if is_bfs {
        if at > 0 {
            assert(queue.drop_first()[at - 1] == url);
        }
    } else {
        if at < queue.len() - 1 {
            assert(queue.drop_last()[at] == url);
        }
    }
}

/// A worker's turn keeps what the crawl knows of: a URL that leaves the
/// frontier enters the registry.
proof fn lemma_step_keeps_covered(pool: PoolView, id: nat, url: Seq<char>)
    requires
        covered(pool, url),
    ensures
        covered(after_step(pool, id), url),
{
    if pool.crawl.frontier.contains(url) {
        lemma_pop_keeps(pool.crawl.frontier, pool.crawl.is_bfs, url);
    }
}

/// The end of a visit keeps what the crawl knows of.
proof fn lemma_visit_keeps_covered(pool: PoolView, id: nat, links: Seq<Seq<char>>, url: Seq<char>)
    requires
        covered(pool, url),
    ensures
        covered(after_visit(pool, id, links), url),
{
    if pool.crawl.frontier.contains(url) {
        let at = choose|i: int| 0 <= i < pool.crawl.frontier.len() && pool.crawl.frontier[i] == url;
        let after = after_visit(pool, id, links);
        assert(after.crawl.frontier[at] == url);
    }
}

/// An event that the web allows keeps the crawl closed.
pub proof fn lemma_event_keeps_closed(
    pool: PoolView,
    event: Event,
    web: Map<Seq<char>, Seq<Seq<char>>>,
    seed: Seq<char>,
)
    requires
        pool_wf(pool),
        crawl_closed(pool, web, seed),
        event_follows(pool, event, web),
    ensures
        pool_wf(after_event(pool, event)),
        crawl_closed(after_event(pool, event), web, seed),
{
    let after = after_event(pool, event);
    match event {
        Event::Turn(id) => {
            lemma_step_keeps_wf(pool, id);
            lemma_step_keeps_covered(pool, id, seed);
            assert forall|url: Seq<char>| #[trigger]
                after.crawl.counts.dom().contains(url) implies in_flight(after, url) || settled(
                after,
                web,
                url,
            ) by {
                lemma_turn_settles(pool, id, web, url);
            }
        },
        Event::Links(id, links) => {
            lemma_visit_keeps_wf(pool, id, links);
            lemma_visit_keeps_covered(pool, id, links, seed);
            assert forall|url: Seq<char>| #[trigger]
                after.crawl.counts.dom().contains(url) implies in_flight(after, url) || settled(
                after,
                web,
                url,
            ) by {
                lemma_links_settle(pool, id, links, web, url);
            }
        },
    }
}

/// After a worker's turn, each visited URL is in flight or settled.
proof fn lemma_turn_settles(
    pool: PoolView,
    id: nat,
    web: Map<Seq<char>, Seq<Seq<char>>>,
    url: Seq<char>,
)
    requires
        pool_wf(pool),
        forall|u: Seq<char>| #[trigger]
            pool.crawl.counts.dom().contains(u) ==> in_flight(pool, u) || settled(pool, web, u),
        turn_follows(pool, id, web),
        after_step(pool, id).crawl.counts.dom().contains(url),
    ensures
        in_flight(after_step(pool, id), url) || settled(after_step(pool, id), web, url),
{
    let after = after_step(pool, id);
    if id < pool.workers.len() {
        let worker = pool.workers[id as int];
        let stepped = step_of(worker, pool.crawl);
        assert(after.workers[id as int] == stepped.worker);
        if pool.crawl.counts.dom().contains(url) {
            if in_flight(pool, url) {
                let other = choose|other: int| visits_at(pool, other, url);
                if other != id {
                    assert(after.workers[other] == pool.workers[other]);
                    assert(visits_at(after, other, url));
                } else if worker.phase is Done {
                    assert(visits_at(after, other, url));
                } else {
                    assert(visits_at(pool, id as int, url));
                    assert(links_of(web, url).len() == 0);
                    assert(settled(after, web, url));
                }
            } else {
                assert(settled(pool, web, url));
                assert forall|i: int|
                    0 <= i < links_of(web, url).len() && url_syntax_ok(
                        #[trigger] links_of(web, url)[i],
                    ) implies covered(after, links_of(web, url)[i]) by {
                    lemma_step_keeps_covered(pool, id, links_of(web, url)[i]);
                }
            }
        } else {
            assert(stepped.step == StepView::Visit(url));
            assert(visits_at(after, id as int, url));
        }
    }
}

/// After the end of a visit, each visited URL is in flight or settled.
proof fn lemma_links_settle(
    pool: PoolView,
    id: nat,
    links: Seq<Seq<char>>,
    web: Map<Seq<char>, Seq<Seq<char>>>,
    url: Seq<char>,
)
    requires
        pool_wf(pool),
        forall|u: Seq<char>| #[trigger]
            pool.crawl.counts.dom().contains(u) ==> in_flight(pool, u) || settled(pool, web, u),
        links_follow(pool, id, links, web),
        after_visit(pool, id, links).crawl.counts.dom().contains(url),
    ensures
        in_flight(after_visit(pool, id, links), url) || settled(
            after_visit(pool, id, links),
            web,
            url,
        ),
{
    let after = after_visit(pool, id, links);
    if id < pool.workers.len() {
        let worker = pool.workers[id as int];
        let done = visit_done(worker, pool.crawl, links);
        assert(after.workers[id as int] == done.0);
        assert(pool.crawl.counts.dom().contains(url));
        if in_flight(pool, url) && !(visits_at(pool, id as int, url)) {
            let other = choose|other: int| visits_at(pool, other, url);
            assert(after.workers[other] == pool.workers[other]);
            assert(visits_at(after, other, url));
        } else if visits_at(pool, id as int, url) {
            assert(links == links_of(web, url));
            let wanted = |link: Seq<char>| pool.crawl.wants(link);
            assert forall|i: int|
                0 <= i < links_of(web, url).len() && url_syntax_ok(
                    #[trigger] links_of(web, url)[i],
                ) implies covered(after, links_of(web, url)[i]) by {
                let link = links[i];
                if !pool.crawl.counts.dom().contains(link) {
                    assert(wanted(link));
                    links.lemma_filter_contains(wanted, i);
                    assert(links.filter(wanted).contains(link));
                    let at = choose|j: int|
                        0 <= j < links.filter(wanted).len() && links.filter(wanted)[j] == link;
                    assert(after.crawl.frontier[pool.crawl.frontier.len() + at] == link);
                }
            }
        } else {
            assert(settled(pool, web, url));
            assert forall|i: int|
                0 <= i < links_of(web, url).len() && url_syntax_ok(
                    #[trigger] links_of(web, url)[i],
                ) implies covered(after, links_of(web, url)[i]) by {
                lemma_visit_keeps_covered(pool, id, links, links_of(web, url)[i]);
            }
        }
    }
}

/// A series of events that the web allows keeps the crawl closed.
pub proof fn lemma_events_keep_closed(
    pool: PoolView,
    events: Seq<Event>,
    web: Map<Seq<char>, Seq<Seq<char>>>,
    seed: Seq<char>,
)
    requires
        pool_wf(pool),
        crawl_closed(pool, web, seed),
        events_follow(pool, events, web),
    ensures
        pool_wf(after_events(pool, events)),
        crawl_closed(after_events(pool, events), web, seed),
    decreases events.len(),
{
    if events.len() > 0 {
        lemma_events_keep_closed(pool, events.drop_last(), web, seed);
        lemma_event_keeps_closed(
            after_events(pool, events.drop_last()),
            events.last(),
            web,
            seed,
        );
    }
}

/// In a closed crawl that has ended, every page on a path from the seed was
/// visited.
proof fn lemma_path_is_visited(
    pool: PoolView,
    web: Map<Seq<char>, Seq<Seq<char>>>,
    seed: Seq<char>,
    path: Seq<Seq<char>>,
)
    requires
        pool_wf(pool),
        pool_finished(pool),
        pool.workers.len() >= 1,
        crawl_closed(pool, web, seed),
        is_path(web, path),
        path.first() == seed,
    ensures
        pool.crawl.counts.dom().contains(path.last()),
    decreases path.len(),
{
    lemma_finished_is_quiet(pool);
    if path.len() == 1 {
        assert(covered(pool, seed));
    } else {
        let front = path.drop_last();
        assert(is_path(web, front)) by {
            assert forall|i: int| 0 <= i < front.len() - 1 implies links_of(
                web,
                #[trigger] front[i],
            ).contains(front[i + 1]) && url_syntax_ok(front[i + 1]) by {
                assert(front[i] == path[i]);
                assert(front[i + 1] == path[i + 1]);
            }
        }
        lemma_path_is_visited(pool, web, seed, front);
        let from = front.last();
        let to = path.last();
        assert(from == path[path.len() - 2]);
        assert(links_of(web, path[path.len() - 2]).contains(path[path.len() - 2 + 1]));
        assert(pool.crawl.counts.dom().contains(from));
        assert(!in_flight(pool, from));
        assert(settled(pool, web, from));
        let at = choose|i: int| 0 <= i < links_of(web, from).len() && links_of(web, from)[i] == to;
        assert(url_syntax_ok(links_of(web, from)[at]));
        assert(covered(pool, to));
    }
}

/// No work is lost. Take a pool of at least one worker at its start, and any
/// series of turns and ended visits in which each visit ends with the links
/// of its page. If after it every worker has finished, every URL that can be
/// reached from the seed is in the registry with a count of at least one.
pub proof fn lemma_no_lost_work(
    workers: nat,
    is_bfs: bool,
    seed: Seq<char>,
    web: Map<Seq<char>, Seq<Seq<char>>>,
    events: Seq<Event>,
    url: Seq<char>,
)
    requires
        workers >= 1,
        events_follow(pool_at_start(workers, is_bfs, seed), events, web),
        pool_finished(after_events(pool_at_start(workers, is_bfs, seed), events)),
        reachable(web, seed, url),
    ensures
        visits(after_events(pool_at_start(workers, is_bfs, seed), events).crawl.counts, url) >= 1,
{
    let start = pool_at_start(workers, is_bfs, seed);
    lemma_start_is_wf(workers, is_bfs, seed);
    assert(start.crawl.frontier[0] == seed);
    assert(crawl_closed(start, web, seed));
    lemma_events_keep_closed(start, events, web, seed);
    let end = after_events(start, events);
    lemma_workers_stay(start, events);
    let path = choose|path: Seq<Seq<char>>| #[trigger]
        is_path(web, path) && path.first() == seed && path.last() == url;
    lemma_path_is_visited(end, web, seed, path);
}

/// Events leave the registry finite.
pub proof fn lemma_registry_stays_finite(pool: PoolView, events: Seq<Event>)
    requires
        pool.crawl.counts.dom().finite(),
    ensures
        after_events(pool, events).crawl.counts.dom().finite(),
    decreases events.len(),
{
    if events.len() > 0 {
        lemma_registry_stays_finite(pool, events.drop_last());
    }
}

/// A crawl ends only of a finite web. Take a pool of at least one worker at
/// its start, and any series of turns and ended visits in which each visit
/// ends with the links of its page. If after it every worker has finished,
/// only finitely many URLs can be reached from the seed.
pub proof fn lemma_finished_web_is_finite(
    workers: nat,
    is_bfs: bool,
    seed: Seq<char>,
    web: Map<Seq<char>, Seq<Seq<char>>>,
    events: Seq<Event>,
)
    requires
        workers >= 1,
        events_follow(pool_at_start(workers, is_bfs, seed), events, web),
        pool_finished(after_events(pool_at_start(workers, is_bfs, seed), events)),
    ensures
        Set::new(|url: Seq<char>| reachable(web, seed, url)).finite(),
{
    let start = pool_at_start(workers, is_bfs, seed);
    let end = after_events(start, events);
    let reached = Set::new(|url: Seq<char>| reachable(web, seed, url));
    lemma_registry_stays_finite(start, events);
    assert forall|url: Seq<char>| reached.contains(url) implies end.crawl.counts.dom().contains(
        url,
    ) by {
        lemma_no_lost_work(workers, is_bfs, seed, web, events, url);
    }
    vstd::set_lib::lemma_set_subset_finite(end.crawl.counts.dom(), reached);
}

/// Whether an event hands the page of `url` to a worker to fetch.
pub open spec fn event_fetches(pool: PoolView, event: Event, url: Seq<char>) -> bool {
    event matches Event::Turn(id) && step_at(pool, id) == Some(StepView::Visit(url))
}

/// Whether an event takes `url` from the frontier.
pub open spec fn event_takes(pool: PoolView, event: Event, url: Seq<char>) -> bool {
    event matches Event::Turn(id) && (step_at(pool, id) == Some(StepView::Visit(url)) || step_at(
        pool,
        id,
    ) == Some(StepView::Revisit(url)))
}

/// How often a series of events hands the page of `url` to a worker to fetch.
pub open spec fn fetches(pool: PoolView, events: Seq<Event>, url: Seq<char>) -> nat
    decreases events.len(),
{
    if events.len() == 0 {
        0
    } else {
        let last: nat = if event_fetches(
            after_events(pool, events.drop_last()),
            events.last(),
            url,
        ) {
            1
        } else {
            0
        };
        fetches(pool, events.drop_last(), url) + last
    }
}

/// How often a series of events takes `url` from the frontier.
pub open spec fn takes(pool: PoolView, events: Seq<Event>, url: Seq<char>) -> nat
    decreases events.len(),
{
    if events.len() == 0 {
        0
    } else {
        let last: nat = if event_takes(after_events(pool, events.drop_last()), events.last(), url) {
            1
        } else {
            0
        };
        takes(pool, events.drop_last(), url) + last
    }
}

/// Each page is fetched once. In whatever order the workers take their
/// turns, the visits of a URL are counted once for each time that it is
/// taken from the frontier, and of all the times that a URL which was not
/// visited before is taken, one and only one hands its page out to be
/// fetched.
pub proof fn lemma_fetched_once(pool: PoolView, events: Seq<Event>, url: Seq<char>)
    ensures
        visits(after_events(pool, events).crawl.counts, url) == visits(pool.crawl.counts, url)
            + takes(pool, events, url),
        fetches(pool, events, url) == (if visits(pool.crawl.counts, url) == 0 && takes(
            pool,
            events,
            url,
        ) > 0 {
            1nat
        } else {
            0nat
        }),
    decreases events.len(),
{
    if events.len() > 0 {
        let front = events.drop_last();
        lemma_fetched_once(pool, front, url);
        let before = after_events(pool, front);
        match events.last() {
            Event::Turn(id) => {
                if id < before.workers.len() {
                    let stepped = step_of(before.workers[id as int], before.crawl);
                    assert(step_at(before, id) == Some(stepped.step));
                }
            },
            Event::Links(id, links) => {},
        }
    }
}

/// Events change no pool's number of workers.
pub proof fn lemma_workers_stay(pool: PoolView, events: Seq<Event>)
    ensures
        after_events(pool, events).workers.len() == pool.workers.len(),
    decreases events.len(),
{
    if events.len() > 0 {
        lemma_workers_stay(pool, events.drop_last());
    }
}

} // verus!
