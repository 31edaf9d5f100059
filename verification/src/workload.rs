//! A crawl of a finite web does finitely much: however the workers take
//! their turns, the number of URLs that are taken from the frontier is
//! bounded by the size of the web.

use vstd::prelude::*;
use crate::coverage::{
    after_event, after_events, event_follows, events_follow, links_follow, links_of, turn_follows,
    Event,
};
use crate::crawl::{step_of, visit_done, StepView, WorkerView};
use crate::pool::{
    after_step, after_visit, lemma_start_is_wf, lemma_step_keeps_wf, lemma_visit_keeps_wf,
    pool_at_start, pool_wf, step_at, visits_at, PoolView,
};
use crate::syntax::url_syntax_ok;

verus! {

/// Whether `pages` lists, each once, the seed and every URL to which a page
/// of the list links.
pub open spec fn web_closed(
    web: Map<Seq<char>, Seq<Seq<char>>>,
    pages: Seq<Seq<char>>,
    seed: Seq<char>,
) -> bool {
    &&& pages.no_duplicates()
    &&& pages.contains(seed)
    &&& forall|i: int, j: int|
        0 <= i < pages.len() && 0 <= j < links_of(web, pages[i]).len() && url_syntax_ok(
            #[trigger] links_of(web, pages[i])[j],
        ) ==> pages.contains(links_of(web, pages[i])[j])
}

/// What a page may still cost: one turn to take its URL from the frontier and
/// one for each of its links, as long as it was not visited.
pub open spec fn page_debt(
    web: Map<Seq<char>, Seq<Seq<char>>>,
    counts: Map<Seq<char>, nat>,
    url: Seq<char>,
) -> nat {
    if counts.dom().contains(url) {
        0
    } else {
        1 + links_of(web, url).len()
    }
}

/// What the pages of a list may still cost.
pub open spec fn unvisited_debt(
    web: Map<Seq<char>, Seq<Seq<char>>>,
    counts: Map<Seq<char>, nat>,
    pages: Seq<Seq<char>>,
) -> nat
    decreases pages.len(),
{
    if pages.len() == 0 {
        0
    } else {
        unvisited_debt(web, counts, pages.drop_last()) + page_debt(web, counts, pages.last())
    }
}

/// What the visit of a worker may still cost: one turn for each link of the
/// page that it fetches.
pub open spec fn worker_debt(web: Map<Seq<char>, Seq<Seq<char>>>, worker: WorkerView) -> nat {
    match worker.visiting {
        Some(url) => links_of(web, url).len(),
        None => 0,
    }
}

/// What the visits of the workers may still cost.
pub open spec fn flight_debt(web: Map<Seq<char>, Seq<Seq<char>>>, workers: Seq<WorkerView>) -> nat
    decreases workers.len(),
{
    if workers.len() == 0 {
        0
    } else {
        flight_debt(web, workers.drop_last()) + worker_debt(web, workers.last())
    }
}

/// The number of turns that may still take a URL from the frontier: one for
/// each URL that waits, and what the pages and the visits may still cost.
pub open spec fn debt(
    pool: PoolView,
    web: Map<Seq<char>, Seq<Seq<char>>>,
    pages: Seq<Seq<char>>,
) -> nat {
    pool.crawl.frontier.len() + unvisited_debt(web, pool.crawl.counts, pages) + flight_debt(
        web,
        pool.workers,
    )
}

/// Whether every URL that waits or was visited is one of `pages`.
pub open spec fn known(pool: PoolView, pages: Seq<Seq<char>>) -> bool {
    &&& forall|i: int|
        0 <= i < pool.crawl.frontier.len() ==> pages.contains(#[trigger] pool.crawl.frontier[i])
    &&& forall|url: Seq<char>| #[trigger]
        pool.crawl.counts.dom().contains(url) ==> pages.contains(url)
}

/// Whether a step took a URL from the frontier.
pub open spec fn is_work(step: Option<StepView>) -> bool {
    step matches Some(s) && (s is Visit || s is Revisit)
}

/// The number of URLs that an event takes from the frontier.
pub open spec fn event_work(pool: PoolView, event: Event) -> nat {
    match event {
        Event::Turn(id) => if is_work(step_at(pool, id)) {
            1
        } else {
            0
        },
        Event::Links(id, links) => 0,
    }
}

/// The number of URLs that a series of events takes from the frontier.
pub open spec fn work_done(pool: PoolView, events: Seq<Event>) -> nat
    decreases events.len(),
{
    if events.len() == 0 {
        0
    } else {
        work_done(pool, events.drop_last()) + event_work(
            after_events(pool, events.drop_last()),
            events.last(),
        )
    }
}

/// Visiting a page pays its debt: once, if it is one of the pages and was
/// not visited before, and never otherwise.
pub proof fn lemma_visit_pays(
    web: Map<Seq<char>, Seq<Seq<char>>>,
    counts: Map<Seq<char>, nat>,
    pages: Seq<Seq<char>>,
    url: Seq<char>,
    count: nat,
)
    requires
        pages.no_duplicates(),
    ensures
        unvisited_debt(web, counts.insert(url, count), pages) + (if pages.contains(url)
            && !counts.dom().contains(url) {
            1 + links_of(web, url).len()
        } else {
            0
        }) == unvisited_debt(web, counts, pages),
    decreases pages.len(),
{
    if pages.len() > 0 {
        let front = pages.drop_last();
        assert(front.no_duplicates());
        lemma_visit_pays(web, counts, front, url, count);
        if pages.last() == url {
            assert(pages[pages.len() - 1] == url);
            if front.contains(url) {
                let at = choose|i: int| 0 <= i < front.len() && front[i] == url;
                assert(pages[at] == url);
            }
        } else {
            if pages.contains(url) {
                let at = choose|i: int| 0 <= i < pages.len() && pages[i] == url;
                assert(front[at] == url);
            }
            if front.contains(url) {
                let at = choose|i: int| 0 <= i < front.len() && front[i] == url;
                assert(pages[at] == url);
            }
        }
    }
}

/// Replacing one worker changes what the visits may cost by that worker
/// alone.
pub proof fn lemma_flight_update(
    web: Map<Seq<char>, Seq<Seq<char>>>,
    workers: Seq<WorkerView>,
    id: int,
    worker: WorkerView,
)
    requires
        0 <= id < workers.len(),
    ensures
        flight_debt(web, workers.update(id, worker)) + worker_debt(web, workers[id]) == flight_debt(
            web,
            workers,
        ) + worker_debt(web, worker),
    decreases workers.len(),
{
    let updated = workers.update(id, worker);
    if id == workers.len() - 1 {
        assert(updated.drop_last() == workers.drop_last());
    } else {
        lemma_flight_update(web, workers.drop_last(), id, worker);
        assert(updated.drop_last() == workers.drop_last().update(id, worker));
    }
}

/// A turn that the web allows raises no debt, and pays one where it takes a
/// URL from the frontier.
pub proof fn lemma_turn_pays(
    pool: PoolView,
    id: nat,
    web: Map<Seq<char>, Seq<Seq<char>>>,
    pages: Seq<Seq<char>>,
)
    requires
        pool_wf(pool),
        pages.no_duplicates(),
        known(pool, pages),
        turn_follows(pool, id, web),
    ensures
        known(after_step(pool, id), pages),
        debt(after_step(pool, id), web, pages) + event_work(pool, Event::Turn(id)) <= debt(
            pool,
            web,
            pages,
        ),
{
    let after = after_step(pool, id);
    if id < pool.workers.len() {
        let worker = pool.workers[id as int];
        let stepped = step_of(worker, pool.crawl);
        lemma_flight_update(web, pool.workers, id as int, stepped.worker);
        if worker.visiting is Some {
            assert(visits_at(pool, id as int, worker.visiting->0));
        }
        assert(worker_debt(web, worker) == 0);
        if !(worker.phase is Done) {
            let queue = pool.crawl.frontier;
            if queue.len() > 0 {
                let url = if pool.crawl.is_bfs {
                    queue.first()
                } else {
                    queue.last()
                };
                assert(pages.contains(url)) by {
                    if pool.crawl.is_bfs {
                        assert(queue[0] == url);
                    } else {
                        assert(queue[queue.len() - 1] == url);
                    }
                }
                let count = (crate::registry::visits(pool.crawl.counts, url) + 1) as nat;
                lemma_visit_pays(web, pool.crawl.counts, pages, url, count);
                assert(after.crawl.counts == pool.crawl.counts.insert(url, count));
                assert forall|i: int| 0 <= i < after.crawl.frontier.len() implies pages.contains(
                    #[trigger] after.crawl.frontier[i],
                ) by {
                    if pool.crawl.is_bfs {
                        assert(after.crawl.frontier[i] == queue[i + 1]);
                    } else {
                        assert(after.crawl.frontier[i] == queue[i]);
                    }
                }
            }
        }
    }
}

/// The end of a visit that the web allows raises no debt: each link that
/// enters the frontier was owed by the visit.
pub proof fn lemma_links_pay(
    pool: PoolView,
    id: nat,
    links: Seq<Seq<char>>,
    web: Map<Seq<char>, Seq<Seq<char>>>,
    pages: Seq<Seq<char>>,
    seed: Seq<char>,
)
    requires
        pool_wf(pool),
        web_closed(web, pages, seed),
        known(pool, pages),
        links_follow(pool, id, links, web),
    ensures
        known(after_visit(pool, id, links), pages),
        debt(after_visit(pool, id, links), web, pages) <= debt(pool, web, pages),
{
    let after = after_visit(pool, id, links);
    if id < pool.workers.len() {
        let worker = pool.workers[id as int];
        let done = visit_done(worker, pool.crawl, links);
        lemma_flight_update(web, pool.workers, id as int, done.0);
        if worker.visiting is Some {
            let url = worker.visiting->0;
            assert(visits_at(pool, id as int, url));
            assert(links == links_of(web, url));
            let wanted = |link: Seq<char>| pool.crawl.wants(link);
            let taken = links.filter(wanted);
            links.lemma_filter_len(wanted);
            assert(pages.contains(url));
            let at = choose|i: int| 0 <= i < pages.len() && pages[i] == url;
            assert forall|i: int| 0 <= i < after.crawl.frontier.len() implies pages.contains(
                #[trigger] after.crawl.frontier[i],
            ) by {
                if i < pool.crawl.frontier.len() {
                    assert(after.crawl.frontier[i] == pool.crawl.frontier[i]);
                } else {
                    let k = i - pool.crawl.frontier.len();
                    let link = taken[k];
                    assert(after.crawl.frontier[i] == link);
                    links.lemma_filter_pred(wanted, k);
                    assert(taken.contains(link));
                    links.lemma_filter_contains_rev(wanted, link);
                    let j = choose|j: int| 0 <= j < links.len() && links[j] == link;
                    assert(url_syntax_ok(links_of(web, pages[at])[j]));
                }
            }
        }
    }
}

/// An event that the web allows raises no debt and pays for its work.
pub proof fn lemma_event_pays(
    pool: PoolView,
    event: Event,
    web: Map<Seq<char>, Seq<Seq<char>>>,
    pages: Seq<Seq<char>>,
    seed: Seq<char>,
)
    requires
        pool_wf(pool),
        web_closed(web, pages, seed),
        known(pool, pages),
        event_follows(pool, event, web),
    ensures
        pool_wf(after_event(pool, event)),
        known(after_event(pool, event), pages),
        debt(after_event(pool, event), web, pages) + event_work(pool, event) <= debt(
            pool,
            web,
            pages,
        ),
{
    match event {
        Event::Turn(id) => {
            lemma_step_keeps_wf(pool, id);
            lemma_turn_pays(pool, id, web, pages);
        },
        Event::Links(id, links) => {
            lemma_visit_keeps_wf(pool, id, links);
            lemma_links_pay(pool, id, links, web, pages, seed);
        },
    }
}

/// A series of events that the web allows pays for all its work.
pub proof fn lemma_events_pay(
    pool: PoolView,
    events: Seq<Event>,
    web: Map<Seq<char>, Seq<Seq<char>>>,
    pages: Seq<Seq<char>>,
    seed: Seq<char>,
)
    requires
        pool_wf(pool),
        web_closed(web, pages, seed),
        known(pool, pages),
        events_follow(pool, events, web),
    ensures
        pool_wf(after_events(pool, events)),
        known(after_events(pool, events), pages),
        debt(after_events(pool, events), web, pages) + work_done(pool, events) <= debt(
            pool,
            web,
            pages,
        ),
    decreases events.len(),
{
    if events.len() > 0 {
        lemma_events_pay(pool, events.drop_last(), web, pages, seed);
        lemma_event_pays(after_events(pool, events.drop_last()), events.last(), web, pages, seed);
    }
}

/// No visit is in flight where no worker visits.
proof fn lemma_no_flight(web: Map<Seq<char>, Seq<Seq<char>>>, workers: Seq<WorkerView>)
    requires
        forall|id: int| 0 <= id < workers.len() ==> (#[trigger] workers[id]).visiting is None,
    ensures
        flight_debt(web, workers) == 0,
    decreases workers.len(),
{
    if workers.len() > 0 {
        lemma_no_flight(web, workers.drop_last());
    }
}

/// The work of a crawl is bounded by its web. Take a finite web, given as
/// the list of its pages, a pool at its start, and any series of turns and
/// ended visits in which each visit ends with the links of its page. The
/// number of turns in it that take a URL from the frontier is at most one
/// for the seed, and for each page one and the number of its links.
pub proof fn lemma_work_is_bounded(
    workers: nat,
    is_bfs: bool,
    seed: Seq<char>,
    web: Map<Seq<char>, Seq<Seq<char>>>,
    pages: Seq<Seq<char>>,
    events: Seq<Event>,
)
    requires
        web_closed(web, pages, seed),
        events_follow(pool_at_start(workers, is_bfs, seed), events, web),
    ensures
        work_done(pool_at_start(workers, is_bfs, seed), events) <= 1 + unvisited_debt(
            web,
            Map::empty(),
            pages,
        ),
{
    let start = pool_at_start(workers, is_bfs, seed);
    lemma_start_is_wf(workers, is_bfs, seed);
    lemma_no_flight(web, start.workers);
    assert(start.crawl.frontier[0] == seed);
    lemma_events_pay(start, events, web, pages, seed);
}

} // verus!
