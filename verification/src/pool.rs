//! The pool: the shared state of a crawl together with its workers.

use vstd::prelude::*;
use crate::crawl::{
    fits, step_of, visit_done, CrawlStep, CrawlView, DfsState, Phase, StepView, Worker, WorkerView,
};
use crate::registry::counts_wf;
use crate::syntax::{links_in, url_syntax_ok};
use crate::text::texts;

verus! {

/// What a pool holds.
pub struct PoolView {
    /// The shared state.
    pub crawl: CrawlView,
    /// The workers, each at its number.
    pub workers: Seq<WorkerView>,
}

/// Why a crawl did not start.
#[derive(Clone, Copy, Debug, PartialEq, Eq, Structural)]
pub enum CrawlError {
    /// The seed has not the syntax of a URL, so there is nothing to crawl.
    MalformedSeed,
}

impl CrawlError {
    /// What went wrong, in words.
    pub fn message(&self) -> (text: String)
        ensures
            text@ == "the seed is not a URL that can be crawled"@,
    {
        match self {
            CrawlError::MalformedSeed => "the seed is not a URL that can be crawled".to_owned(),
        }
    }
}

/// The number of busy workers among `workers`.
pub open spec fn busy_count(workers: Seq<WorkerView>) -> nat
    decreases workers.len(),
{
    if workers.len() == 0 {
        0
    } else {
        let last: nat = if workers.last().phase is Busy {
            1
        } else {
            0
        };
        busy_count(workers.drop_last()) + last
    }
}

/// Whether worker number `id` fetches the page of `url`.
pub open spec fn visits_at(pool: PoolView, id: int, url: Seq<char>) -> bool {
    0 <= id < pool.workers.len() && pool.workers[id].visiting == Some(url)
}

/// What holds of a pool at every moment of a crawl: the shared count of busy
/// workers is the number of workers that are busy; a worker that fetches a
/// page is busy and has claimed its URL; and once a worker has finished, the
/// frontier is empty and no worker is busy.
pub open spec fn pool_wf(pool: PoolView) -> bool {
    &&& pool.workers.len() == pool.crawl.workers
    &&& pool.crawl.active == busy_count(pool.workers)
    &&& counts_wf(pool.crawl.counts)
    &&& forall|id: int, url: Seq<char>| #[trigger]
        visits_at(pool, id, url) ==> pool.workers[id].phase is Busy
            && pool.crawl.counts.dom().contains(url)
    &&& forall|id: int|
        0 <= id < pool.workers.len() && (#[trigger] pool.workers[id]).phase is Done
            ==> pool.crawl.frontier.len() == 0 && pool.crawl.active == 0
}

/// Whether every worker of the pool has finished.
pub open spec fn pool_finished(pool: PoolView) -> bool {
    forall|id: int| 0 <= id < pool.workers.len() ==> (#[trigger] pool.workers[id]).phase is Done
}

/// The pool at the start of a crawl: the seed waits in the frontier, nothing
/// was visited and every worker is busy.
pub open spec fn pool_at_start(workers: nat, is_bfs: bool, seed: Seq<char>) -> PoolView {
    PoolView {
        crawl: CrawlView {
            frontier: seq![seed],
            counts: Map::empty(),
            active: workers,
            workers,
            is_bfs,
        },
        workers: Seq::new(workers, |id: int| WorkerView { phase: Phase::Busy, visiting: None }),
    }
}

/// The pool after worker number `id` took a turn through its loop. A number
/// that no worker has changes nothing.
pub open spec fn after_step(pool: PoolView, id: nat) -> PoolView {
    if id < pool.workers.len() {
        let stepped = step_of(pool.workers[id as int], pool.crawl);
        PoolView { crawl: stepped.crawl, workers: pool.workers.update(id as int, stepped.worker) }
    } else {
        pool
    }
}

/// What the turn of worker number `id` came to.
pub open spec fn step_at(pool: PoolView, id: nat) -> Option<StepView> {
    if id < pool.workers.len() {
        Some(step_of(pool.workers[id as int], pool.crawl).step)
    } else {
        None
    }
}

/// The pool after worker number `id` ended its visit with `links`. A number
/// that no worker has changes nothing.
pub open spec fn after_visit(pool: PoolView, id: nat, links: Seq<Seq<char>>) -> PoolView {
    if id < pool.workers.len() {
        let done = visit_done(pool.workers[id as int], pool.crawl, links);
        PoolView { crawl: done.1, workers: pool.workers.update(id as int, done.0) }
    } else {
        pool
    }
}

/// The view of a step that may be missing.
pub open spec fn opt_step(step: Option<CrawlStep>) -> Option<StepView> {
    match step {
        Some(s) => Some(s@),
        None => None,
    }
}

/// There are no more busy workers than workers.
pub proof fn lemma_busy_bound(workers: Seq<WorkerView>)
    ensures
        busy_count(workers) <= workers.len(),
    decreases workers.len(),
{
    if workers.len() > 0 {
        lemma_busy_bound(workers.drop_last());
    }
}

/// Replacing one worker changes the number of busy workers by that worker
/// alone.
pub proof fn lemma_busy_update(workers: Seq<WorkerView>, id: int, worker: WorkerView)
    requires
        0 <= id < workers.len(),
    ensures
        busy_count(workers.update(id, worker)) + (if workers[id].phase is Busy {
            1nat
        } else {
            0nat
        }) == busy_count(workers) + (if worker.phase is Busy {
            1nat
        } else {
            0nat
        }),
    decreases workers.len(),
{
    let updated = workers.update(id, worker);
    if id == workers.len() - 1 {
        assert(updated.drop_last() == workers.drop_last());
    } else {
        lemma_busy_update(workers.drop_last(), id, worker);
        assert(updated.drop_last() == workers.drop_last().update(id, worker));
    }
}

/// No worker is counted as busy exactly when none is busy.
pub proof fn lemma_busy_none(workers: Seq<WorkerView>)
    ensures
        busy_count(workers) == 0 <==> (forall|id: int|
            0 <= id < workers.len() ==> !((#[trigger] workers[id]).phase is Busy)),
    decreases workers.len(),
{
    if workers.len() > 0 {
        let front = workers.drop_last();
        lemma_busy_none(front);
        assert(forall|id: int| 0 <= id < front.len() ==> front[id] == workers[id]);
        if busy_count(workers) == 0 {
            assert forall|id: int| 0 <= id < workers.len() implies !((
            #[trigger] workers[id]).phase is Busy) by {
                if id < front.len() {
                    assert(front[id] == workers[id]);
                }
            }
        }
    }
}

/// Where every worker is busy, as many are counted as there are.
pub proof fn lemma_busy_all(workers: Seq<WorkerView>)
    requires
        forall|id: int| 0 <= id < workers.len() ==> (#[trigger] workers[id]).phase is Busy,
    ensures
        busy_count(workers) == workers.len(),
    decreases workers.len(),
{
    if workers.len() > 0 {
        lemma_busy_all(workers.drop_last());
    }
}

/// In a well-formed pool the shared count leaves room for every worker's
/// next turn.
pub proof fn lemma_worker_fits(pool: PoolView, id: int)
    requires
        pool_wf(pool),
        0 <= id < pool.workers.len(),
    ensures
        fits(pool.workers[id], pool.crawl),
{
    let worker = pool.workers[id];
    lemma_busy_update(pool.workers, id, WorkerView { phase: Phase::Done, visiting: None });
    lemma_busy_bound(pool.workers.update(id, WorkerView { phase: Phase::Done, visiting: None }));
    lemma_busy_update(pool.workers, id, WorkerView { phase: Phase::Busy, visiting: None });
    lemma_busy_bound(pool.workers.update(id, WorkerView { phase: Phase::Busy, visiting: None }));
}

/// A pool at its start is well-formed.
pub proof fn lemma_start_is_wf(workers: nat, is_bfs: bool, seed: Seq<char>)
    ensures
        pool_wf(pool_at_start(workers, is_bfs, seed)),
{
    let pool = pool_at_start(workers, is_bfs, seed);
    lemma_busy_all(pool.workers);
}

/// A worker's turn keeps the pool well-formed.
pub proof fn lemma_step_keeps_wf(pool: PoolView, id: nat)
    requires
        pool_wf(pool),
    ensures
        pool_wf(after_step(pool, id)),
{
    if id < pool.workers.len() {
        let worker = pool.workers[id as int];
        let stepped = step_of(worker, pool.crawl);
        let after = after_step(pool, id);
        lemma_worker_fits(pool, id as int);
        lemma_busy_update(pool.workers, id as int, stepped.worker);
        lemma_busy_none(pool.workers);
        lemma_busy_none(after.workers);
        assert forall|other: int, url: Seq<char>| #[trigger]
            visits_at(after, other, url) implies after.workers[other].phase is Busy
            && after.crawl.counts.dom().contains(url) by {
            if other != id {
                assert(after.workers[other] == pool.workers[other]);
                assert(visits_at(pool, other, url));
                assert(pool.crawl.counts.dom().contains(url));
            } else {
                assert(after.workers[other] == stepped.worker);
            }
        }
        assert forall|other: int|
            0 <= other < after.workers.len() && (#[trigger] after.workers[other]).phase is Done
            implies after.crawl.frontier.len() == 0 && after.crawl.active == 0 by {
            if other != id {
                assert(after.workers[other] == pool.workers[other]);
                assert(pool.workers[other].phase is Done);
                assert(!(worker.phase is Busy));
            } else {
                assert(after.workers[other] == stepped.worker);
            }
        }
    }
}

/// The end of a visit keeps the pool well-formed.
pub proof fn lemma_visit_keeps_wf(pool: PoolView, id: nat, links: Seq<Seq<char>>)
    requires
        pool_wf(pool),
    ensures
        pool_wf(after_visit(pool, id, links)),
{
    if id < pool.workers.len() {
        let worker = pool.workers[id as int];
        let after = after_visit(pool, id, links);
        let done = visit_done(worker, pool.crawl, links);
        lemma_busy_update(pool.workers, id as int, done.0);
        if worker.visiting is Some {
            assert(visits_at(pool, id as int, worker.visiting->0));
            lemma_busy_none(pool.workers);
        } else {
            assert(after.workers == pool.workers);
        }
        assert forall|other: int, url: Seq<char>| #[trigger]
            visits_at(after, other, url) implies after.workers[other].phase is Busy
            && after.crawl.counts.dom().contains(url) by {
            if other != id {
                assert(visits_at(pool, other, url));
            }
        }
        assert forall|other: int|
            0 <= other < after.workers.len() && (#[trigger] after.workers[other]).phase is Done
            implies after.crawl.frontier.len() == 0 && after.crawl.active == 0 by {
            assert(pool.workers[other].phase is Done);
        }
    }
}

/// Termination agrees with the frontier: in a pool that has a worker, once
/// every worker has finished the frontier is empty, no worker is busy and
/// none fetches a page.
pub proof fn lemma_finished_is_quiet(pool: PoolView)
    requires
        pool_wf(pool),
        pool_finished(pool),
        pool.workers.len() >= 1,
    ensures
        pool.crawl.frontier.len() == 0,
        pool.crawl.active == 0,
        forall|id: int, url: Seq<char>| !visits_at(pool, id, url),
{
    assert(pool.workers[0].phase is Done);
    assert forall|id: int, url: Seq<char>| !visits_at(pool, id, url) by {
        if visits_at(pool, id, url) {
            assert(pool.workers[id].phase is Done);
        }
    }
}

/// What the workers hold.
pub open spec fn worker_views(workers: Seq<Worker>) -> Seq<WorkerView> {
    workers.map_values(|worker: Worker| worker@)
}

/// The shared state of a crawl and its workers. Whoever drives the crawl
/// tells the pool which worker takes a turn, fetches the page that the turn
/// asks for, and hands the page or its links back.
pub struct Pool {
    state: DfsState,
    workers: Vec<Worker>,
}

impl View for Pool {
    type V = PoolView;

    closed spec fn view(&self) -> PoolView {
        PoolView { crawl: self.state@, workers: worker_views(self.workers@) }
    }
}

impl Pool {
    /// What every pool that [`Pool::start`] made satisfies, and every call
    /// keeps: see [`pool_wf`].
    pub open spec fn wf(&self) -> bool {
        pool_wf(self@)
    }

    /// Starts a crawl: seeds the frontier and makes the workers. A seed that
    /// has not the syntax of a URL is refused, and nothing is made.
    pub fn start(num_workers: usize, is_bfs: bool, seed: String) -> (started: Result<
        Pool,
        CrawlError,
    >)
        ensures
            started is Ok <==> url_syntax_ok(seed@),
            started matches Ok(pool) ==> pool@ == pool_at_start(num_workers as nat, is_bfs, seed@)
                && pool.wf(),
            started matches Err(error) ==> error == CrawlError::MalformedSeed,
    {
        let mut state: DfsState = DfsState::new(num_workers, is_bfs);
        if !state.append_url(seed) {
            return Err(CrawlError::MalformedSeed);
        }
        let mut workers: Vec<Worker> = Vec::new();
        let mut made: usize = 0;
        while made < num_workers
            invariant
                made <= num_workers,
                workers@.len() == made,
                forall|id: int|
                    0 <= id < made ==> (#[trigger] workers@[id])@ == (WorkerView {
                        phase: Phase::Busy,
                        visiting: None,
                    }),
            decreases num_workers - made,
        {
            workers.push(Worker::new());
            made += 1;
        }
        proof {
            let start = pool_at_start(num_workers as nat, is_bfs, seed@);
            assert(state@.frontier == start.crawl.frontier);
            assert(worker_views(workers@) == start.workers);
            lemma_start_is_wf(num_workers as nat, is_bfs, seed@);
        }
        Ok(Pool { state, workers })
    }

    /// The number of workers of the pool.
    pub fn num_workers(&self) -> (workers: usize)
        ensures
            workers == self@.workers.len(),
    {
        self.workers.len()
    }

    /// The shared state, to read.
    pub fn state(&self) -> (state: &DfsState)
        ensures
            state@ == self@.crawl,
    {
        &self.state
    }

    /// Where worker number `id` stands in its loop, if there is such a worker.
    pub fn phase(&self, id: usize) -> (phase: Option<Phase>)
        ensures
            phase is Some <==> id < self@.workers.len(),
            phase matches Some(p) ==> p == self@.workers[id as int].phase,
    {
        if id < self.workers.len() {
            Some(self.workers[id].phase())
        } else {
            None
        }
    }

    /// Whether every worker of the pool has finished.
    pub fn is_finished(&self) -> (finished: bool)
        ensures
            finished == pool_finished(self@),
    {
        let mut id: usize = 0;
        while id < self.workers.len()
            invariant
                id <= self.workers@.len(),
                forall|other: int|
                    0 <= other < id ==> (#[trigger] self@.workers[other]).phase is Done,
            decreases self.workers@.len() - id,
        {
            if !self.workers[id].is_done() {
                assert(!(self@.workers[id as int].phase is Done));
                return false;
            }
            id += 1;
        }
        true
    }

    /// Lets worker number `id` take one turn through its loop: see
    /// [`after_step`] and [`step_of`]. Gives what the turn came to, or `None`
    /// where the pool has no such worker.
    pub fn step(&mut self, id: usize) -> (step: Option<CrawlStep>)
        requires
            old(self).wf(),
        ensures
            final(self)@ == after_step(old(self)@, id as nat),
            opt_step(step) == step_at(old(self)@, id as nat),
            final(self).wf(),
    {
        proof {
            lemma_step_keeps_wf(self@, id as nat);
        }
        if id >= self.workers.len() {
            return None;
        }
        proof {
            lemma_worker_fits(self@, id as int);
        }
        let step: CrawlStep = self.workers[id].crawl(&mut self.state);
        assert(worker_views(self.workers@) == worker_views(old(self).workers@).update(
            id as int,
            self.workers@[id as int]@,
        ));
        Some(step)
    }

    /// Ends the visit of worker number `id` with the links that were found
    /// in the page: see [`after_visit`] and [`visit_done`]. Gives the number
    /// of links that the frontier took.
    pub fn enqueue_links(&mut self, id: usize, links: &Vec<String>) -> (taken: usize)
        requires
            old(self).wf(),
        ensures
            final(self)@ == after_visit(old(self)@, id as nat, texts(links@)),
            taken == final(self)@.crawl.frontier.len() - old(self)@.crawl.frontier.len(),
            final(self).wf(),
    {
        proof {
            lemma_visit_keeps_wf(self@, id as nat, texts(links@));
        }
        if id >= self.workers.len() {
            return 0;
        }
        let taken: usize = self.workers[id].enqueue(&mut self.state, links);
        assert(worker_views(self.workers@) == worker_views(old(self).workers@).update(
            id as int,
            self.workers@[id as int]@,
        ));
        taken
    }

    /// Ends the visit of worker number `id` with the text of the page that
    /// was fetched: the links in it are offered to the frontier.
    pub fn new_visit(&mut self, id: usize, body: &str) -> (taken: usize)
        requires
            old(self).wf(),
        ensures
            final(self)@ == after_visit(old(self)@, id as nat, links_in(body@)),
            taken == final(self)@.crawl.frontier.len() - old(self)@.crawl.frontier.len(),
            final(self).wf(),
    {
        let links: Vec<String> = crate::syntax::extract_links(body);
        self.enqueue_links(id, &links)
    }
}

} // verus!
