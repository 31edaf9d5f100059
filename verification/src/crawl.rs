//! The shared state of a crawl and the worker that runs against it.

use vstd::prelude::*;
use crate::frontier::{after_pop, after_push, next_of, Frontier};
use crate::registry::{after_claim, counts_wf, is_first_claim, VisitRegistry};
use crate::syntax::{extract_links, links_in, url_syntax_ok};
use crate::text::{opt_text, texts};
use crate::visit_count::VisitCount;

verus! {

/// What a crawl's shared state holds.
pub struct CrawlView {
    /// The URLs that wait for a visit, in the order in which they came.
    pub frontier: Seq<Seq<char>>,
    /// How often each URL was taken from the frontier.
    pub counts: Map<Seq<char>, nat>,
    /// The number of workers that are busy.
    pub active: nat,
    /// The number of workers of the pool.
    pub workers: nat,
    /// Whether the traversal is breadth-first.
    pub is_bfs: bool,
}

impl CrawlView {
    /// The state with another frontier.
    pub open spec fn with_frontier(self, frontier: Seq<Seq<char>>) -> CrawlView {
        CrawlView { frontier, ..self }
    }

    /// The state with other visit counts.
    pub open spec fn with_counts(self, counts: Map<Seq<char>, nat>) -> CrawlView {
        CrawlView { counts, ..self }
    }

    /// The state with another number of busy workers.
    pub open spec fn with_active(self, active: nat) -> CrawlView {
        CrawlView { active, ..self }
    }

    /// No more workers are busy than the pool has, and every URL of the
    /// registry was visited.
    pub open spec fn wf(self) -> bool {
        &&& self.active <= self.workers
        &&& counts_wf(self.counts)
    }

    /// Whether a link that was found in a page is new to the crawl.
    pub open spec fn wants(self, link: Seq<char>) -> bool {
        url_syntax_ok(link) && !self.counts.dom().contains(link)
    }

    /// The state after the links of a page were offered to the frontier:
    /// those that are URLs and that the registry does not hold are appended,
    /// in their order.
    pub open spec fn after_links(self, links: Seq<Seq<char>>) -> CrawlView {
        self.with_frontier(self.frontier + links.filter(|link: Seq<char>| self.wants(link)))
    }
}

/// The frontier, the registry and the count of busy workers, which all the
/// workers of a pool share.
pub struct DfsState {
    visited: VisitRegistry,
    queue: Frontier,
    working_threads: usize,
    pool_size: usize,
}

impl View for DfsState {
    type V = CrawlView;

    closed spec fn view(&self) -> CrawlView {
        CrawlView {
            frontier: self.queue@,
            counts: self.visited@,
            active: self.working_threads as nat,
            workers: self.pool_size as nat,
            is_bfs: self.queue.bfs(),
        }
    }
}

impl DfsState {
    /// The state at the start of a crawl: nothing waits, nothing was visited
    /// and every worker counts as busy.
    pub fn new(num_workers: usize, is_bfs: bool) -> (state: DfsState)
        ensures
            state@ == (CrawlView {
                frontier: Seq::empty(),
                counts: Map::empty(),
                active: num_workers as nat,
                workers: num_workers as nat,
                is_bfs,
            }),
            state@.wf(),
    {
        DfsState {
            visited: VisitRegistry::new(),
            queue: Frontier::new(is_bfs),
            working_threads: num_workers,
            pool_size: num_workers,
        }
    }

    /// Offers a string to the frontier, which takes it in if it has the
    /// syntax of a URL and drops it otherwise. Says whether it was taken.
    pub fn append_url(&mut self, url: String) -> (taken: bool)
        ensures
            taken == url_syntax_ok(url@),
            final(self)@ == old(self)@.with_frontier(after_push(old(self)@.frontier, url@)),
    {
        self.queue.push(url)
    }

    /// Takes the next URL from the frontier: the one that has waited longest
    /// when the traversal is breadth-first, else the one that came last.
    pub fn get_url(&mut self) -> (url: Option<String>)
        ensures
            opt_text(url) == next_of(old(self)@.frontier, old(self)@.is_bfs),
            final(self)@ == old(self)@.with_frontier(
                after_pop(old(self)@.frontier, old(self)@.is_bfs),
            ),
    {
        self.queue.pop()
    }

    /// The number of workers that are busy.
    pub fn get_active_workers(&self) -> (active: usize)
        ensures
            active == self@.active,
    {
        self.working_threads
    }

    /// The number of workers of the pool.
    pub fn num_workers(&self) -> (workers: usize)
        ensures
            workers == self@.workers,
    {
        self.pool_size
    }

    /// The number of URLs that wait in the frontier.
    pub fn frontier_len(&self) -> (len: usize)
        ensures
            len == self@.frontier.len(),
    {
        self.queue.len()
    }

    /// Counts one busy worker less, and gives the number that are left.
    pub fn mark_worker_inactive(&mut self) -> (active: usize)
        requires
            old(self)@.active > 0,
        ensures
            active == old(self)@.active - 1,
            final(self)@ == old(self)@.with_active((old(self)@.active - 1) as nat),
    {
        self.working_threads = self.working_threads - 1;
        self.working_threads
    }

    /// Counts one busy worker more.
    pub fn mark_worker_active(&mut self)
        requires
            old(self)@.active < old(self)@.workers,
        ensures
            final(self)@ == old(self)@.with_active(old(self)@.active + 1),
    {
        self.working_threads = self.working_threads + 1;
    }

    /// Counts one more visit of `key`, and says whether it is the first.
    pub fn try_claim(&mut self, key: String) -> (first: bool)
        ensures
            first == is_first_claim(old(self)@.counts, key@),
            final(self)@ == old(self)@.with_counts(after_claim(old(self)@.counts, key@)),
    {
        self.visited.claim(key)
    }

    /// Whether `url` was claimed before.
    pub fn is_visited(&self, url: &str) -> (found: bool)
        ensures
            found == self@.counts.dom().contains(url@),
    {
        self.visited.contains(url)
    }

    /// Offers the links of a page to the frontier, but for those that the
    /// registry holds already. Gives the number that the frontier took.
    pub fn enqueue_links(&mut self, links: &Vec<String>) -> (taken: usize)
        ensures
            final(self)@ == old(self)@.after_links(texts(links@)),
            taken == final(self)@.frontier.len() - old(self)@.frontier.len(),
    {
        let ghost start = self@;
        let ghost wanted = |link: Seq<char>| start.wants(link);
        let mut taken: usize = 0;
        let mut i: usize = 0;
        let mut len: usize = self.queue.len();
        assert(texts(links@).take(0).filter(wanted) == Seq::<Seq<char>>::empty());
        assert(start.frontier + Seq::<Seq<char>>::empty() == start.frontier);
        while i < links.len()
            invariant
                i <= links@.len(),
                start == old(self)@,
                wanted == (|link: Seq<char>| start.wants(link)),
                self@ == start.with_frontier(
                    start.frontier + texts(links@).take(i as int).filter(wanted),
                ),
                taken == self@.frontier.len() - start.frontier.len(),
                len == self@.frontier.len(),
            decreases links@.len() - i,
        {
            let ghost done = texts(links@).take(i as int);
            let ghost link = links@[i as int]@;
            proof {
                reveal(Seq::filter);
                let next = texts(links@).take(i + 1);
                assert(next.drop_last() == done);
                assert(next.last() == link);
                assert(next.filter(wanted) == if wanted(link) {
                    done.filter(wanted).push(link)
                } else {
                    done.filter(wanted)
                });
            }
            if !self.visited.contains(links[i].as_str()) {
                if self.queue.push(links[i].clone()) {
                    proof {
                        assert(start.frontier + done.filter(wanted).push(link) == (start.frontier
                            + done.filter(wanted)).push(link));
                    }
                    len = self.queue.len();
                    taken = taken + 1;
                }
            }
            i += 1;
        }
        assert(texts(links@).take(links@.len() as int) == texts(links@));
        taken
    }

    /// The URLs of the registry with their counts, each once, in no
    /// particular order.
    pub fn snapshot(&self) -> (entries: Vec<(String, VisitCount)>)
        ensures
            forall|i: int|
                0 <= i < entries@.len() ==> self@.counts.dom().contains((#[trigger] entries@[i]).0@)
                    && self@.counts[entries@[i].0@] == entries@[i].1@,
            forall|url: Seq<char>|
                self@.counts.dom().contains(url) ==> exists|i: int|
                    0 <= i < entries@.len() && (#[trigger] entries@[i]).0@ == url,
            forall|i: int, j: int|
                0 <= i < j < entries@.len() ==> (#[trigger] entries@[i]).0@ != (
                #[trigger] entries@[j]).0@,
    {
        self.visited.snapshot()
    }
}

/// Where a worker stands in its loop.
#[derive(Clone, Copy, Debug, PartialEq, Eq, Structural)]
pub enum Phase {
    /// The worker found the frontier empty when it last looked.
    Idle,
    /// The worker holds a URL, or has not looked at the frontier yet.
    Busy,
    /// The worker has left its loop for good.
    Done,
}

/// What a worker holds.
pub struct WorkerView {
    /// Where the worker stands in its loop.
    pub phase: Phase,
    /// The URL whose page the worker fetches, while it does.
    pub visiting: Option<Seq<char>>,
}

/// One worker of a pool.
#[derive(Debug)]
pub struct Worker {
    phase: Phase,
    visiting: Option<String>,
}

impl View for Worker {
    type V = WorkerView;

    closed spec fn view(&self) -> WorkerView {
        WorkerView { phase: self.phase, visiting: opt_text(self.visiting) }
    }
}

/// What a worker's next turn through its loop came to.
#[derive(Clone, Debug, PartialEq, Eq)]
pub enum CrawlStep {
    /// The worker is the first to visit the URL: its page is to be fetched.
    Visit(String),
    /// The URL was visited before: the visit was counted, nothing is fetched.
    Revisit(String),
    /// The frontier is empty and so many workers are still busy.
    Idle(usize),
    /// The frontier is empty and no worker is busy: the worker has finished.
    Done,
}

/// What a step holds.
pub enum StepView {
    /// A first visit of the URL.
    Visit(Seq<char>),
    /// A further visit of the URL.
    Revisit(Seq<char>),
    /// Nothing to do, while so many workers are busy.
    Idle(nat),
    /// Nothing to do, and nothing to come.
    Done,
}

impl View for CrawlStep {
    type V = StepView;

    open spec fn view(&self) -> StepView {
        match self {
            CrawlStep::Visit(url) => StepView::Visit(url@),
            CrawlStep::Revisit(url) => StepView::Revisit(url@),
            CrawlStep::Idle(active) => StepView::Idle(*active as nat),
            CrawlStep::Done => StepView::Done,
        }
    }
}

/// A worker and the shared state after the worker did something, and what it
/// came to.
pub struct Stepped {
    /// The worker afterwards.
    pub worker: WorkerView,
    /// The shared state afterwards.
    pub crawl: CrawlView,
    /// What the worker's turn came to.
    pub step: StepView,
}

/// Whether the shared count of busy workers leaves room for what this worker
/// may do to it next.
pub open spec fn fits(worker: WorkerView, crawl: CrawlView) -> bool {
    &&& worker.phase is Busy ==> crawl.active > 0
    &&& worker.phase is Idle ==> crawl.active < crawl.workers
}

/// The count of busy workers once `worker` is counted as busy: one more, if
/// it was idle.
pub open spec fn active_with(worker: WorkerView, crawl: CrawlView) -> nat {
    if worker.phase is Idle {
        crawl.active + 1
    } else {
        crawl.active
    }
}

/// The count of busy workers once `worker` is not counted as busy: one less,
/// if it was busy.
pub open spec fn active_without(worker: WorkerView, crawl: CrawlView) -> nat {
    if worker.phase is Busy {
        (crawl.active - 1) as nat
    } else {
        crawl.active
    }
}

/// The phase of a worker once it holds a URL.
pub open spec fn phase_when_active(phase: Phase) -> Phase {
    if phase is Idle {
        Phase::Busy
    } else {
        phase
    }
}

/// The phase of a worker once it found the frontier empty.
pub open spec fn phase_when_inactive(phase: Phase) -> Phase {
    if phase is Busy {
        Phase::Idle
    } else {
        phase
    }
}

/// One turn of a worker through its loop. A worker that has finished stays
/// as it is. Another one gives up the visit that it had not completed and
/// takes the next URL from the frontier. Where there is one, the worker is
/// busy and claims it: the first claim of a URL is a visit, any other a
/// revisit. Where there is none, the worker is idle, and has finished if no
/// worker is busy.
pub open spec fn step_of(worker: WorkerView, crawl: CrawlView) -> Stepped {
    if worker.phase is Done {
        Stepped { worker, crawl, step: StepView::Done }
    } else {
        match next_of(crawl.frontier, crawl.is_bfs) {
            Some(url) => {
                let after = CrawlView {
                    frontier: after_pop(crawl.frontier, crawl.is_bfs),
                    counts: after_claim(crawl.counts, url),
                    active: active_with(worker, crawl),
                    ..crawl
                };
                if is_first_claim(crawl.counts, url) {
                    Stepped {
                        worker: WorkerView { phase: Phase::Busy, visiting: Some(url) },
                        crawl: after,
                        step: StepView::Visit(url),
                    }
                } else {
                    Stepped {
                        worker: WorkerView { phase: Phase::Busy, visiting: None },
                        crawl: after,
                        step: StepView::Revisit(url),
                    }
                }
            },
            None => {
                let active = active_without(worker, crawl);
                if active == 0 {
                    Stepped {
                        worker: WorkerView { phase: Phase::Done, visiting: None },
                        crawl: crawl.with_active(active),
                        step: StepView::Done,
                    }
                } else {
                    Stepped {
                        worker: WorkerView { phase: Phase::Idle, visiting: None },
                        crawl: crawl.with_active(active),
                        step: StepView::Idle(active),
                    }
                }
            },
        }
    }
}

/// The end of a visit: a worker that fetches a page offers its links to the
/// frontier and fetches no longer. Of any other worker no links are taken.
pub open spec fn visit_done(worker: WorkerView, crawl: CrawlView, links: Seq<Seq<char>>) -> (
    WorkerView,
    CrawlView,
) {
    if worker.visiting is Some {
        (WorkerView { visiting: None, ..worker }, crawl.after_links(links))
    } else {
        (worker, crawl)
    }
}

impl Worker {
    /// A worker at the start of a crawl. It counts as busy, for it has not
    /// looked at the frontier yet.
    pub fn new() -> (worker: Worker)
        ensures
            worker@ == (WorkerView { phase: Phase::Busy, visiting: None }),
    {
        Worker { phase: Phase::Busy, visiting: None }
    }

    /// Where the worker stands in its loop.
    pub fn phase(&self) -> (phase: Phase)
        ensures
            phase == self@.phase,
    {
        self.phase
    }

    /// Whether the worker counts as busy.
    pub fn is_active(&self) -> (active: bool)
        ensures
            active == (self@.phase is Busy),
    {
        match self.phase {
            Phase::Busy => true,
            _ => false,
        }
    }

    /// Whether the worker has left its loop.
    pub fn is_done(&self) -> (done: bool)
        ensures
            done == (self@.phase is Done),
    {
        match self.phase {
            Phase::Done => true,
            _ => false,
        }
    }

    /// The URL whose page the worker fetches, while it does.
    pub fn visiting(&self) -> (url: Option<String>)
        ensures
            opt_text(url) == self@.visiting,
    {
        self.visiting.clone()
    }

    /// Marks the worker as busy. Only an idle worker changes, and only then
    /// does the shared count grow.
    pub fn set_active(&mut self, state: &mut DfsState)
        requires
            old(self)@.phase is Idle ==> old(state)@.active < old(state)@.workers,
        ensures
            final(self)@ == (WorkerView {
                phase: phase_when_active(old(self)@.phase),
                ..old(self)@
            }),
            final(state)@ == old(state)@.with_active(active_with(old(self)@, old(state)@)),
    {
        if let Phase::Idle = self.phase {
            self.phase = Phase::Busy;
            state.mark_worker_active();
        }
    }

    /// Marks the worker as idle and gives the number of workers that are
    /// busy. Only a busy worker changes, and only then does the shared count
    /// shrink.
    pub fn check_activity(&mut self, state: &mut DfsState) -> (active: usize)
        requires
            old(self)@.phase is Busy ==> old(state)@.active > 0,
        ensures
            active == active_without(old(self)@, old(state)@),
            final(self)@ == (WorkerView {
                phase: phase_when_inactive(old(self)@.phase),
                ..old(self)@
            }),
            final(state)@ == old(state)@.with_active(active_without(old(self)@, old(state)@)),
    {
        if let Phase::Busy = self.phase {
            self.phase = Phase::Idle;
            state.mark_worker_inactive()
        } else {
            state.get_active_workers()
        }
    }

    /// One turn through the worker's loop: see [`step_of`].
    pub fn crawl(&mut self, state: &mut DfsState) -> (step: CrawlStep)
        requires
            fits(old(self)@, old(state)@),
        ensures
            (Stepped { worker: final(self)@, crawl: final(state)@, step: step@ }) == step_of(
                old(self)@,
                old(state)@,
            ),
    {
        if let Phase::Done = self.phase {
            return CrawlStep::Done;
        }
        self.visiting = None;
        match state.get_url() {
            Some(url) => {
                self.set_active(state);
                if state.try_claim(url.clone()) {
                    self.visiting = Some(url.clone());
                    CrawlStep::Visit(url)
                } else {
                    CrawlStep::Revisit(url)
                }
            },
            None => {
                let active: usize = self.check_activity(state);
                if active == 0 {
                    self.phase = Phase::Done;
                    CrawlStep::Done
                } else {
                    CrawlStep::Idle(active)
                }
            },
        }
    }

    /// Ends the worker's visit with the links that were found in the page:
    /// see [`visit_done`]. Gives the number of links that the frontier took.
    pub fn enqueue(&mut self, state: &mut DfsState, links: &Vec<String>) -> (taken: usize)
        ensures
            (final(self)@, final(state)@) == visit_done(old(self)@, old(state)@, texts(links@)),
            taken == final(state)@.frontier.len() - old(state)@.frontier.len(),
    {
        if self.visiting.is_some() {
            self.visiting = None;
            state.enqueue_links(links)
        } else {
            0
        }
    }

    /// Ends the worker's visit with the text of the page that was fetched:
    /// the links in it are offered to the frontier.
    pub fn new_visit(&mut self, state: &mut DfsState, body: &str) -> (taken: usize)
        ensures
            (final(self)@, final(state)@) == visit_done(old(self)@, old(state)@, links_in(body@)),
            taken == final(state)@.frontier.len() - old(state)@.frontier.len(),
    {
        let links: Vec<String> = extract_links(body);
        self.enqueue(state, &links)
    }
}

} // verus!
