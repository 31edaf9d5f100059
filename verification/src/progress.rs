//! A crawl that has nothing left to do ends: once the frontier is empty and
//! no page is being fetched, the workers finish as soon as each has taken
//! two more turns.

use vstd::prelude::*;
use crate::crawl::step_of;
use crate::pool::{
    after_step, lemma_busy_none, lemma_step_keeps_wf, lemma_worker_fits, pool_finished, pool_wf,
    visits_at, PoolView,
};

verus! {

/// Whether nothing is left to do: no URL waits and no worker fetches a page,
/// so that the frontier stays empty.
pub open spec fn pool_quiet(pool: PoolView) -> bool {
    &&& pool.crawl.frontier.len() == 0
    &&& forall|id: int, url: Seq<char>| !visits_at(pool, id, url)
}

/// The pool after the workers with the numbers below `upto` took one turn
/// each, in the order of their numbers.
pub open spec fn after_round(pool: PoolView, upto: nat) -> PoolView
    decreases upto,
{
    if upto == 0 {
        pool
    } else {
        after_step(after_round(pool, (upto - 1) as nat), (upto - 1) as nat)
    }
}

/// In a quiet pool a worker's turn leaves the pool quiet and the worker not
/// busy, and touches no other worker. Where no worker was busy, the worker
/// has finished.
pub proof fn lemma_quiet_step(pool: PoolView, id: nat)
    requires
        pool_wf(pool),
        pool_quiet(pool),
        id < pool.workers.len(),
    ensures
        pool_wf(after_step(pool, id)),
        pool_quiet(after_step(pool, id)),
        after_step(pool, id).workers.len() == pool.workers.len(),
        !(after_step(pool, id).workers[id as int].phase is Busy),
        forall|other: int|
            0 <= other < pool.workers.len() && other != id ==> after_step(pool, id).workers[other]
                == pool.workers[other],
        pool.crawl.active == 0 ==> after_step(pool, id).crawl.active == 0 && after_step(
            pool,
            id,
        ).workers[id as int].phase is Done,
{
    let after = after_step(pool, id);
    let worker = pool.workers[id as int];
    let stepped = step_of(worker, pool.crawl);
    lemma_step_keeps_wf(pool, id);
    lemma_worker_fits(pool, id as int);
    lemma_busy_none(pool.workers);
    assert(after.workers[id as int] == stepped.worker);
    assert forall|other: int, url: Seq<char>| !visits_at(after, other, url) by {
        if visits_at(after, other, url) {
            if other != id {
                assert(visits_at(pool, other, url));
            } else {
                assert(visits_at(pool, id as int, url));
            }
        }
    }
}

/// In a quiet pool, after the workers below `upto` took a turn each, none of
/// them is busy, and the others are as they were.
pub proof fn lemma_round_idles(pool: PoolView, upto: nat)
    requires
        pool_wf(pool),
        pool_quiet(pool),
        upto <= pool.workers.len(),
    ensures
        pool_wf(after_round(pool, upto)),
        pool_quiet(after_round(pool, upto)),
        after_round(pool, upto).workers.len() == pool.workers.len(),
        forall|id: int|
            0 <= id < upto ==> !((#[trigger] after_round(pool, upto).workers[id]).phase is Busy),
        forall|id: int|
            upto <= id < pool.workers.len() ==> (#[trigger] after_round(pool, upto).workers[id])
                == pool.workers[id],
    decreases upto,
{
    if upto > 0 {
        let before = after_round(pool, (upto - 1) as nat);
        lemma_round_idles(pool, (upto - 1) as nat);
        lemma_quiet_step(before, (upto - 1) as nat);
        let after = after_round(pool, upto);
        assert forall|id: int| 0 <= id < upto implies !((
        #[trigger] after.workers[id]).phase is Busy) by {
            if id < upto - 1 {
                assert(after.workers[id] == before.workers[id]);
            }
        }
        assert forall|id: int| upto <= id < pool.workers.len() implies (
        #[trigger] after.workers[id]) == pool.workers[id] by {
            assert(after.workers[id] == before.workers[id]);
        }
    }
}

/// In a quiet pool in which no worker is busy, after the workers below
/// `upto` took a turn each, all of them have finished.
pub proof fn lemma_round_finishes(pool: PoolView, upto: nat)
    requires
        pool_wf(pool),
        pool_quiet(pool),
        pool.crawl.active == 0,
        upto <= pool.workers.len(),
    ensures
        pool_wf(after_round(pool, upto)),
        pool_quiet(after_round(pool, upto)),
        after_round(pool, upto).crawl.active == 0,
        after_round(pool, upto).workers.len() == pool.workers.len(),
        forall|id: int|
            0 <= id < upto ==> (#[trigger] after_round(pool, upto).workers[id]).phase is Done,
    decreases upto,
{
    if upto > 0 {
        let before = after_round(pool, (upto - 1) as nat);
        lemma_round_finishes(pool, (upto - 1) as nat);
        lemma_quiet_step(before, (upto - 1) as nat);
        let after = after_round(pool, upto);
        assert forall|id: int| 0 <= id < upto implies (
        #[trigger] after.workers[id]).phase is Done by {
            if id < upto - 1 {
                assert(after.workers[id] == before.workers[id]);
            }
        }
    }
}

/// No deadlock: a pool in which nothing is left to do has finished after
/// every worker took two turns. The first round leaves no worker busy, the
/// second lets each worker see that.
pub proof fn lemma_quiet_pool_finishes(pool: PoolView)
    requires
        pool_wf(pool),
        pool_quiet(pool),
    ensures
        pool_finished(after_round(after_round(pool, pool.workers.len()), pool.workers.len())),
{
    let n = pool.workers.len();
    let idle = after_round(pool, n);
    lemma_round_idles(pool, n);
    lemma_busy_none(idle.workers);
    lemma_round_finishes(idle, n);
}

} // verus!
