use site_counter::artifact::artifact_name;
use site_counter::backpressure::{Monitor, Watch};
use site_counter::crawl::{CrawlStep, Phase};
use site_counter::pool::{CrawlError, Pool};
use site_counter::syntax::extract_links;
use std::collections::HashMap;

const A: &str = "https://www.a-site.com/";
const B: &str = "https://www.b-site.com/";
const C: &str = "https://www.c-site.com/";
const D: &str = "https://www.d-site.com/";

fn page(links: &[&str]) -> String {
    let mut body = String::from("<html>");
    for link in links {
        body.push_str(&format!("<a href=\"{}\">link</a> ", link));
    }
    body.push_str("</html>");
    body
}

fn counts(pool: &Pool) -> Vec<(String, u64)> {
    let mut entries: Vec<(String, u64)> = pool
        .state()
        .snapshot()
        .into_iter()
        .map(|(url, count)| (url, count.to_u64().unwrap()))
        .collect();
    entries.sort();
    entries
}

struct Run {
    fetched: Vec<String>,
    stored: Vec<String>,
    cancelled: bool,
}

// Drives the pool with the workers taking turns in the order of their
// numbers. A page that the web does not hold fails to load. After each page
// that was stored the monitor, if there is one, measures the store.
fn run(pool: &mut Pool, web: &HashMap<String, String>, monitor: Option<Monitor>) -> Run {
    let mut outcome = Run { fetched: Vec::new(), stored: Vec::new(), cancelled: false };
    let mut size: u64 = 0;
    let mut turns = 0;
    while !pool.is_finished() {
        turns += 1;
        assert!(turns < 10_000);
        for id in 0..pool.num_workers() {
            match pool.step(id) {
                Some(CrawlStep::Visit(url)) => {
                    outcome.fetched.push(url.clone());
                    if let Some(body) = web.get(&url) {
                        outcome.stored.push(artifact_name(&url));
                        size += body.len() as u64;
                        pool.new_visit(id, body);
                        if let Some(watch) = monitor {
                            if watch.observe(size) == Watch::Cancel {
                                outcome.cancelled = true;
                                return outcome;
                            }
                        }
                    }
                }
                Some(_) => {}
                None => panic!("the pool has a worker for each number below its size"),
            }
        }
    }
    outcome
}

fn web_of(pages: &[(&str, &[&str])]) -> HashMap<String, String> {
    pages.iter().map(|(url, links)| (url.to_string(), page(links))).collect()
}

#[test]
fn a_malformed_seed_is_refused() {
    assert_eq!(Pool::start(2, true, "not a url".to_string()).err(), Some(CrawlError::MalformedSeed));
    assert_eq!(Pool::start(2, false, String::new()).err(), Some(CrawlError::MalformedSeed));
    assert_eq!(
        Pool::start(1, true, "https://a.example/".to_string()).err(),
        Some(CrawlError::MalformedSeed)
    );
}

#[test]
fn the_error_says_what_went_wrong() {
    assert_eq!(
        CrawlError::MalformedSeed.message(),
        "the seed is not a URL that can be crawled"
    );
}

#[test]
fn a_pool_starts_with_the_seed_and_busy_workers() {
    let pool = Pool::start(3, false, A.to_string()).unwrap();
    assert_eq!(pool.num_workers(), 3);
    assert_eq!(pool.state().frontier_len(), 1);
    assert_eq!(pool.state().get_active_workers(), 3);
    assert!(!pool.is_finished());
    for id in 0..3 {
        assert_eq!(pool.phase(id), Some(Phase::Busy));
    }
    assert_eq!(pool.phase(3), None);
    assert!(counts(&pool).is_empty());
}

#[test]
fn end_to_end_single_worker_breadth_first() {
    let web = web_of(&[(A, &[B, A]), (B, &[])]);
    let mut pool = Pool::start(1, true, A.to_string()).unwrap();
    let outcome = run(&mut pool, &web, None);
    assert_eq!(outcome.fetched, vec![A.to_string(), B.to_string()]);
    assert_eq!(
        outcome.stored,
        vec!["www.a-site.com-.html".to_string(), "www.b-site.com-.html".to_string()]
    );
    assert!(!outcome.cancelled);
    assert_eq!(counts(&pool), vec![(A.to_string(), 1), (B.to_string(), 1)]);
    assert_eq!(pool.state().frontier_len(), 0);
    assert_eq!(pool.state().get_active_workers(), 0);
    assert!(pool.is_finished());
}

#[test]
fn a_url_that_was_found_twice_is_counted_twice_and_fetched_once() {
    let web = web_of(&[(A, &[B, B, C]), (B, &[C]), (C, &[])]);
    let mut pool = Pool::start(1, true, A.to_string()).unwrap();
    let outcome = run(&mut pool, &web, None);
    assert_eq!(outcome.fetched, vec![A.to_string(), B.to_string(), C.to_string()]);
    assert_eq!(
        counts(&pool),
        vec![(A.to_string(), 1), (B.to_string(), 2), (C.to_string(), 2)]
    );
    assert_eq!(pool.state().frontier_len(), 0);
}

#[test]
fn breadth_first_visits_level_by_level() {
    let web = web_of(&[(A, &[B, C]), (B, &[D]), (C, &[]), (D, &[])]);
    let mut pool = Pool::start(1, true, A.to_string()).unwrap();
    let outcome = run(&mut pool, &web, None);
    assert_eq!(
        outcome.fetched,
        vec![A.to_string(), B.to_string(), C.to_string(), D.to_string()]
    );
}

#[test]
fn depth_first_visits_the_latest_link_first() {
    let web = web_of(&[(A, &[B, C]), (B, &[]), (C, &[D]), (D, &[])]);
    let mut pool = Pool::start(1, false, A.to_string()).unwrap();
    let outcome = run(&mut pool, &web, None);
    assert_eq!(
        outcome.fetched,
        vec![A.to_string(), C.to_string(), D.to_string(), B.to_string()]
    );
}

#[test]
fn a_failed_fetch_counts_as_a_visit_without_links() {
    let web = web_of(&[(A, &[B, C]), (C, &[])]);
    let mut pool = Pool::start(1, true, A.to_string()).unwrap();
    let outcome = run(&mut pool, &web, None);
    assert_eq!(outcome.fetched, vec![A.to_string(), B.to_string(), C.to_string()]);
    assert_eq!(
        outcome.stored,
        vec!["www.a-site.com-.html".to_string(), "www.c-site.com-.html".to_string()]
    );
    assert_eq!(
        counts(&pool),
        vec![(A.to_string(), 1), (B.to_string(), 1), (C.to_string(), 1)]
    );
    assert!(pool.is_finished());
}

#[test]
fn several_workers_visit_everything_that_can_be_reached() {
    let web = web_of(&[(A, &[B, C]), (B, &[C, D]), (C, &[]), (D, &[A, "not a url"])]);
    for workers in 1..5 {
        for is_bfs in [true, false] {
            let mut pool = Pool::start(workers, is_bfs, A.to_string()).unwrap();
            let outcome = run(&mut pool, &web, None);
            let mut fetched = outcome.fetched.clone();
            fetched.sort();
            assert_eq!(fetched, vec![A.to_string(), B.to_string(), C.to_string(), D.to_string()]);
            let visited: Vec<String> = counts(&pool).into_iter().map(|(url, _)| url).collect();
            assert_eq!(visited, vec![A.to_string(), B.to_string(), C.to_string(), D.to_string()]);
            assert!(counts(&pool).iter().all(|(_, count)| *count >= 1));
            assert!(pool.is_finished());
            assert_eq!(pool.state().frontier_len(), 0);
            assert_eq!(pool.state().get_active_workers(), 0);
        }
    }
}

#[test]
fn no_worker_finishes_while_a_url_waits() {
    let mut pool = Pool::start(2, true, A.to_string()).unwrap();
    assert_eq!(pool.step(0), Some(CrawlStep::Visit(A.to_string())));
    assert_eq!(pool.step(1), Some(CrawlStep::Idle(1)));
    assert_eq!(pool.phase(1), Some(Phase::Idle));
    assert_eq!(pool.new_visit(0, &page(&[B, C])), 2);
    assert_eq!(pool.step(1), Some(CrawlStep::Visit(B.to_string())));
    assert_eq!(pool.state().get_active_workers(), 2);
    assert_eq!(pool.step(0), Some(CrawlStep::Visit(C.to_string())));
    assert_eq!(pool.step(0), Some(CrawlStep::Idle(1)));
    assert!(!pool.is_finished());
    assert_eq!(pool.step(0), Some(CrawlStep::Idle(1)));
    assert_eq!(pool.step(1), Some(CrawlStep::Done));
    assert_eq!(pool.state().frontier_len(), 0);
    assert!(!pool.is_finished());
    assert_eq!(pool.step(0), Some(CrawlStep::Done));
    assert!(pool.is_finished());
    assert_eq!(pool.step(0), Some(CrawlStep::Done));
}

#[test]
fn a_quiet_pool_finishes_within_two_rounds() {
    let mut pool = Pool::start(3, false, A.to_string()).unwrap();
    assert_eq!(pool.step(2), Some(CrawlStep::Visit(A.to_string())));
    assert_eq!(pool.new_visit(2, "no links"), 0);
    for id in 0..3 {
        assert!(pool.step(id).is_some());
    }
    assert_eq!(pool.state().get_active_workers(), 0);
    for id in 0..3 {
        assert_eq!(pool.step(id), Some(CrawlStep::Done));
    }
    assert!(pool.is_finished());
}

#[test]
fn a_pool_without_workers_has_finished_at_once() {
    let mut pool = Pool::start(0, true, A.to_string()).unwrap();
    assert!(pool.is_finished());
    assert_eq!(pool.state().frontier_len(), 1);
    assert_eq!(pool.step(0), None);
    assert_eq!(pool.enqueue_links(0, &vec![B.to_string()]), 0);
    assert_eq!(pool.state().frontier_len(), 1);
}

#[test]
fn links_are_taken_from_a_visiting_worker_only() {
    let mut pool = Pool::start(2, true, A.to_string()).unwrap();
    assert_eq!(pool.enqueue_links(0, &vec![B.to_string()]), 0);
    assert_eq!(pool.step(0), Some(CrawlStep::Visit(A.to_string())));
    assert_eq!(pool.enqueue_links(1, &vec![B.to_string()]), 0);
    assert_eq!(pool.enqueue_links(7, &vec![B.to_string()]), 0);
    let links = extract_links(&page(&[B, A, "nonsense", C]));
    assert_eq!(pool.enqueue_links(0, &links), 2);
    assert_eq!(pool.enqueue_links(0, &links), 0);
    assert_eq!(pool.state().frontier_len(), 2);
}

#[test]
fn the_budget_ends_the_crawl_before_everything_is_processed() {
    let web = web_of(&[(A, &[B]), (B, &[C]), (C, &[D]), (D, &[])]);
    let sizes: Vec<u64> = [A, B, C, D].iter().map(|url| web[*url].len() as u64).collect();
    let total: u64 = sizes.iter().sum();
    let budget = sizes[0] + sizes[1];
    assert!(budget < total);
    let mut pool = Pool::start(1, true, A.to_string()).unwrap();
    let outcome = run(&mut pool, &web, Some(Monitor::new(budget)));
    assert!(outcome.cancelled);
    assert_eq!(outcome.fetched, vec![A.to_string(), B.to_string()]);
    assert_eq!(Monitor::new(budget).cancels_at(&vec![sizes[0], sizes[0] + sizes[1]]), Some(1));
    assert!(!pool.is_finished());
    assert_eq!(counts(&pool), vec![(A.to_string(), 1), (B.to_string(), 1)]);
    assert_eq!(pool.state().frontier_len(), 1);
}

#[test]
fn a_budget_above_the_total_lets_the_crawl_end_by_itself() {
    let web = web_of(&[(A, &[B]), (B, &[C]), (C, &[D]), (D, &[])]);
    let total: u64 = web.values().map(|body| body.len() as u64).sum();
    let mut pool = Pool::start(1, false, A.to_string()).unwrap();
    let outcome = run(&mut pool, &web, Some(Monitor::new(total + 1)));
    assert!(!outcome.cancelled);
    assert_eq!(outcome.fetched.len(), 4);
    assert!(pool.is_finished());
}
