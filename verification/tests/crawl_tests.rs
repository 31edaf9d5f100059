use site_counter::crawl::{CrawlStep, DfsState, Phase, Worker};

fn url(name: &str) -> String {
    format!("https://www.{}-site.com/", name)
}

fn counts(state: &DfsState) -> Vec<(String, u64)> {
    let mut entries: Vec<(String, u64)> = state
        .snapshot()
        .into_iter()
        .map(|(url, count)| (url, count.to_u64().unwrap()))
        .collect();
    entries.sort();
    entries
}

#[test]
fn a_new_state_counts_every_worker_as_busy() {
    let mut state = DfsState::new(4, false);
    assert_eq!(state.get_active_workers(), 4);
    assert_eq!(state.num_workers(), 4);
    assert_eq!(state.frontier_len(), 0);
    assert_eq!(state.get_url(), None);
    assert!(state.snapshot().is_empty());
}

#[test]
fn append_url_filters_by_syntax() {
    let mut state = DfsState::new(1, true);
    assert!(state.append_url(url("a")));
    assert!(!state.append_url("not a url".to_string()));
    assert!(!state.append_url("not a url".to_string()));
    assert_eq!(state.frontier_len(), 1);
    assert_eq!(state.get_url(), Some(url("a")));
    assert_eq!(state.get_url(), None);
}

#[test]
fn get_url_follows_the_traversal_mode() {
    let mut bfs = DfsState::new(1, true);
    let mut dfs = DfsState::new(1, false);
    for name in ["a", "b", "c"] {
        bfs.append_url(url(name));
        dfs.append_url(url(name));
    }
    assert_eq!(bfs.get_url(), Some(url("a")));
    assert_eq!(bfs.get_url(), Some(url("b")));
    assert_eq!(bfs.get_url(), Some(url("c")));
    assert_eq!(dfs.get_url(), Some(url("c")));
    assert_eq!(dfs.get_url(), Some(url("b")));
    assert_eq!(dfs.get_url(), Some(url("a")));
}

#[test]
fn the_busy_count_goes_down_and_up_by_one() {
    let mut state = DfsState::new(3, false);
    assert_eq!(state.mark_worker_inactive(), 2);
    assert_eq!(state.mark_worker_inactive(), 1);
    assert_eq!(state.get_active_workers(), 1);
    state.mark_worker_active();
    assert_eq!(state.get_active_workers(), 2);
    assert_eq!(state.mark_worker_inactive(), 1);
    assert_eq!(state.mark_worker_inactive(), 0);
}

#[test]
fn try_claim_is_true_once_per_url() {
    let mut state = DfsState::new(1, false);
    assert!(!state.is_visited(&url("a")));
    assert!(state.try_claim(url("a")));
    assert!(state.is_visited(&url("a")));
    assert!(!state.try_claim(url("a")));
    assert!(state.try_claim(url("b")));
    assert!(!state.try_claim(url("a")));
    assert_eq!(counts(&state), vec![(url("a"), 3), (url("b"), 1)]);
}

#[test]
fn enqueue_links_takes_new_urls_only() {
    let mut state = DfsState::new(1, true);
    state.try_claim(url("a"));
    let links = vec![
        url("b"),
        url("a"),
        "not a url".to_string(),
        url("c"),
        url("b"),
    ];
    assert_eq!(state.enqueue_links(&links), 3);
    assert_eq!(state.frontier_len(), 3);
    assert_eq!(state.get_url(), Some(url("b")));
    assert_eq!(state.get_url(), Some(url("c")));
    assert_eq!(state.get_url(), Some(url("b")));
    assert_eq!(state.get_url(), None);
    assert_eq!(state.enqueue_links(&Vec::new()), 0);
}

#[test]
fn a_new_worker_is_busy() {
    let worker = Worker::new();
    assert_eq!(worker.phase(), Phase::Busy);
    assert!(worker.is_active());
    assert!(!worker.is_done());
    assert_eq!(worker.visiting(), None);
}

#[test]
fn check_activity_decrements_once() {
    let mut state = DfsState::new(2, false);
    let mut worker = Worker::new();
    assert_eq!(worker.check_activity(&mut state), 1);
    assert_eq!(worker.phase(), Phase::Idle);
    assert_eq!(worker.check_activity(&mut state), 1);
    assert_eq!(worker.check_activity(&mut state), 1);
    assert_eq!(state.get_active_workers(), 1);
}

#[test]
fn set_active_increments_once() {
    let mut state = DfsState::new(2, false);
    let mut worker = Worker::new();
    worker.set_active(&mut state);
    assert_eq!(state.get_active_workers(), 2);
    worker.check_activity(&mut state);
    assert_eq!(state.get_active_workers(), 1);
    worker.set_active(&mut state);
    worker.set_active(&mut state);
    assert_eq!(state.get_active_workers(), 2);
    assert_eq!(worker.phase(), Phase::Busy);
}

#[test]
fn crawl_visits_a_url_the_first_time_and_revisits_it_after() {
    let mut state = DfsState::new(1, true);
    let mut worker = Worker::new();
    state.append_url(url("a"));
    state.append_url(url("a"));
    assert_eq!(worker.crawl(&mut state), CrawlStep::Visit(url("a")));
    assert_eq!(worker.visiting(), Some(url("a")));
    assert_eq!(state.get_active_workers(), 1);
    assert_eq!(worker.crawl(&mut state), CrawlStep::Revisit(url("a")));
    assert_eq!(worker.visiting(), None);
    assert_eq!(counts(&state), vec![(url("a"), 2)]);
    assert_eq!(worker.crawl(&mut state), CrawlStep::Done);
    assert!(worker.is_done());
    assert_eq!(state.get_active_workers(), 0);
    assert_eq!(worker.crawl(&mut state), CrawlStep::Done);
}

#[test]
fn crawl_stays_idle_while_another_worker_is_busy() {
    let mut state = DfsState::new(2, false);
    let mut first = Worker::new();
    let mut second = Worker::new();
    assert_eq!(first.crawl(&mut state), CrawlStep::Idle(1));
    assert_eq!(first.crawl(&mut state), CrawlStep::Idle(1));
    assert_eq!(first.phase(), Phase::Idle);
    assert_eq!(second.crawl(&mut state), CrawlStep::Done);
    assert_eq!(first.crawl(&mut state), CrawlStep::Done);
    assert_eq!(state.get_active_workers(), 0);
}

#[test]
fn an_idle_worker_turns_busy_when_work_arrives() {
    let mut state = DfsState::new(2, false);
    let mut first = Worker::new();
    assert_eq!(first.crawl(&mut state), CrawlStep::Idle(1));
    state.append_url(url("a"));
    assert_eq!(first.crawl(&mut state), CrawlStep::Visit(url("a")));
    assert_eq!(first.phase(), Phase::Busy);
    assert_eq!(state.get_active_workers(), 2);
}

#[test]
fn new_visit_enqueues_the_links_of_the_page() {
    let mut state = DfsState::new(1, true);
    let mut worker = Worker::new();
    state.append_url(url("a"));
    assert_eq!(worker.crawl(&mut state), CrawlStep::Visit(url("a")));
    let body = format!("<a href=\"{}\">b</a> <a href=\"{}\">a</a> <a href=\"{}\">c</a>", url("b"), url("a"), url("c"));
    assert_eq!(worker.new_visit(&mut state, &body), 2);
    assert_eq!(worker.visiting(), None);
    assert_eq!(state.frontier_len(), 2);
    assert_eq!(worker.new_visit(&mut state, &body), 0);
    assert_eq!(state.frontier_len(), 2);
    assert_eq!(worker.crawl(&mut state), CrawlStep::Visit(url("b")));
    assert_eq!(worker.enqueue(&mut state, &vec![url("d")]), 1);
    assert_eq!(worker.enqueue(&mut state, &vec![url("e")]), 0);
}

#[test]
fn a_visit_that_is_not_ended_is_given_up() {
    let mut state = DfsState::new(1, true);
    let mut worker = Worker::new();
    state.append_url(url("a"));
    state.append_url(url("b"));
    assert_eq!(worker.crawl(&mut state), CrawlStep::Visit(url("a")));
    assert_eq!(worker.crawl(&mut state), CrawlStep::Visit(url("b")));
    assert_eq!(worker.visiting(), Some(url("b")));
    assert_eq!(worker.crawl(&mut state), CrawlStep::Done);
    assert_eq!(worker.visiting(), None);
    assert_eq!(counts(&state), vec![(url("a"), 1), (url("b"), 1)]);
}
