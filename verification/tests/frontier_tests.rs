use site_counter::frontier::Frontier;

fn url(name: &str) -> String {
    format!("https://www.{}-site.com/", name)
}

#[test]
fn a_new_frontier_is_empty() {
    let mut frontier = Frontier::new(true);
    assert!(frontier.is_empty());
    assert_eq!(frontier.len(), 0);
    assert!(frontier.is_bfs());
    assert_eq!(frontier.pop(), None);
    assert!(!Frontier::new(false).is_bfs());
}

#[test]
fn breadth_first_pops_in_insertion_order() {
    let mut frontier = Frontier::new(true);
    assert!(frontier.push(url("a")));
    assert!(frontier.push(url("b")));
    assert!(frontier.push(url("c")));
    assert_eq!(frontier.len(), 3);
    assert_eq!(frontier.pop(), Some(url("a")));
    assert_eq!(frontier.pop(), Some(url("b")));
    assert!(frontier.push(url("d")));
    assert_eq!(frontier.pop(), Some(url("c")));
    assert_eq!(frontier.pop(), Some(url("d")));
    assert_eq!(frontier.pop(), None);
}

#[test]
fn depth_first_pops_the_most_recent_push() {
    let mut frontier = Frontier::new(false);
    assert!(frontier.push(url("a")));
    assert!(frontier.push(url("b")));
    assert!(frontier.push(url("c")));
    assert_eq!(frontier.pop(), Some(url("c")));
    assert!(frontier.push(url("d")));
    assert_eq!(frontier.pop(), Some(url("d")));
    assert_eq!(frontier.pop(), Some(url("b")));
    assert_eq!(frontier.pop(), Some(url("a")));
    assert_eq!(frontier.pop(), None);
}

#[test]
fn the_same_url_may_wait_twice() {
    let mut frontier = Frontier::new(true);
    assert!(frontier.push(url("a")));
    assert!(frontier.push(url("a")));
    assert_eq!(frontier.len(), 2);
    assert_eq!(frontier.pop(), Some(url("a")));
    assert_eq!(frontier.pop(), Some(url("a")));
    assert!(frontier.is_empty());
}

#[test]
fn a_malformed_string_never_enters() {
    let mut frontier = Frontier::new(false);
    assert!(frontier.push(url("a")));
    for _ in 0..5 {
        assert!(!frontier.push("not a url".to_string()));
        assert_eq!(frontier.len(), 1);
    }
    assert!(!frontier.push(String::new()));
    assert!(!frontier.push("https://a.example/".to_string()));
    assert_eq!(frontier.len(), 1);
    assert_eq!(frontier.pop(), Some(url("a")));
    assert_eq!(frontier.pop(), None);
}
