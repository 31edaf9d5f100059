use site_counter::artifact::{artifact_name, artifact_name_from, MAX_STEM};

#[test]
fn the_protocol_is_stripped_and_separators_are_replaced() {
    assert_eq!(artifact_name("https://www.a-site.com/"), "www.a-site.com-.html");
    assert_eq!(artifact_name("http://abc.de/x/y/z"), "abc.de-x-y-z.html");
    assert_eq!(artifact_name("https://abc.de"), "abc.de.html");
}

#[test]
fn a_repeated_protocol_is_stripped_each_time() {
    assert_eq!(artifact_name("https://https://abc.de/"), "abc.de-.html");
    assert_eq!(artifact_name_from("ababab.de", Some("ab")), ".de.html");
}

#[test]
fn a_protocol_that_is_not_in_front_is_not_stripped() {
    assert_eq!(artifact_name("see https://abc.de/"), "see https:--abc.de-.html");
    assert_eq!(artifact_name_from("xhttps://abc.de", Some("https://")), "xhttps:--abc.de.html");
}

#[test]
fn without_a_protocol_nothing_is_stripped() {
    assert_eq!(artifact_name_from("https://abc.de/", None), "https:--abc.de-.html");
    assert_eq!(artifact_name("abc.de/x"), "abc.de-x.html");
    assert_eq!(artifact_name_from("abc", Some("")), "abc.html");
    assert_eq!(artifact_name_from("", Some("https://")), ".html");
}

#[test]
fn a_long_name_is_cut_to_the_maximum() {
    assert_eq!(MAX_STEM, 200);
    let url = format!("https://abc.de/{}", "x".repeat(300));
    let name = artifact_name(&url);
    let expected = format!("abc.de-{}.html", "x".repeat(193));
    assert_eq!(name, expected);
    assert_eq!(name.chars().count(), 205);
}

#[test]
fn a_name_of_exactly_the_maximum_is_kept() {
    let url = format!("https://{}", "y".repeat(200));
    assert_eq!(artifact_name(&url), format!("{}.html", "y".repeat(200)));
    let longer = format!("https://{}", "y".repeat(201));
    assert_eq!(artifact_name(&longer), format!("{}.html", "y".repeat(200)));
}

#[test]
fn the_cut_counts_characters_not_bytes() {
    let url = format!("https://abc.de/{}", "é".repeat(250));
    let name = artifact_name(&url);
    assert_eq!(name, format!("abc.de-{}.html", "é".repeat(193)));
}
