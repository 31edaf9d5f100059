use site_counter::syntax::{extract_links, find_protocol, is_valid_url};
use site_counter::text::chars_of;

#[test]
fn chars_of_gives_the_characters_in_order() {
    assert_eq!(chars_of("a/é"), vec!['a', '/', 'é']);
    assert_eq!(chars_of(""), Vec::<char>::new());
}

#[test]
fn a_link_ends_where_the_url_characters_end() {
    assert_eq!(
        extract_links("(https://abc.de/x_y?q=1)"),
        vec!["https://abc.de/x_y".to_string()]
    );
    assert_eq!(
        extract_links("https://abc.de,https://www.uvw.org/a.b"),
        vec!["https://abc.de".to_string(), "https://www.uvw.org/a.b".to_string()]
    );
}


#[test]
fn urls_with_a_protocol_and_a_domain_are_valid() {
    assert!(is_valid_url("https://www.a-site.com/"));
    assert!(is_valid_url("http://www.example.com"));
    assert!(is_valid_url("https://abc.de/path/to/page"));
    assert!(is_valid_url("see https://abc.de/ for more"));
}

#[test]
fn strings_without_the_url_syntax_are_not_valid() {
    assert!(!is_valid_url(""));
    assert!(!is_valid_url("not a url"));
    assert!(!is_valid_url("ftp://abc.de/"));
    assert!(!is_valid_url("https://"));
    assert!(!is_valid_url("www.a-site.com"));
    assert!(!is_valid_url("https://nodomain"));
}

#[test]
fn a_last_label_of_more_than_six_letters_is_not_valid() {
    assert!(!is_valid_url("https://a.example/"));
    assert!(!is_valid_url("https://b.example/"));
    assert!(is_valid_url("https://www.a.example.org/"));
}

#[test]
fn find_protocol_gives_the_leftmost_protocol() {
    assert_eq!(find_protocol("https://www.a-site.com/"), Some("https://".to_string()));
    assert_eq!(find_protocol("http://www.a-site.com/"), Some("http://".to_string()));
    assert_eq!(find_protocol("xx http://a https://b"), Some("http://".to_string()));
    assert_eq!(find_protocol("www.a-site.com"), None);
    assert_eq!(find_protocol(""), None);
}

#[test]
fn extract_links_finds_the_links_in_order() {
    let body = "<a href=\"https://www.b-site.com/\">b</a> and <a href=\"https://www.a-site.com/x\">a</a>";
    assert_eq!(
        extract_links(body),
        vec!["https://www.b-site.com/".to_string(), "https://www.a-site.com/x".to_string()]
    );
}

#[test]
fn extract_links_keeps_repeated_links() {
    let body = "https://abc.de/ https://abc.de/ http://abc.de/";
    assert_eq!(
        extract_links(body),
        vec!["https://abc.de/".to_string(), "https://abc.de/".to_string(), "http://abc.de/".to_string()]
    );
}

#[test]
fn extract_links_of_a_text_without_links_is_empty() {
    assert_eq!(extract_links("nothing to see here"), Vec::<String>::new());
    assert_eq!(extract_links(""), Vec::<String>::new());
}
