use linkchecker::address::Url;
use linkchecker::scope::{dedup_key, is_checkable, Scope};

fn url(s: &str) -> Url {
    Url::parse(s).unwrap()
}

#[test]
fn prefix_matches_whole_segments_only() {
    let scope = Scope::new(url("https://example.com/start"));
    assert!(scope.contains(&url("https://example.com/start")));
    assert!(scope.contains(&url("https://example.com/start/")));
    assert!(scope.contains(&url("https://example.com/start/about")));
    assert!(scope.contains(&url("https://example.com/start/a/b/c.png")));
    // the trap: /started is not underneath /start
    assert!(!scope.contains(&url("https://example.com/started")));
    assert!(!scope.contains(&url("https://example.com/startled/page")));
    assert!(!scope.contains(&url("https://example.com/other")));
    assert!(!scope.contains(&url("https://example.com/")));
}

#[test]
fn other_origins_are_never_in_scope() {
    let scope = Scope::new(url("https://example.com/start"));
    assert!(!scope.contains(&url("https://other.com/start/about")));
    assert!(!scope.contains(&url("http://example.com/start/about")));
    assert!(!scope.contains(&url("https://example.com:8443/start/about")));
}

#[test]
fn a_root_start_contains_everything_on_the_origin() {
    let scope = Scope::new(url("https://example.com/"));
    assert!(scope.contains(&url("https://example.com/anything/at/all")));
    assert!(!scope.contains(&url("https://other.com/anything")));
}

#[test]
fn fragments_collapse_but_trailing_slashes_do_not() {
    assert_eq!(
        dedup_key(&url("https://example.com/page#intro")),
        dedup_key(&url("https://example.com/page"))
    );
    assert_ne!(
        dedup_key(&url("https://example.com/page/")),
        dedup_key(&url("https://example.com/page"))
    );
    assert_ne!(
        dedup_key(&url("https://example.com/page?a=1")),
        dedup_key(&url("https://example.com/page"))
    );
}

#[test]
fn only_http_schemes_are_checkable() {
    assert!(is_checkable(&url("https://example.com/")));
    assert!(is_checkable(&url("http://example.com/")));
    assert!(!is_checkable(&url("mailto:me@example.com")));
    assert!(!is_checkable(&url("tel:+15551234")));
    assert!(!is_checkable(&url("javascript:void(0)")));
    assert!(!is_checkable(&url("data:text/plain,hi")));
}

#[test]
fn the_start_is_in_its_own_scope() {
    for start in ["https://example.com/start", "https://example.com/", "http://localhost:8080/a/b/"] {
        let scope = Scope::new(url(start));
        assert!(scope.contains(&url(start)));
        assert_eq!(scope.start().as_str(), url(start).as_str());
    }
}

#[test]
fn the_default_port_is_the_same_origin() {
    let scope = Scope::new(url("https://example.com/start"));
    assert!(scope.contains(&url("https://example.com:443/start/x")));
    assert!(!scope.contains(&url("https://EXAMPLE.com:80/start/x")));
    assert!(scope.contains(&url("HTTPS://EXAMPLE.COM/start/x")));
}

#[test]
fn a_trailing_slash_on_the_start_does_not_narrow_the_scope() {
    let scope = Scope::new(url("https://example.com/start/"));
    assert!(scope.contains(&url("https://example.com/start")));
    assert!(scope.contains(&url("https://example.com/start/deep/leaf")));
    assert!(!scope.contains(&url("https://example.com/starting")));
}

#[test]
fn a_dedup_key_keeps_the_query() {
    assert_eq!(dedup_key(&url("https://example.com/p?a=1#top")), "https://example.com/p?a=1");
}

#[test]
fn parsing_and_joining_give_the_serialization() {
    let base = url("https://example.com/start/index.html");
    assert_eq!(base.join("../up").unwrap().as_str(), "https://example.com/up");
    assert_eq!(base.scheme(), "https");
    assert_eq!(base.host_str(), Some("example.com"));
    assert_eq!(base.port_or_known_default(), Some(443));
    assert_eq!(
        base.path_segments().unwrap(),
        &vec!["start".to_string(), "index.html".to_string()]
    );
    assert!(Url::parse("not-a-url").is_err());
    assert!(url("data:text/plain,hi").path_segments().is_none());
}

#[test]
fn queries_fragments_and_empty_segments_do_not_change_scope() {
    let scope = Scope::new(Url::parse("https://example.com/start").unwrap());
    for inside in [
        "https://example.com/start/x?q=1#f",
        "https://example.com//start/x",
        "https://example.com/start//x/",
        "https://example.com/start?page=2",
    ] {
        assert!(scope.contains(&Url::parse(inside).unwrap()), "{inside}");
    }
    let with_query = Scope::new(Url::parse("https://example.com/start/?a=b#top").unwrap());
    assert!(with_query.contains(&Url::parse("https://example.com/start/deeper").unwrap()));
    assert!(!with_query.contains(&Url::parse("https://example.com/started").unwrap()));
}
