use linkchecker::address::Url;
use linkchecker::extract::{base_from_elements, links_from_elements, element_reference, is_connection_hint, links, resolved_link, runs_script, Element, Kind};

fn base() -> Url {
    Url::parse("https://example.com/start/index.html").unwrap()
}

fn links_of(html: &str) -> Vec<String> {
    links(html, &base())
        .into_iter()
        .map(|link| link.url.as_str().to_string())
        .collect()
}

#[test]
fn finds_anchors_and_assets() {
    let found = links_of(
        r#"<html><head>
             <link rel="stylesheet" href="/css/main.css">
             <script src="app.js"></script>
           </head><body>
             <a href="/start/about">about</a>
             <a href="https://other.com/page">away</a>
             <img src="viz.png">
           </body></html>"#,
    );
    assert!(found.contains(&"https://example.com/css/main.css".to_string()));
    assert!(found.contains(&"https://example.com/start/app.js".to_string()));
    assert!(found.contains(&"https://example.com/start/about".to_string()));
    assert!(found.contains(&"https://other.com/page".to_string()));
    assert!(found.contains(&"https://example.com/start/viz.png".to_string()));
    assert_eq!(found.len(), 5);
}

#[test]
fn drops_unrequestable_schemes() {
    let found = links_of(
        r#"<a href="mailto:me@example.com">mail</a>
           <a href="tel:+15551234">call</a>
           <a href="javascript:void(0)">nothing</a>
           <img src="data:image/gif;base64,R0lGOD">
           <a href="/start/real">real</a>"#,
    );
    assert_eq!(found, vec!["https://example.com/start/real"]);
}

#[test]
fn resolves_relative_links_against_the_page() {
    let found = links_of(r##"<a href="../sibling">up</a><a href="#section">self</a>"##);
    assert_eq!(
        found,
        vec![
            "https://example.com/sibling",
            "https://example.com/start/index.html#section"
        ]
    );
}

#[test]
fn honours_a_base_href() {
    let found = links_of(
        r#"<head><base href="https://cdn.example.com/v2/"></head>
                            <body><a href="page">p</a></body>"#,
    );
    assert_eq!(found, vec!["https://cdn.example.com/v2/page"]);
}

#[test]
fn anchors_and_assets_are_told_apart() {
    let found = links(
        r#"<a href="/start/about">a</a><img src="viz.png"><script src="app.js"></script>"#,
        &base(),
    );
    let kinds: Vec<Kind> = found.iter().map(|link| link.kind).collect();
    assert_eq!(kinds, vec![Kind::Anchor, Kind::Asset, Kind::Asset]);
}

#[test]
fn only_pages_with_a_script_can_grow_links() {
    assert!(runs_script(
        r#"<div id="root"></div><script src="app.js"></script>"#
    ));
    assert!(runs_script("<script>document.write('x')</script>"));
    assert!(!runs_script("<html><body><p>bottom</p></body></html>"));
}

#[test]
fn connection_hints_are_not_links() {
    // preconnect and dns-prefetch name an origin to warm up, not a
    // resource to fetch; their path is meaningless and often "/".
    let found = links_of(
        r#"<link rel="preconnect" href="/" crossorigin>
           <link rel="dns-prefetch" href="https://fonts.gstatic.com/">
           <link rel="preload" as="image" href="/start/logo.svg">
           <link rel="stylesheet" href="/start/main.css">"#,
    );
    assert_eq!(
        found,
        vec![
            "https://example.com/start/logo.svg",
            "https://example.com/start/main.css"
        ]
    );
}

#[test]
fn a_page_with_no_links_yields_none() {
    assert!(links_of("<html><body><p>nothing here</p></body></html>").is_empty());
}

#[test]
fn references_are_trimmed_and_kinds_come_in_selector_order() {
    let found = links(
        "<img src='  pic.png\n'><a href=' /start/x '>x</a><link href='s.css'>",
        &base(),
    );
    let seen: Vec<(String, Kind)> = found
        .into_iter()
        .map(|link| (link.url.as_str().to_string(), link.kind))
        .collect();
    assert_eq!(
        seen,
        vec![
            ("https://example.com/start/x".to_string(), Kind::Anchor),
            ("https://example.com/start/s.css".to_string(), Kind::Asset),
            ("https://example.com/start/pic.png".to_string(), Kind::Asset),
        ]
    );
}

#[test]
fn connection_hints_are_matched_by_word_and_ignoring_case() {
    let found = links_of(
        r#"<link rel="Stylesheet  PRECONNECT" href="/a">
           <link rel="preconnected" href="/start/b">
           <a rel="preconnect" href="/start/c">c</a>"#,
    );
    assert_eq!(
        found,
        vec!["https://example.com/start/c", "https://example.com/start/b"]
    );
}

fn element(name: &str, values: &[Option<&str>]) -> Element {
    Element {
        name: name.to_string(),
        values: values.iter().map(|v| v.map(str::to_string)).collect(),
    }
}

#[test]
fn an_element_references_its_trimmed_attribute_unless_it_is_a_hint() {
    assert_eq!(element_reference(&element("a", &[Some("  /x \t"), Some("preconnect")])), Some("/x".to_string()));
    assert_eq!(element_reference(&element("link", &[Some("/x"), Some("preconnect")])), None);
    assert_eq!(element_reference(&element("link", &[Some("/x"), Some("dns-prefetch icon")])), None);
    assert_eq!(element_reference(&element("link", &[Some("/x"), Some("stylesheet")])), Some("/x".to_string()));
    assert_eq!(element_reference(&element("img", &[None, None])), None);
    assert_eq!(element_reference(&element("img", &[])), None);
    assert!(is_connection_hint(&element("link", &[None, Some("\tPreConnect\n")])));
    assert!(!is_connection_hint(&element("link", &[None, None])));
}

#[test]
fn only_requestable_resolutions_become_links() {
    let kept = resolved_link(Url::parse("https://example.com/a"), Kind::Asset).unwrap();
    assert_eq!(kept.url.as_str(), "https://example.com/a");
    assert_eq!(kept.kind, Kind::Asset);
    assert!(resolved_link(Url::parse("mailto:me@example.com"), Kind::Anchor).is_none());
    assert!(resolved_link(Err("relative URL without a base".to_string()), Kind::Anchor).is_none());
}

#[test]
fn links_from_given_elements() {
    let elements = vec![
        element("a", &[Some(" next "), None]),
        element("link", &[Some("/"), Some("preconnect")]),
        element("a", &[Some("mailto:x@example.com"), None]),
        element("a", &[None, None]),
        element("a", &[Some("https://other.com/p"), None]),
    ];
    let found: Vec<String> = links_from_elements(&elements, &base(), Kind::Anchor)
        .into_iter()
        .map(|l| l.url.as_str().to_string())
        .collect();
    assert_eq!(found, vec!["https://example.com/start/next", "https://other.com/p"]);
}

#[test]
fn the_base_from_given_elements() {
    let fallback = base();
    let b = base_from_elements(&vec![element("base", &[Some("/v2/")]), element("base", &[Some("/v3/")])], &fallback);
    assert_eq!(b.as_str(), "https://example.com/v2/");
    let b = base_from_elements(&vec![], &fallback);
    assert_eq!(b.as_str(), "https://example.com/start/index.html");
    let b = base_from_elements(&vec![element("base", &[None])], &fallback);
    assert_eq!(b.as_str(), "https://example.com/start/index.html");
    let b = base_from_elements(&vec![element("base", &[Some("http://[::1")])], &fallback);
    assert_eq!(b.as_str(), "https://example.com/start/index.html");
}
