use linkchecker::cli::{start_url, Invocation};

fn args(list: &[&str]) -> Vec<String> {
    list.iter().map(|a| a.to_string()).collect()
}

#[test]
fn the_start_url_is_the_only_argument() {
    match start_url(&args(&["https://example.com/start"])) {
        Ok(Invocation::Check(url)) => assert_eq!(url.as_str(), "https://example.com/start"),
        other => panic!("unexpected {other:?}"),
    }
}

#[test]
fn refusals_explain_themselves() {
    assert_eq!(start_url(&args(&[])).unwrap_err(), "missing the starting URL");
    assert_eq!(
        start_url(&args(&["https://a.com/", "https://b.com/"])).unwrap_err(),
        "expected exactly one starting URL"
    );
    let complaint = start_url(&args(&["not-a-url"])).unwrap_err();
    assert!(complaint.starts_with("\"not-a-url\" is not a URL: "), "{complaint}");
    assert_eq!(
        start_url(&args(&["mailto:me@example.com"])).unwrap_err(),
        "\"mailto:me@example.com\" is not an http or https URL"
    );
}

#[test]
fn help_comes_first() {
    assert!(matches!(start_url(&args(&["-h"])), Ok(Invocation::Help)));
    assert!(matches!(start_url(&args(&["--help", "extra"])), Ok(Invocation::Help)));
}
