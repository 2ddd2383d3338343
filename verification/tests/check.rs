use reqwest::StatusCode;
use linkchecker::check::{head_settles, judge_get, opening_request, Method};
use linkchecker::check::{chain, classify, is_alive, is_html, looks_like_dns, root_cause, ErrorFacts, Failure};

#[test]
fn labels_read_as_a_column() {
    assert_eq!(Failure::Status(404).label(), "404");
    assert_eq!(Failure::Status(500).label(), "500");
    assert_eq!(Failure::Timeout.label(), "timeout");
    assert_eq!(Failure::Dns.label(), "DNS");
    assert_eq!(Failure::TooManyRedirects.label(), "redirects");
    assert_eq!(Failure::Render("x".into()).label(), "render");
}

#[test]
fn only_4xx_and_5xx_are_dead() {
    assert!(is_alive(StatusCode::OK.as_u16()));
    assert!(is_alive(StatusCode::NO_CONTENT.as_u16()));
    assert!(is_alive(StatusCode::MOVED_PERMANENTLY.as_u16()));
    assert!(!is_alive(StatusCode::NOT_FOUND.as_u16()));
    assert!(!is_alive(StatusCode::INTERNAL_SERVER_ERROR.as_u16()));
}

#[test]
fn the_edges_of_the_dead_range() {
    assert!(is_alive(399));
    assert!(!is_alive(400));
    assert!(!is_alive(599));
    assert!(is_alive(600));
    assert!(is_alive(0));
}

#[test]
fn every_label_and_detail() {
    assert_eq!(Failure::Status(7).label(), "7");
    assert_eq!(Failure::Status(65535).label(), "65535");
    assert_eq!(Failure::Connect.label(), "refused");
    assert_eq!(Failure::Other("boom".into()).label(), "error");
    assert_eq!(Failure::Other("boom".into()).detail(), Some("boom"));
    assert_eq!(Failure::Render("slow".into()).detail(), Some("slow"));
    assert_eq!(Failure::Dns.detail(), None);
    assert_eq!(Failure::Status(404).detail(), None);
}

fn facts(timeout: bool, redirect: bool, connect: bool, status: Option<u16>, messages: &[&str]) -> ErrorFacts {
    ErrorFacts {
        timeout,
        redirect,
        connect,
        status,
        messages: messages.iter().map(|m| m.to_string()).collect(),
    }
}

#[test]
fn classification_goes_in_order() {
    assert_eq!(classify(&facts(true, true, true, Some(500), &["x"])), Failure::Timeout);
    assert_eq!(classify(&facts(false, true, true, Some(500), &["x"])), Failure::TooManyRedirects);
    assert_eq!(
        classify(&facts(false, false, true, None, &["error sending request", "dns error", "failed"])),
        Failure::Dns
    );
    assert_eq!(
        classify(&facts(false, false, true, None, &["error sending request", "Connection refused"])),
        Failure::Connect
    );
    assert_eq!(classify(&facts(false, false, false, Some(503), &["x"])), Failure::Status(503));
    assert_eq!(
        classify(&facts(false, false, false, None, &["outer", "middle", "deepest"])),
        Failure::Other("deepest".to_string())
    );
    assert_eq!(classify(&facts(false, false, false, None, &[])), Failure::Other(String::new()));
}

#[test]
fn dns_is_told_apart_by_its_message() {
    assert!(looks_like_dns("error trying to connect: DNS error"));
    assert!(looks_like_dns("Failed to lookup address information"));
    assert!(looks_like_dns("Name or service not known"));
    assert!(looks_like_dns("nodename nor servname provided, or not known"));
    assert!(!looks_like_dns("connection refused"));
    assert!(!looks_like_dns(""));
}

#[test]
fn a_chain_joins_causes_and_the_root_is_the_last() {
    let messages = vec!["a".to_string(), "b".to_string(), "c".to_string()];
    assert_eq!(chain(&messages), "a: b: c");
    assert_eq!(root_cause(&messages), "c");
    assert_eq!(chain(&vec!["only".to_string()]), "only");
    assert_eq!(chain(&vec![]), "");
}

#[test]
fn only_html_content_is_read() {
    assert!(is_html(Some("text/html; charset=utf-8")));
    assert!(is_html(Some("TEXT/HTML")));
    assert!(is_html(Some("application/xhtml+xml")));
    assert!(!is_html(Some("image/png")));
    assert!(!is_html(Some("text/plain")));
    assert!(!is_html(Some(" text/html")));
    assert!(!is_html(None));
}

#[test]
fn which_requests_are_made_and_what_they_mean() {
    assert_eq!(opening_request(false), Method::Head);
    assert_eq!(opening_request(true), Method::Get);
    assert!(head_settles(Some(200)));
    assert!(head_settles(Some(204)));
    assert!(!head_settles(Some(301)));
    assert!(!head_settles(Some(405)));
    assert!(!head_settles(None));
    assert_eq!(judge_get(404, true, Some("text/html")), Err(Failure::Status(404)));
    assert_eq!(judge_get(503, false, None), Err(Failure::Status(503)));
    assert_eq!(judge_get(200, true, Some("text/html; charset=utf-8")), Ok(true));
    assert_eq!(judge_get(200, false, Some("text/html")), Ok(false));
    assert_eq!(judge_get(200, true, Some("image/png")), Ok(false));
    assert_eq!(judge_get(301, true, None), Ok(false));
}
