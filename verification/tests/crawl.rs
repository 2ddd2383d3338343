use linkchecker::address::Url;
use linkchecker::check::{Failure, Fetched};
use linkchecker::crawl::{add_rendered, after_render, leads_nowhere, read_page, Crawl, Job, Next, Page, CONCURRENCY};
use linkchecker::extract::{Kind, Link};
use linkchecker::render::Rendered;
use linkchecker::scope::Scope;

fn url(s: &str) -> Url {
    Url::parse(s).unwrap()
}

fn link(s: &str, kind: Kind) -> Link {
    Link { url: url(s), kind }
}

fn page(at: &str, links: Vec<Link>) -> Page {
    Page { final_url: url(at), links }
}

#[test]
fn a_crawl_starts_with_its_start_url() {
    let mut crawl = Crawl::new(Scope::new(url("https://example.com/start/")));
    assert!(!crawl.is_done());
    let job = crawl.next_job().expect("the start is queued");
    assert_eq!(job.url.as_str(), "https://example.com/start/");
    assert!(job.referrer.is_none());
    assert!(job.crawl);
    assert_eq!(crawl.in_flight(), 1);
    assert!(crawl.next_job().is_none());
    assert!(!crawl.is_done());
}

#[test]
fn each_url_is_requested_once_and_only_in_scope_pages_are_read() {
    let mut crawl = Crawl::new(Scope::new(url("https://example.com/start/")));
    let start = crawl.next_job().unwrap();
    crawl.record(
        start,
        Ok(Some(page(
            "https://example.com/start/",
            vec![
                link("https://example.com/start/about", Kind::Anchor),
                link("https://example.com/start/about#team", Kind::Anchor),
                link("https://example.com/start/", Kind::Anchor),
                link("https://example.com/outside", Kind::Anchor),
                link("https://other.com/page", Kind::Anchor),
                link("https://example.com/start/logo.png", Kind::Asset),
            ],
        ))),
    );
    let mut handed = Vec::new();
    while let Some(job) = crawl.next_job() {
        assert_eq!(job.referrer.as_ref().unwrap().as_str(), "https://example.com/start/");
        handed.push((job.url.as_str().to_string(), job.crawl));
    }
    assert_eq!(
        handed,
        vec![
            ("https://example.com/start/about".to_string(), true),
            ("https://example.com/outside".to_string(), false),
            ("https://other.com/page".to_string(), false),
            ("https://example.com/start/logo.png".to_string(), true),
        ]
    );
    assert_eq!(crawl.links_checked(), 1);
    assert_eq!(crawl.pages_crawled(), 1);
    assert_eq!(crawl.queued(), 0);
}

#[test]
fn failures_are_recorded_with_their_referrer_and_the_crawl_finishes() {
    let mut crawl = Crawl::new(Scope::new(url("https://example.com/start")));
    let start = crawl.next_job().unwrap();
    crawl.record(
        start,
        Ok(Some(page(
            "https://example.com/start",
            vec![link("https://example.com/start/dead", Kind::Anchor)],
        ))),
    );
    let dead = crawl.next_job().unwrap();
    crawl.record(dead, Err(Failure::Status(404)));
    assert!(crawl.is_done());
    let report = crawl.finish(Some("no browser".to_string()));
    assert_eq!(report.links_checked, 2);
    assert_eq!(report.pages_crawled, 1);
    assert_eq!(report.broken.len(), 1);
    assert_eq!(report.broken[0].url.as_str(), "https://example.com/start/dead");
    assert_eq!(report.broken[0].failure, Failure::Status(404));
    assert_eq!(report.broken[0].referrer.as_ref().unwrap().as_str(), "https://example.com/start");
    assert_eq!(report.render_unavailable.as_deref(), Some("no browser"));
    assert!(!report.is_clean());
}

#[test]
fn no_more_than_the_concurrency_limit_is_in_flight() {
    let mut crawl = Crawl::new(Scope::new(url("https://example.com/")));
    let start = crawl.next_job().unwrap();
    let links = (0..40)
        .map(|i| link(&format!("https://example.com/p/{i}"), Kind::Anchor))
        .collect();
    crawl.record(start, Ok(Some(page("https://example.com/", links))));
    let mut jobs = Vec::new();
    while let Some(job) = crawl.next_job() {
        jobs.push(job);
    }
    assert_eq!(jobs.len(), CONCURRENCY);
    let first = jobs.remove(0);
    assert_eq!(first.url.as_str(), "https://example.com/p/0");
    crawl.record(first, Ok(None));
    let next = crawl.next_job().unwrap();
    assert_eq!(next.url.as_str(), format!("https://example.com/p/{CONCURRENCY}"));
    assert!(crawl.next_job().is_none());
}

fn job(at: &str, crawl: bool) -> Job {
    Job { url: url(at), referrer: None, crawl }
}

#[test]
fn only_html_in_scope_is_read_for_links() {
    let scope = Scope::new(url("https://example.com/start/"));
    let html = r#"<a href="/start/next">n</a>"#.to_string();
    let out = read_page(
        &scope,
        &job("https://example.com/outside", false),
        Fetched { final_url: url("https://example.com/outside"), html: Some(html.clone()) },
    );
    assert!(matches!(out, Next::Finished(None)));
    let out = read_page(
        &scope,
        &job("https://example.com/start/a.png", true),
        Fetched { final_url: url("https://example.com/start/a.png"), html: None },
    );
    assert!(matches!(out, Next::Finished(None)));
    let out = read_page(
        &scope,
        &job("https://example.com/start/r", true),
        Fetched { final_url: url("https://example.com/start/moved/"), html: Some(r#"<a href="x">x</a>"#.to_string()) },
    );
    match out {
        Next::Finished(Some(page)) => {
            assert_eq!(page.final_url.as_str(), "https://example.com/start/moved/");
            assert_eq!(page.links.len(), 1);
            assert_eq!(page.links[0].url.as_str(), "https://example.com/start/moved/x");
        }
        other => panic!("unexpected {other:?}"),
    }
}

#[test]
fn a_page_that_leads_nowhere_but_runs_a_script_is_rendered() {
    let scope = Scope::new(url("https://example.com/app/"));
    let shell = r#"<div id="root"></div><script>go()</script><a href="/app/">home</a><a href="/else">x</a>"#;
    let out = read_page(
        &scope,
        &job("https://example.com/app/", true),
        Fetched { final_url: url("https://example.com/app/"), html: Some(shell.to_string()) },
    );
    let page = match out {
        Next::Render(page) => page,
        other => panic!("unexpected {other:?}"),
    };
    assert!(leads_nowhere(&page, &scope));
    let page = add_rendered(
        page,
        Rendered { final_url: url("https://example.com/app/home"), html: r#"<a href="one">1</a>"#.to_string() },
    );
    assert_eq!(page.final_url.as_str(), "https://example.com/app/home");
    let all: Vec<&str> = page.links.iter().map(|l| l.url.as_str()).collect();
    assert_eq!(all, vec!["https://example.com/app/", "https://example.com/else", "https://example.com/app/one"]);

    // A script-free leaf page is never rendered.
    let out = read_page(
        &scope,
        &job("https://example.com/app/leaf", true),
        Fetched { final_url: url("https://example.com/app/leaf"), html: Some("<p>leaf</p>".to_string()) },
    );
    assert!(matches!(out, Next::Finished(Some(_))));
}

#[test]
fn a_redirect_out_of_scope_is_not_read_for_links() {
    let scope = Scope::new(url("https://example.com/start/"));
    let out = read_page(
        &scope,
        &job("https://example.com/start/old", true),
        Fetched {
            final_url: url("https://example.com/elsewhere/new"),
            html: Some(r#"<a href="/start/next">n</a>"#.to_string()),
        },
    );
    assert!(matches!(out, Next::Finished(None)));
}

#[test]
fn what_rendering_comes_to() {
    let shell = || page("https://example.com/app/", vec![link("https://example.com/app/app.js", Kind::Asset)]);
    match after_render(shell(), None) {
        Ok(Some(p)) => {
            assert_eq!(p.final_url.as_str(), "https://example.com/app/");
            assert_eq!(p.links.len(), 1);
        }
        other => panic!("unexpected {other:?}"),
    }
    match after_render(shell(), Some(Err(Failure::Render("did not finish rendering within 20s".to_string())))) {
        Err(Failure::Render(message)) => assert_eq!(message, "did not finish rendering within 20s"),
        other => panic!("unexpected {other:?}"),
    }
    let rendered = Rendered { final_url: url("https://example.com/app/"), html: r#"<a href="one">1</a>"#.to_string() };
    match after_render(shell(), Some(Ok(rendered))) {
        Ok(Some(p)) => {
            let all: Vec<&str> = p.links.iter().map(|l| l.url.as_str()).collect();
            assert_eq!(all, vec!["https://example.com/app/app.js", "https://example.com/app/one"]);
        }
        other => panic!("unexpected {other:?}"),
    }
}

#[test]
fn a_job_is_in_flight_from_hand_out_to_record() {
    let mut crawl = Crawl::new(Scope::new(url("https://example.com/start/")));
    let probe = job("https://example.com/start/#top", true);
    assert!(!crawl.is_in_flight(&probe));
    let start = crawl.next_job().unwrap();
    assert!(crawl.is_in_flight(&start));
    assert!(crawl.is_in_flight(&probe));
    assert!(!crawl.is_in_flight(&job("https://example.com/start/other", true)));
    crawl.record(start, Ok(None));
    assert!(!crawl.is_in_flight(&probe));
    assert_eq!(crawl.in_flight(), 0);
    assert!(crawl.is_done());
}

#[test]
fn a_failure_is_reported_as_the_job_was_handed_out() {
    let mut crawl = Crawl::new(Scope::new(url("https://example.com/start")));
    let start = crawl.next_job().unwrap();
    crawl.record(
        start,
        Ok(Some(page("https://example.com/start", vec![link("https://example.com/start/dead", Kind::Anchor)]))),
    );
    let mut dead = crawl.next_job().unwrap();
    dead.referrer = None;
    crawl.record(dead, Err(Failure::Status(500)));
    let report = crawl.finish(None);
    assert_eq!(report.broken.len(), 1);
    assert_eq!(report.broken[0].url.as_str(), "https://example.com/start/dead");
    assert_eq!(report.broken[0].referrer.as_ref().unwrap().as_str(), "https://example.com/start");
}

#[test]
fn a_finished_crawl_checks_the_start_and_each_distinct_link_once() {
    let mut crawl = Crawl::new(Scope::new(url("https://example.com/")));
    let start = crawl.next_job().unwrap();
    crawl.record(
        start,
        Ok(Some(page(
            "https://example.com/",
            vec![
                link("https://example.com/a", Kind::Anchor),
                link("https://example.com/b", Kind::Anchor),
                link("https://example.com/#top", Kind::Anchor),
            ],
        ))),
    );
    let a = crawl.next_job().unwrap();
    let b = crawl.next_job().unwrap();
    assert!(crawl.next_job().is_none());
    crawl.record(
        a,
        Ok(Some(page(
            "https://example.com/a",
            vec![link("https://example.com/b", Kind::Anchor), link("https://example.com/c", Kind::Asset)],
        ))),
    );
    crawl.record(b, Err(Failure::Status(404)));
    let c = crawl.next_job().unwrap();
    assert_eq!(c.url.as_str(), "https://example.com/c");
    crawl.record(c, Err(Failure::Status(410)));
    assert!(crawl.is_done());
    let report = crawl.finish(None);
    assert_eq!(report.links_checked, 4);
    assert_eq!(report.pages_crawled, 2);
    let broken: Vec<(&str, &str)> = report
        .broken
        .iter()
        .map(|b| (b.url.as_str(), b.referrer.as_ref().unwrap().as_str()))
        .collect();
    assert_eq!(broken, vec![("https://example.com/b", "https://example.com/"), ("https://example.com/c", "https://example.com/a")]);
}

#[test]
fn only_the_start_is_reported_without_a_referrer() {
    let mut crawl = Crawl::new(Scope::new(url("https://example.com/")));
    let start = crawl.next_job().unwrap();
    crawl.record(start, Err(Failure::Status(503)));
    let report = crawl.finish(None);
    assert_eq!(report.broken.len(), 1);
    assert!(report.broken[0].referrer.is_none());
    assert_eq!(report.links_checked, 1);
}
