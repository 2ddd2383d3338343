use linkchecker::address::Url;
use linkchecker::check::Failure;
use linkchecker::crawl::{Broken, Report};
use linkchecker::crawl::Page;
use linkchecker::extract::{Kind, Link};
use linkchecker::report::{page_progress, plural, render, summary_progress};

fn url(s: &str) -> Url {
    Url::parse(s).unwrap()
}

fn broken(n: usize) -> Vec<Broken> {
    (0..n)
        .map(|i| Broken {
            url: url(&format!("https://example.com/dead/{i}")),
            failure: Failure::Status(404),
            referrer: Some(url("https://example.com/start/")),
        })
        .collect()
}

#[test]
fn a_clean_run_says_so() {
    let report = Report {
        broken: vec![],
        links_checked: 12,
        pages_crawled: 3,
        render_unavailable: None,
    };
    let out = render(&report);
    assert!(out.contains("Checked 12 links across 3 pages."));
    assert!(out.contains("No broken links."));
    assert!(!out.contains("BROKEN"));
}

#[test]
fn every_broken_link_names_its_source_page() {
    let report = Report {
        broken: broken(1),
        links_checked: 5,
        pages_crawled: 1,
        render_unavailable: None,
    };
    let out = render(&report);
    assert!(out.contains("404  https://example.com/dead/0"));
    assert!(out.contains("linked from https://example.com/start/"));
    assert!(out.contains("Error: 1 broken link"));
}

#[test]
fn long_lists_are_cut_but_the_total_is_not() {
    let report = Report {
        broken: broken(127),
        links_checked: 412,
        pages_crawled: 38,
        render_unavailable: None,
    };
    let out = render(&report);
    assert!(out.contains("BROKEN (127 total, showing first 100):"));
    assert!(out.contains("/dead/99"));
    assert!(!out.contains("/dead/100"));
    assert!(out.contains("Error: 127 broken links"));
}

#[test]
fn a_broken_starting_url_has_no_referrer_to_name() {
    let report = Report {
        broken: vec![Broken {
            url: url("https://example.com/start"),
            failure: Failure::Dns,
            referrer: None,
        }],
        links_checked: 1,
        pages_crawled: 0,
        render_unavailable: None,
    };
    let out = render(&report);
    assert!(out.contains("DNS  https://example.com/start"));
    assert!(out.contains("the starting URL"));
}

#[test]
fn the_whole_report_reads_exactly() {
    let report = Report {
        broken: vec![
            Broken {
                url: url("https://example.com/a"),
                failure: Failure::Other("connection reset".to_string()),
                referrer: Some(url("https://example.com/")),
            },
            Broken {
                url: url("https://example.com/"),
                failure: Failure::Timeout,
                referrer: None,
            },
        ],
        links_checked: 1,
        pages_crawled: 1,
        render_unavailable: Some("no Chrome or Chromium found on PATH".to_string()),
    };
    let expected = [
        "Checked 1 link across 1 page.\n",
        "Pages that needed a browser were checked as served: no Chrome or Chromium found on PATH\n",
        "\nBROKEN (2):\n\n",
        "      error  https://example.com/a\n",
        "             linked from https://example.com/\n",
        "             connection reset\n",
        "    timeout  https://example.com/\n",
        "             the starting URL\n",
        "\nError: 2 broken links\n",
    ]
    .concat();
    assert_eq!(render(&report), expected);
}

#[test]
fn exactly_a_hundred_is_not_cut() {
    let report = Report {
        broken: broken(100),
        links_checked: 100,
        pages_crawled: 1,
        render_unavailable: None,
    };
    let out = render(&report);
    assert!(out.contains("BROKEN (100):"));
    assert_eq!(out.matches("linked from").count(), 100);
    let more = Report { broken: broken(101), ..report };
    let out = render(&more);
    assert!(out.contains("BROKEN (101 total, showing first 100):"));
    assert_eq!(out.matches("linked from").count(), 100);
}

#[test]
fn plurals() {
    assert_eq!(plural(1, "link", "links"), "link");
    assert_eq!(plural(0, "link", "links"), "links");
    assert_eq!(plural(2, "page", "pages"), "pages");
}

#[test]
fn progress_lines() {
    let page = Page {
        final_url: url("https://example.com/start/"),
        links: vec![Link { url: url("https://example.com/a"), kind: Kind::Anchor }],
    };
    assert_eq!(page_progress(&page), "read https://example.com/start/: 1 link");
    let slow = url("https://slow.example.net/x");
    assert_eq!(
        summary_progress(3, 41, 7, Some(&slow)),
        "progress: 3 pages crawled, 41 links checked, 7 queued; waiting on https://slow.example.net/x"
    );
    assert_eq!(summary_progress(1, 1, 0, None), "progress: 1 page crawled, 1 link checked, 0 queued");
}

#[test]
fn a_long_report_reads_line_by_line() {
    let report = Report { broken: broken(101), links_checked: 150, pages_crawled: 9, render_unavailable: None };
    let out = render(&report);
    assert!(out.ends_with('\n'));
    let lines: Vec<&str> = out.lines().collect();
    assert_eq!(lines[0], "Checked 150 links across 9 pages.");
    assert_eq!(lines[1], "");
    assert_eq!(lines[2], "BROKEN (101 total, showing first 100):");
    assert_eq!(lines[3], "");
    assert_eq!(lines[4], "        404  https://example.com/dead/0");
    assert_eq!(lines[5], "             linked from https://example.com/start/");
    assert_eq!(lines[4 + 2 * 99], "        404  https://example.com/dead/99");
    assert_eq!(lines.len(), 4 + 2 * 100 + 2);
    assert_eq!(lines[lines.len() - 2], "");
    assert_eq!(lines[lines.len() - 1], "Error: 101 broken links");
}
