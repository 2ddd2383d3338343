//! Walking the site: what to fetch next, what has been seen, what broke.
//!
//! The walk is a state machine. The program around it takes jobs from it,
//! performs the requests, and hands back what each request found; the
//! machine decides what is fetched next and keeps the report.

use vstd::prelude::*;

use std::collections::VecDeque;

use crate::address::{strings_view, Url, UrlView};
use crate::check::{Failure, FailureView, Fetched};
use crate::extract::{has_script, links, links_view, page_links, runs_script, Kind, Link, LinkView};
use crate::render::Rendered;
use crate::scope::{dedup_key, in_scope, Scope};

verus! {

/// A link that failed, and the page that pointed at it.
#[derive(Debug)]
pub struct Broken {
    pub url: Url,
    pub failure: Failure,
    /// The page this link was found on. Absent only for the starting URL.
    pub referrer: Option<Url>,
}

/// A [`Broken`] link as mathematical values.
pub struct BrokenView {
    pub url: UrlView,
    pub failure: FailureView,
    pub referrer: Option<UrlView>,
}

impl View for Broken {
    type V = BrokenView;

    open spec fn view(&self) -> BrokenView {
        BrokenView {
            url: self.url@,
            failure: self.failure@,
            referrer: match self.referrer {
                Some(r) => Some(r@),
                None => None,
            },
        }
    }
}

pub open spec fn broken_view(b: Seq<Broken>) -> Seq<BrokenView> {
    b.map_values(|x: Broken| x@)
}

/// What a whole crawl found.
#[derive(Debug)]
pub struct Report {
    pub broken: Vec<Broken>,
    pub links_checked: usize,
    pub pages_crawled: usize,
    /// Set when a page needed rendering and no browser could be started:
    /// the sentence explaining why, printed once.
    pub render_unavailable: Option<String>,
}

/// A [`Report`] as mathematical values.
pub struct ReportView {
    pub broken: Seq<BrokenView>,
    pub links_checked: nat,
    pub pages_crawled: nat,
    pub render_unavailable: Option<Seq<char>>,
}

impl View for Report {
    type V = ReportView;

    open spec fn view(&self) -> ReportView {
        ReportView {
            broken: broken_view(self.broken@),
            links_checked: self.links_checked as nat,
            pages_crawled: self.pages_crawled as nat,
            render_unavailable: match self.render_unavailable {
                Some(m) => Some(m@),
                None => None,
            },
        }
    }
}

impl Default for Report {
    fn default() -> (r: Report)
        ensures
            r@.broken.len() == 0,
            r.links_checked == 0,
            r.pages_crawled == 0,
            r.render_unavailable is None,
    {
        Report { broken: Vec::new(), links_checked: 0, pages_crawled: 0, render_unavailable: None }
    }
}

impl Report {
    /// The crawl found nothing broken.
    pub fn is_clean(&self) -> (r: bool)
        ensures
            r == (self@.broken.len() == 0),
    {
        self.broken.len() == 0
    }
}


/// How many requests are in flight at once.
pub const CONCURRENCY: usize = 16;

/// A URL to request.
#[derive(Debug)]
pub struct Job {
    pub url: Url,
    /// The page it was found on; absent for the starting URL.
    pub referrer: Option<Url>,
    /// Whether this URL is underneath the starting path, and so worth reading
    /// for more links. Out-of-scope links are checked and never followed.
    pub crawl: bool,
}

/// A [`Job`] as mathematical values.
pub struct JobView {
    pub url: UrlView,
    pub referrer: Option<UrlView>,
    pub crawl: bool,
}

impl View for Job {
    type V = JobView;

    open spec fn view(&self) -> JobView {
        JobView {
            url: self.url@,
            referrer: match self.referrer {
                Some(r) => Some(r@),
                None => None,
            },
            crawl: self.crawl,
        }
    }
}

/// A page that was read for links.
#[derive(Debug)]
pub struct Page {
    /// Where it was finally served from; relative links resolve against this.
    pub final_url: Url,
    pub links: Vec<Link>,
}

/// A [`Page`] as mathematical values.
pub struct PageView {
    pub final_url: UrlView,
    pub links: Seq<LinkView>,
}

impl View for Page {
    type V = PageView;

    open spec fn view(&self) -> PageView {
        PageView { final_url: self.final_url@, links: links_view(self.links@) }
    }
}

/// What one request came to: a failure, a live link that was not a page to
/// read, or a page read for links.
pub open spec fn outcome_view(o: Result<Option<Page>, Failure>) -> Result<Option<PageView>, FailureView> {
    match o {
        Ok(Some(p)) => Ok(Some(p@)),
        Ok(None) => Ok(None),
        Err(f) => Err(f@),
    }
}

/// The identity of a URL for deduplication.
pub open spec fn key_of(u: UrlView) -> Seq<char> {
    u.without_fragment
}

/// The walk's state, with no invariant of its own; [`Crawl`] keeps it
/// well formed.
struct Walk {
    scope: Scope,
    seen: Vec<String>,
    queue: VecDeque<Job>,
    flying: Vec<Job>,
    report: Report,
    read: Ghost<Seq<PageView>>,
    done: Ghost<Seq<(Seq<char>, bool)>>,
}

/// The walk's state as mathematical values.
pub struct CrawlView {
    /// The starting URL, which is the scope.
    pub start: UrlView,
    /// The keys of every URL ever queued, in the order they were queued.
    pub seen: Seq<Seq<char>>,
    /// The jobs not handed out yet, first to go first.
    pub queue: Seq<JobView>,
    /// The jobs handed out and not recorded yet, in the order handed out.
    pub flying: Seq<JobView>,
    /// The report so far.
    pub report: ReportView,
    /// The pages read for links, in the order their outcomes were recorded.
    pub read: Seq<PageView>,
    /// The keys of the URLs whose outcome was recorded, in order, each with
    /// whether it failed.
    pub done: Seq<(Seq<char>, bool)>,
}

impl View for Walk {
    type V = CrawlView;

    closed spec fn view(&self) -> CrawlView {
        CrawlView {
            start: self.scope@,
            seen: strings_view(self.seen@),
            queue: self.queue@.map_values(|j: Job| j@),
            flying: self.flying@.map_values(|j: Job| j@),
            report: self.report@,
            read: self.read@,
            done: self.done@,
        }
    }
}

/// The keys of some jobs' URLs.
pub open spec fn jobs_keys(jobs: Seq<JobView>) -> Seq<Seq<char>> {
    jobs.map_values(|j: JobView| key_of(j.url))
}

/// The keys of some links' URLs.
pub open spec fn links_keys(links: Seq<LinkView>) -> Seq<Seq<char>> {
    links.map_values(|l: LinkView| key_of(l.url))
}

/// The keys of the recorded URLs.
pub open spec fn done_keys(done: Seq<(Seq<char>, bool)>) -> Seq<Seq<char>> {
    done.map_values(|e: (Seq<char>, bool)| e.0)
}

/// The keys of the recorded URLs that failed, in the order recorded.
pub open spec fn failed_keys(done: Seq<(Seq<char>, bool)>) -> Seq<Seq<char>>
    decreases done.len(),
{
    if done.len() == 0 {
        Seq::empty()
    } else if done.last().1 {
        failed_keys(done.drop_last()).push(done.last().0)
    } else {
        failed_keys(done.drop_last())
    }
}

/// The keys of the broken links' URLs, in order.
pub open spec fn broken_keys(broken: Seq<BrokenView>) -> Seq<Seq<char>> {
    broken.map_values(|b: BrokenView| key_of(b.url))
}

/// The keys of the links of the pages read, page by page, in order.
pub open spec fn found_keys(read: Seq<PageView>) -> Seq<Seq<char>>
    decreases read.len(),
{
    if read.len() == 0 {
        Seq::empty()
    } else {
        found_keys(read.drop_last()) + links_keys(read.last().links)
    }
}

/// Some link among `links` goes to `url`.
pub open spec fn links_to_url(links: Seq<LinkView>, url: UrlView) -> bool {
    exists|l: int| 0 <= l < links.len() && (#[trigger] links[l]).url == url
}

/// A referrer, where there is one, is a page that was read and links to
/// `url`.
pub open spec fn referred_by(read: Seq<PageView>, url: UrlView, referrer: Option<UrlView>) -> bool {
    match referrer {
        None => true,
        Some(p) => exists|j: int| 0 <= j < read.len() && (#[trigger] read[j]).final_url == p && links_to_url(read[j].links, url),
    }
}

/// The keys of the URLs handed out for requesting so far, in order: the
/// seen keys that are no longer queued.
pub open spec fn requested(v: CrawlView) -> Seq<Seq<char>> {
    v.seen.take(v.seen.len() - v.queue.len())
}

/// The referrer of a job or a broken link is missing exactly when its URL is
/// the start.
pub open spec fn referrer_marks_start(start: UrlView, url: UrlView, referrer: Option<UrlView>) -> bool {
    referrer is None <==> key_of(url) == key_of(start)
}

/// The walk's invariant.
///
/// - No URL is seen twice, and the queue holds the most recently seen keys,
///   in order; so every key is requested at most once.
/// - The seen keys are exactly the start's, once the walk has begun, and
///   those of the links found on pages read for links.
/// - Every URL requested is either in flight or recorded, once; the report
///   counts the recorded ones.
/// - The broken links are exactly the recorded URLs that failed, in order.
/// - A referrer is missing only for the start; otherwise it is a page that
///   was read and links to the URL.
/// - A queued URL is read for links exactly when it is in scope.
pub open spec fn well_formed(v: CrawlView) -> bool {
    &&& v.seen.no_duplicates()
    &&& v.queue.len() <= v.seen.len()
    &&& forall|i: int| 0 <= i < v.queue.len() ==>
        key_of(#[trigger] v.queue[i].url) == v.seen[v.seen.len() - v.queue.len() + i]
    &&& forall|i: int| 0 <= i < v.queue.len() ==>
        (#[trigger] v.queue[i]).crawl == in_scope(v.start, v.queue[i].url)
    &&& v.seen.len() > 0 ==> v.seen[0] == key_of(v.start)
    &&& forall|k: Seq<char>| #[trigger] v.seen.contains(k)
        <==> ((v.seen.len() > 0 && k == key_of(v.start)) || found_keys(v.read).contains(k))
    &&& requested(v).len() == v.done.len() + v.flying.len()
    &&& done_keys(v.done).no_duplicates()
    &&& jobs_keys(v.flying).no_duplicates()
    &&& forall|i: int| 0 <= i < v.done.len() ==> requested(v).contains(#[trigger] v.done[i].0)
    &&& forall|i: int| 0 <= i < v.flying.len() ==> requested(v).contains(key_of(#[trigger] v.flying[i].url))
    &&& forall|i: int, j: int| 0 <= i < v.done.len() && 0 <= j < v.flying.len()
        ==> #[trigger] v.done[i].0 != key_of(#[trigger] v.flying[j].url)
    &&& forall|i: int| 0 <= i < v.queue.len() ==>
        referrer_marks_start(v.start, (#[trigger] v.queue[i]).url, v.queue[i].referrer)
    &&& forall|i: int| 0 <= i < v.flying.len() ==>
        referrer_marks_start(v.start, (#[trigger] v.flying[i]).url, v.flying[i].referrer)
    &&& forall|i: int| 0 <= i < v.report.broken.len() ==>
        referrer_marks_start(v.start, (#[trigger] v.report.broken[i]).url, v.report.broken[i].referrer)
    &&& forall|i: int| 0 <= i < v.queue.len() ==>
        referred_by(v.read, (#[trigger] v.queue[i]).url, v.queue[i].referrer)
    &&& forall|i: int| 0 <= i < v.flying.len() ==>
        referred_by(v.read, (#[trigger] v.flying[i]).url, v.flying[i].referrer)
    &&& forall|i: int| 0 <= i < v.report.broken.len() ==>
        referred_by(v.read, (#[trigger] v.report.broken[i]).url, v.report.broken[i].referrer)
    &&& broken_keys(v.report.broken) == failed_keys(v.done)
    &&& v.report.links_checked == v.done.len()
    &&& v.report.pages_crawled <= v.report.links_checked
    &&& v.flying.len() <= CONCURRENCY
}

/// The job a link on a page becomes.
pub open spec fn job_for(start: UrlView, link: LinkView, page: UrlView) -> JobView {
    JobView { url: link.url, referrer: Some(page), crawl: in_scope(start, link.url) }
}

/// The seen keys and queue after the links of a page served from `page` are
/// considered in order: each link not seen before is marked seen and queued.
pub open spec fn enqueued(
    start: UrlView,
    seen: Seq<Seq<char>>,
    queue: Seq<JobView>,
    links: Seq<LinkView>,
    page: UrlView,
) -> (Seq<Seq<char>>, Seq<JobView>)
    decreases links.len(),
{
    if links.len() == 0 {
        (seen, queue)
    } else {
        let (s, q) = enqueued(start, seen, queue, links.drop_last(), page);
        let link = links.last();
        if s.contains(key_of(link.url)) {
            (s, q)
        } else {
            (s.push(key_of(link.url)), q.push(job_for(start, link, page)))
        }
    }
}

/// The position among the jobs in flight of the one whose URL has `key`.
pub open spec fn flying_index(v: CrawlView, key: Seq<char>) -> int {
    choose|i: int| 0 <= i < v.flying.len() && key_of(v.flying[i].url) == key
}

/// A job whose URL has `key` is in flight.
pub open spec fn is_flying(v: CrawlView, key: Seq<char>) -> bool {
    exists|i: int| 0 <= i < v.flying.len() && key_of(v.flying[i].url) == key
}

/// The walk after recording what the job in flight at position `i` came to.
/// The job as it was handed out is what the report names: its URL and the
/// page that linked to it.
pub open spec fn recorded(v: CrawlView, i: int, outcome: Result<Option<PageView>, FailureView>) -> CrawlView {
    let job = v.flying[i];
    let report = ReportView { links_checked: v.report.links_checked + 1, ..v.report };
    let v = CrawlView {
        flying: v.flying.remove(i),
        done: v.done.push((key_of(job.url), outcome is Err)),
        report,
        ..v
    };
    match outcome {
        Err(failure) => CrawlView {
            report: ReportView {
                broken: v.report.broken.push(BrokenView { url: job.url, failure, referrer: job.referrer }),
                ..v.report
            },
            ..v
        },
        Ok(None) => v,
        Ok(Some(page)) => {
            let (seen, queue) = enqueued(v.start, v.seen, v.queue, page.links, page.final_url);
            CrawlView {
                seen,
                queue,
                read: v.read.push(page),
                report: ReportView { pages_crawled: v.report.pages_crawled + 1, ..v.report },
                ..v
            }
        },
    }
}

/// Whether `key` is among the seen keys.
fn is_seen(seen: &Vec<String>, key: &String) -> (r: bool)
    ensures
        r == strings_view(seen@).contains(key@),
{
    let ghost all = strings_view(seen@);
    let mut i: usize = 0;
    while i < seen.len()
        invariant
            all == strings_view(seen@),
            i <= seen.len(),
            forall|k: int| 0 <= k < i ==> all[k] != key@,
        decreases seen.len() - i,
    {
        if seen[i] == *key {
            assert(all[i as int] == key@);
            return true;
        }
        i = i + 1;
    }
    false
}

/// A copy of a job.
fn copy_job(job: &Job) -> (c: Job)
    ensures
        c@ == job@,
{
    let referrer = match &job.referrer {
        Some(r) => Some(r.clone()),
        None => None,
    };
    Job { url: job.url.clone(), referrer, crawl: job.crawl }
}


/// The walk as it starts from `start`: the starting URL seen and queued, to
/// be read for links, and nothing else done.
pub open spec fn started(start: UrlView) -> CrawlView {
    CrawlView {
        start,
        seen: seq![key_of(start)],
        queue: seq![JobView { url: start, referrer: None, crawl: true }],
        flying: Seq::empty(),
        report: ReportView { broken: Seq::empty(), links_checked: 0, pages_crawled: 0, render_unavailable: None },
        read: Seq::empty(),
        done: Seq::empty(),
    }
}

/// What handing out the next job does: while fewer than [`CONCURRENCY`]
/// requests are in flight and a URL is queued, the first one queued goes
/// into flight and is returned; otherwise nothing changes.
pub open spec fn handed_out(before: CrawlView, after: CrawlView, job: Option<Job>) -> bool {
    if before.flying.len() < CONCURRENCY && before.queue.len() > 0 {
        &&& job matches Some(j) && j@ == before.queue[0]
        &&& after == (CrawlView { queue: before.queue.drop_first(), flying: before.flying.push(before.queue[0]), ..before })
    } else {
        &&& job is None
        &&& after == before
    }
}

/// The report a walk ends with.
pub open spec fn finished(v: CrawlView, render_unavailable: Option<String>) -> ReportView {
    ReportView {
        render_unavailable: match render_unavailable {
            Some(m) => Some(m@),
            None => None,
        },
        ..v.report
    }
}

/// The part of the invariant that queueing links must keep.
pub open spec fn queue_matches(start: UrlView, seen: Seq<Seq<char>>, queue: Seq<JobView>) -> bool {
    &&& seen.no_duplicates()
    &&& seen.contains(key_of(start))
    &&& queue.len() <= seen.len()
    &&& forall|i: int| 0 <= i < queue.len() ==>
        key_of(#[trigger] queue[i].url) == seen[seen.len() - queue.len() + i]
    &&& forall|i: int| 0 <= i < queue.len() ==> (#[trigger] queue[i]).crawl == in_scope(start, queue[i].url)
    &&& forall|i: int| 0 <= i < queue.len() ==>
        referrer_marks_start(start, (#[trigger] queue[i]).url, queue[i].referrer)
}

/// Queueing the links of a page keeps the queue's part of the invariant; it
/// appends to the seen keys and the queue alike, and adds exactly the keys of
/// the links not seen before.
#[verifier::spinoff_prover]
proof fn lemma_enqueued(
    start: UrlView,
    seen: Seq<Seq<char>>,
    queue: Seq<JobView>,
    links: Seq<LinkView>,
    page: UrlView,
)
    requires
        queue_matches(start, seen, queue),
    ensures
        queue_matches(start, enqueued(start, seen, queue, links, page).0, enqueued(start, seen, queue, links, page).1),
        enqueued(start, seen, queue, links, page).0.len() - enqueued(start, seen, queue, links, page).1.len()
            == seen.len() - queue.len(),
        seen.len() <= enqueued(start, seen, queue, links, page).0.len(),
        enqueued(start, seen, queue, links, page).0.subrange(0, seen.len() as int) == seen,
        forall|k: Seq<char>| #[trigger] enqueued(start, seen, queue, links, page).0.contains(k)
            <==> (seen.contains(k) || links_keys(links).contains(k)),
    decreases links.len(),
{
    if links.len() > 0 {
        let rest = links.drop_last();
        lemma_enqueued(start, seen, queue, rest, page);
        let (s, q) = enqueued(start, seen, queue, rest, page);
        let link = links.last();
        let k = key_of(link.url);
        assert(links_keys(links) =~= links_keys(rest).push(k));
        if !s.contains(k) {
            let s2 = s.push(k);
            let q2 = q.push(job_for(start, link, page));
            assert forall|i: int, j: int| 0 <= i < s2.len() && 0 <= j < s2.len() && i != j implies s2[i] != s2[j] by {
                if i < s.len() && j < s.len() {
                } else if i == s.len() {
                    assert(s2[i] == k);
                    assert(s2[j] == s[j]);
                } else {
                    assert(s2[j] == k);
                    assert(s2[i] == s[i]);
                }
            }
            let ks = key_of(start);
            let w = choose|j: int| 0 <= j < s.len() && s[j] == ks;
            assert(s2[w] == ks);
            assert forall|i: int| 0 <= i < q2.len() implies key_of(#[trigger] q2[i].url) == s2[s2.len() - q2.len() + i] by {
                if i < q.len() {
                    assert(q2[i] == q[i]);
                }
            }
            assert forall|i: int| 0 <= i < q2.len() implies (#[trigger] q2[i]).crawl == in_scope(start, q2[i].url) by {
                if i < q.len() {
                    assert(q2[i] == q[i]);
                }
            }
            assert forall|i: int| 0 <= i < q2.len() implies referrer_marks_start(start, (#[trigger] q2[i]).url, q2[i].referrer) by {
                if i < q.len() {
                    assert(q2[i] == q[i]);
                } else {
                    assert(k != ks);
                }
            }
            assert(s2.subrange(0, seen.len() as int) =~= s.subrange(0, seen.len() as int));
            assert forall|x: Seq<char>| #[trigger] s2.contains(x) <==> (seen.contains(x) || links_keys(links).contains(x)) by {
                if s2.contains(x) && x != k {
                    let j = choose|j: int| 0 <= j < s2.len() && s2[j] == x;
                    assert(s[j] == x);
                    assert(s.contains(x));
                }
                if s.contains(x) {
                    let j = choose|j: int| 0 <= j < s.len() && s[j] == x;
                    assert(s2[j] == x);
                }
                if links_keys(links).contains(x) && x != k {
                    let j = choose|j: int| 0 <= j < links_keys(links).len() && links_keys(links)[j] == x;
                    assert(links_keys(rest)[j] == x);
                    assert(links_keys(rest).contains(x));
                }
                if x == k {
                    assert(s2[s.len() as int] == k);
                    assert(links_keys(links)[rest.len() as int] == k);
                }
                if links_keys(rest).contains(x) {
                    let j = choose|j: int| 0 <= j < links_keys(rest).len() && links_keys(rest)[j] == x;
                    assert(links_keys(links)[j] == x);
                }
            }
        } else {
            assert forall|x: Seq<char>| #[trigger] s.contains(x) <==> (seen.contains(x) || links_keys(links).contains(x)) by {
                if links_keys(links).contains(x) && x != k {
                    let j = choose|j: int| 0 <= j < links_keys(links).len() && links_keys(links)[j] == x;
                    assert(links_keys(rest)[j] == x);
                    assert(links_keys(rest).contains(x));
                }
                if links_keys(rest).contains(x) {
                    let j = choose|j: int| 0 <= j < links_keys(rest).len() && links_keys(rest)[j] == x;
                    assert(links_keys(links)[j] == x);
                }
            }
        }
    }
}

/// Queueing the links of a page keeps what was queued, and each job it adds
/// is for a link on the page, with the page as its referrer.
proof fn lemma_enqueued_from_page(
    start: UrlView,
    seen: Seq<Seq<char>>,
    queue: Seq<JobView>,
    links: Seq<LinkView>,
    page: UrlView,
)
    ensures
        queue.len() <= enqueued(start, seen, queue, links, page).1.len(),
        enqueued(start, seen, queue, links, page).1.subrange(0, queue.len() as int) == queue,
        forall|i: int| queue.len() <= i < enqueued(start, seen, queue, links, page).1.len() ==> {
            &&& (#[trigger] enqueued(start, seen, queue, links, page).1[i]).referrer == Some(page)
            &&& links_to_url(links, enqueued(start, seen, queue, links, page).1[i].url)
        },
    decreases links.len(),
{
    if links.len() > 0 {
        let rest = links.drop_last();
        lemma_enqueued_from_page(start, seen, queue, rest, page);
        let (s, q) = enqueued(start, seen, queue, rest, page);
        let q2 = enqueued(start, seen, queue, links, page).1;
        let last = links.len() - 1;
        assert forall|i: int| queue.len() <= i < q.len() implies links_to_url(links, #[trigger] q[i].url) by {
            let l = choose|l: int| 0 <= l < rest.len() && (#[trigger] rest[l]).url == q[i].url;
            assert(links[l] == rest[l]);
        }
        if q2 != q {
            assert(q2 == q.push(job_for(start, links.last(), page)));
            assert(q2.subrange(0, queue.len() as int) =~= q.subrange(0, queue.len() as int));
            assert forall|i: int| queue.len() <= i < q2.len() implies {
                &&& (#[trigger] q2[i]).referrer == Some(page)
                &&& links_to_url(links, q2[i].url)
            } by {
                if i < q.len() {
                    assert(q2[i] == q[i]);
                } else {
                    assert(links[last].url == q2[i].url);
                }
            }
        }
    }
}

/// `x` occurs in `a + b` exactly when it occurs in `a` or in `b`.
proof fn lemma_contains_concat(a: Seq<Seq<char>>, b: Seq<Seq<char>>, x: Seq<char>)
    ensures
        (a + b).contains(x) <==> (a.contains(x) || b.contains(x)),
{
    if (a + b).contains(x) {
        let j = choose|j: int| 0 <= j < (a + b).len() && (a + b)[j] == x;
        if j < a.len() {
            assert(a[j] == x);
        } else {
            assert(b[j - a.len()] == x);
        }
    }
    if a.contains(x) {
        let j = choose|j: int| 0 <= j < a.len() && a[j] == x;
        assert((a + b)[j] == x);
    }
    if b.contains(x) {
        let j = choose|j: int| 0 <= j < b.len() && b[j] == x;
        assert((a + b)[a.len() + j] == x);
    }
}

/// Reading one more page keeps every referrer a page that was read.
proof fn lemma_referred_by_push(read: Seq<PageView>, page: PageView, url: UrlView, referrer: Option<UrlView>)
    requires
        referred_by(read, url, referrer),
    ensures
        referred_by(read.push(page), url, referrer),
{
    if let Some(p) = referrer {
        let j = choose|j: int| 0 <= j < read.len() && (#[trigger] read[j]).final_url == p && links_to_url(read[j].links, url);
        assert(read.push(page)[j] == read[j]);
    }
}

/// A walk that has just started is well formed.
#[verifier::spinoff_prover]
proof fn lemma_started_well_formed(start: UrlView)
    requires
        in_scope(start, start),
    ensures
        well_formed(started(start)),
{
    let v = started(start);
    let k0 = key_of(start);
    assert(requested(v) =~= Seq::<Seq<char>>::empty());
    assert(broken_keys(v.report.broken) =~= failed_keys(v.done));
    assert(done_keys(v.done) =~= Seq::<Seq<char>>::empty());
    assert(jobs_keys(v.flying) =~= Seq::<Seq<char>>::empty());
    assert(found_keys(v.read) =~= Seq::<Seq<char>>::empty());
    assert(v.seen[0] == k0);
    assert forall|k: Seq<char>| #[trigger] v.seen.contains(k)
        <==> ((v.seen.len() > 0 && k == key_of(v.start)) || found_keys(v.read).contains(k)) by {
        if v.seen.contains(k) {
            let j = choose|j: int| 0 <= j < v.seen.len() && v.seen[j] == k;
            assert(j == 0);
        }
    }
    assert forall|i: int| 0 <= i < v.queue.len() implies {
        &&& key_of(#[trigger] v.queue[i].url) == v.seen[v.seen.len() - v.queue.len() + i]
        &&& v.queue[i].crawl == in_scope(v.start, v.queue[i].url)
        &&& referrer_marks_start(v.start, v.queue[i].url, v.queue[i].referrer)
        &&& referred_by(v.read, v.queue[i].url, v.queue[i].referrer)
    } by {
        assert(i == 0);
        assert(v.queue[0] == JobView { url: start, referrer: None, crawl: true });
    }
}

/// Handing out the first queued job keeps the walk well formed.
#[verifier::spinoff_prover]
proof fn lemma_hand_out(v: CrawlView)
    requires
        well_formed(v),
        v.queue.len() > 0,
        v.flying.len() < CONCURRENCY,
    ensures
        well_formed(CrawlView { queue: v.queue.drop_first(), flying: v.flying.push(v.queue[0]), ..v }),
{
    let w = CrawlView { queue: v.queue.drop_first(), flying: v.flying.push(v.queue[0]), ..v };
    let n = v.seen.len();
    let q = v.queue.len();
    let r = requested(v);
    let r2 = requested(w);
    let job = v.queue[0];
    let k = key_of(job.url);
    assert(k == v.seen[n - q]);
    assert(r2 =~= r.push(k));
    assert(!r.contains(k)) by {
        if r.contains(k) {
            let j = choose|j: int| 0 <= j < r.len() && r[j] == k;
            assert(v.seen[j] == v.seen[n - q]);
        }
    }
    assert forall|i: int| 0 <= i < w.queue.len() implies key_of(#[trigger] w.queue[i].url) == w.seen[w.seen.len() - w.queue.len() + i] by {
        assert(w.queue[i] == v.queue[i + 1]);
    }
    assert forall|i: int| 0 <= i < w.queue.len() implies (#[trigger] w.queue[i]).crawl == in_scope(w.start, w.queue[i].url) by {
        assert(w.queue[i] == v.queue[i + 1]);
    }
    assert forall|i: int| 0 <= i < w.queue.len() implies referrer_marks_start(w.start, (#[trigger] w.queue[i]).url, w.queue[i].referrer) by {
        assert(w.queue[i] == v.queue[i + 1]);
    }
    assert(jobs_keys(w.flying) =~= jobs_keys(v.flying).push(k));
    assert forall|a: int, b: int| 0 <= a < jobs_keys(w.flying).len() && 0 <= b < jobs_keys(w.flying).len() && a != b
        implies jobs_keys(w.flying)[a] != jobs_keys(w.flying)[b] by {
        if a == v.flying.len() {
            assert(r.contains(key_of(v.flying[b].url)));
        } else if b == v.flying.len() {
            assert(r.contains(key_of(v.flying[a].url)));
        }
    }
    assert forall|i: int| 0 <= i < w.done.len() implies r2.contains(#[trigger] w.done[i].0) by {
        let j = choose|j: int| 0 <= j < r.len() && r[j] == v.done[i].0;
        assert(r2[j] == r[j]);
    }
    assert forall|i: int| 0 <= i < w.flying.len() implies r2.contains(key_of(#[trigger] w.flying[i].url)) by {
        if i < v.flying.len() {
            assert(w.flying[i] == v.flying[i]);
            let j = choose|j: int| 0 <= j < r.len() && r[j] == key_of(v.flying[i].url);
            assert(r2[j] == r[j]);
        } else {
            assert(r2[r.len() as int] == k);
        }
    }
    assert forall|i: int, j: int| 0 <= i < w.done.len() && 0 <= j < w.flying.len()
        implies #[trigger] w.done[i].0 != key_of(#[trigger] w.flying[j].url) by {
        if j < v.flying.len() {
            assert(w.flying[j] == v.flying[j]);
        } else {
            assert(r.contains(v.done[i].0));
        }
    }
    assert forall|i: int| 0 <= i < w.flying.len() implies referrer_marks_start(w.start, (#[trigger] w.flying[i]).url, w.flying[i].referrer) by {
        if i < v.flying.len() {
            assert(w.flying[i] == v.flying[i]);
        }
    }
    assert forall|i: int| 0 <= i < w.queue.len() implies referred_by(w.read, (#[trigger] w.queue[i]).url, w.queue[i].referrer) by {
        assert(w.queue[i] == v.queue[i + 1]);
    }
    assert forall|i: int| 0 <= i < w.flying.len() implies referred_by(w.read, (#[trigger] w.flying[i]).url, w.flying[i].referrer) by {
        if i < v.flying.len() {
            assert(w.flying[i] == v.flying[i]);
        }
    }
}

/// The failed keys after one more outcome.
proof fn lemma_failed_keys_push(done: Seq<(Seq<char>, bool)>, k: Seq<char>, failed: bool)
    ensures
        failed_keys(done.push((k, failed))) == if failed { failed_keys(done).push(k) } else { failed_keys(done) },
{
    assert(done.push((k, failed)).drop_last() =~= done);
}

/// Recording the outcome of a job in flight keeps the walk well formed.
#[verifier::spinoff_prover]
proof fn lemma_record(v: CrawlView, i: int, outcome: Result<Option<PageView>, FailureView>)
    requires
        well_formed(v),
        0 <= i < v.flying.len(),
    ensures
        well_formed(recorded(v, i, outcome)),
{
    let w = recorded(v, i, outcome);
    let job = v.flying[i];
    let k = key_of(job.url);
    let r = requested(v);
    v.flying.remove_ensures(i);
    assert(w.flying == v.flying.remove(i));
    assert(w.done == v.done.push((k, outcome is Err)));
    assert(r.len() > 0);
    assert(queue_matches(v.start, v.seen, v.queue)) by {
        assert(v.seen[0] == key_of(v.start));
    }
    match outcome {
        Ok(Some(page)) => {
            lemma_enqueued(v.start, v.seen, v.queue, page.links, page.final_url);
            let s = w.seen;
            assert(s.take(s.len() - w.queue.len()) =~= v.seen.take(v.seen.len() - v.queue.len())) by {
                assert(s.subrange(0, v.seen.len() as int) == v.seen);
            }
            assert(s[0] == v.seen[0]) by {
                assert(s.subrange(0, v.seen.len() as int)[0] == s[0]);
            }
            assert(found_keys(w.read) == found_keys(v.read) + links_keys(page.links)) by {
                assert(w.read.drop_last() =~= v.read);
            }
            assert forall|x: Seq<char>| #[trigger] w.seen.contains(x)
                <==> ((w.seen.len() > 0 && x == key_of(w.start)) || found_keys(w.read).contains(x)) by {
                lemma_contains_concat(found_keys(v.read), links_keys(page.links), x);
            }
            lemma_enqueued_from_page(v.start, v.seen, v.queue, page.links, page.final_url);
            assert forall|a: int| 0 <= a < w.queue.len() implies referred_by(w.read, (#[trigger] w.queue[a]).url, w.queue[a].referrer) by {
                if a < v.queue.len() {
                    assert(w.queue[a] == v.queue[a]) by {
                        assert(w.queue.subrange(0, v.queue.len() as int)[a] == w.queue[a]);
                    }
                    lemma_referred_by_push(v.read, page, v.queue[a].url, v.queue[a].referrer);
                } else {
                    assert(w.read[v.read.len() as int] == page);
                }
            }
            assert forall|a: int| 0 <= a < w.report.broken.len() implies
                referred_by(w.read, (#[trigger] w.report.broken[a]).url, w.report.broken[a].referrer) by {
                lemma_referred_by_push(v.read, page, v.report.broken[a].url, v.report.broken[a].referrer);
            }
        },
        _ => {},
    }
    assert forall|a: int| 0 <= a < w.flying.len() implies referred_by(w.read, (#[trigger] w.flying[a]).url, w.flying[a].referrer) by {
        let a2 = if a < i { a } else { a + 1 };
        assert(w.flying[a] == v.flying[a2]);
        match outcome {
            Ok(Some(page)) => {
                lemma_referred_by_push(v.read, page, v.flying[a2].url, v.flying[a2].referrer);
            },
            _ => {},
        }
    }
    assert(requested(w) == r);
    assert(done_keys(w.done) =~= done_keys(v.done).push(k));
    assert(jobs_keys(v.flying)[i] == k);
    assert forall|a: int, b: int| 0 <= a < done_keys(w.done).len() && 0 <= b < done_keys(w.done).len() && a != b
        implies done_keys(w.done)[a] != done_keys(w.done)[b] by {
        if a == v.done.len() {
            assert(v.done[b].0 != key_of(v.flying[i].url));
        } else if b == v.done.len() {
            assert(v.done[a].0 != key_of(v.flying[i].url));
        }
    }
    assert forall|a: int, b: int| 0 <= a < jobs_keys(w.flying).len() && 0 <= b < jobs_keys(w.flying).len() && a != b
        implies jobs_keys(w.flying)[a] != jobs_keys(w.flying)[b] by {
        let a2 = if a < i { a } else { a + 1 };
        let b2 = if b < i { b } else { b + 1 };
        assert(w.flying[a] == v.flying[a2]);
        assert(w.flying[b] == v.flying[b2]);
        assert(jobs_keys(v.flying)[a2] != jobs_keys(v.flying)[b2]);
    }
    assert forall|a: int| 0 <= a < w.done.len() implies r.contains(#[trigger] w.done[a].0) by {
        if a == v.done.len() {
            assert(r.contains(key_of(v.flying[i].url)));
        }
    }
    assert forall|a: int| 0 <= a < w.flying.len() implies r.contains(key_of(#[trigger] w.flying[a].url)) by {
        let a2 = if a < i { a } else { a + 1 };
        assert(w.flying[a] == v.flying[a2]);
    }
    assert forall|a: int, b: int| 0 <= a < w.done.len() && 0 <= b < w.flying.len()
        implies #[trigger] w.done[a].0 != key_of(#[trigger] w.flying[b].url) by {
        let b2 = if b < i { b } else { b + 1 };
        assert(w.flying[b] == v.flying[b2]);
        if a == v.done.len() {
            assert(jobs_keys(v.flying)[i] != jobs_keys(v.flying)[b2]);
        }
    }
    assert forall|a: int| 0 <= a < w.flying.len() implies referrer_marks_start(w.start, (#[trigger] w.flying[a]).url, w.flying[a].referrer) by {
        let a2 = if a < i { a } else { a + 1 };
        assert(w.flying[a] == v.flying[a2]);
    }
    lemma_failed_keys_push(v.done, k, outcome is Err);
    match outcome {
        Err(f) => {
            let b = BrokenView { url: job.url, failure: f, referrer: job.referrer };
            assert(w.report.broken == v.report.broken.push(b));
            assert(broken_keys(w.report.broken) =~= broken_keys(v.report.broken).push(k));
            assert forall|a: int| 0 <= a < w.report.broken.len() implies referrer_marks_start(w.start, (#[trigger] w.report.broken[a]).url, w.report.broken[a].referrer) by {
                if a < v.report.broken.len() {
                    assert(w.report.broken[a] == v.report.broken[a]);
                }
            }
            assert forall|a: int| 0 <= a < w.report.broken.len() implies
                referred_by(w.read, (#[trigger] w.report.broken[a]).url, w.report.broken[a].referrer) by {
                if a < v.report.broken.len() {
                    assert(w.report.broken[a] == v.report.broken[a]);
                }
            }
        },
        _ => {},
    }
}


impl Walk {
    /// The walk's state as it starts: the starting URL seen and queued, to be
    /// read for links.
    fn new(scope: Scope) -> (c: Walk)
        ensures
            well_formed(c@),
            c@ == started(scope@),
    {
        let key = dedup_key(scope.start());
        let url = scope.start().clone();
        let mut seen: Vec<String> = Vec::new();
        seen.push(key);
        let mut queue: VecDeque<Job> = VecDeque::new();
        queue.push_back(Job { url, referrer: None, crawl: true });
        let c = Walk {
            scope,
            seen,
            queue,
            flying: Vec::new(),
            report: Report::default(),
            read: Ghost(Seq::empty()),
            done: Ghost(Seq::empty()),
        };
        proof {
            crate::scope::lemma_start_in_own_scope(c.scope@);
            assert(c@.seen =~= seq![key_of(c.scope@)]);
            assert(c@.queue =~= seq![JobView { url: c.scope@, referrer: None, crawl: true }]);
            assert(c@.flying =~= Seq::<JobView>::empty());
            assert(c@.report.broken =~= Seq::<BrokenView>::empty());
            assert(c@ =~= started(scope@));
            lemma_started_well_formed(scope@);
        }
        c
    }

    /// Hands out the next URL to request, first queued first, while fewer
    /// than [`CONCURRENCY`] requests are in flight.
    fn next_job(&mut self) -> (job: Option<Job>)
        requires
            well_formed(old(self)@),
        ensures
            well_formed(final(self)@),
            handed_out(old(self)@, final(self)@, job),
    {
        if self.flying.len() >= CONCURRENCY {
            return None;
        }
        let ghost before = self@;
        match self.queue.pop_front() {
            None => None,
            Some(job) => {
                self.flying.push(copy_job(&job));
                proof {
                    let after = self@;
                    assert(after.queue =~= before.queue.drop_first());
                    assert(after.flying =~= before.flying.push(before.queue[0]));
                    assert(after =~= CrawlView {
                        queue: before.queue.drop_first(),
                        flying: before.flying.push(before.queue[0]),
                        ..before
                    });
                    lemma_hand_out(before);
                }
                Some(job)
            },
        }
    }

    /// No URL is queued and none is being fetched: the walk is over.
    fn is_done(&self) -> (r: bool)
        ensures
            r == (self@.queue.len() == 0 && self@.flying.len() == 0),
    {
        self.queue.len() == 0 && self.flying.len() == 0
    }

    /// How many requests are in flight.
    fn in_flight(&self) -> (n: usize)
        ensures
            n == self@.flying.len(),
    {
        self.flying.len()
    }

    /// Where among the jobs in flight the one for the URL of `job` is, if
    /// it is in flight.
    fn position(&self, job: &Job) -> (r: Option<usize>)
        ensures
            match r {
                Some(i) => i < self@.flying.len() && key_of(self@.flying[i as int].url) == key_of(job@.url),
                None => !is_flying(self@, key_of(job@.url)),
            },
    {
        let key = dedup_key(&job.url);
        let mut i: usize = 0;
        while i < self.flying.len()
            invariant
                key@ == key_of(job@.url),
                i <= self.flying.len(),
                forall|k: int| 0 <= k < i ==> key_of(#[trigger] self@.flying[k].url) != key@,
            decreases self.flying.len() - i,
        {
            assert(self@.flying[i as int] == self.flying@[i as int]@);
            if dedup_key(&self.flying[i].url) == key {
                return Some(i);
            }
            i = i + 1;
        }
        None
    }

    /// Records what a request came to; see [`Crawl::record`].
    #[verifier::spinoff_prover]
    fn record(&mut self, job: Job, outcome: Result<Option<Page>, Failure>)
        requires
            well_formed(old(self)@),
            is_flying(old(self)@, key_of(job@.url)),
        ensures
            well_formed(final(self)@),
            final(self)@ == recorded(old(self)@, flying_index(old(self)@, key_of(job@.url)), outcome_view(outcome)),
    {
        let ghost v0 = self@;
        let ghost out = outcome_view(outcome);
        let ghost key = key_of(job@.url);
        let at = match self.position(&job) {
            Some(i) => i,
            None => {
                return;
            },
        };
        let seen_count = self.seen.len();
        proof {
            let j = flying_index(v0, key);
            assert(jobs_keys(v0.flying)[j] == jobs_keys(v0.flying)[at as int]);
            assert(j == at);
            lemma_record(v0, at as int, out);
            assert(requested(v0).len() <= v0.seen.len());
            assert(v0.seen.len() == seen_count);
        }
        let handed = self.flying.remove(at);
        assert(handed@ == v0.flying[at as int]);
        let ghost failed = outcome is Err;
        self.done = Ghost(self.done@.push((key_of(handed@.url), failed)));
        self.report.links_checked = self.report.links_checked + 1;
        proof {
            assert(self@.flying =~= v0.flying.remove(at as int));
        }
        match outcome {
            Err(failure) => {
                self.report.broken.push(Broken { url: handed.url, failure, referrer: handed.referrer });
                proof {
                    assert(self@.report.broken =~= v0.report.broken.push(BrokenView {
                        url: v0.flying[at as int].url,
                        failure: failure@,
                        referrer: v0.flying[at as int].referrer,
                    }));
                    assert(self@ =~= recorded(v0, at as int, out));
                }
            },
            Ok(None) => {
                assert(self@ =~= recorded(v0, at as int, out));
            },
            Ok(Some(page)) => {
                self.report.pages_crawled = self.report.pages_crawled + 1;
                self.read = Ghost(self.read@.push(page@));
                let ghost start = self@.start;
                let ghost s0 = self@.seen;
                let ghost q0 = self@.queue;
                let ghost all = page@.links;
                let ghost final_url = page@.final_url;
                let ghost mid = self@;
                proof {
                    assert(queue_matches(start, s0, q0)) by {
                        assert(v0.seen[0] == key_of(v0.start));
                    }
                }
                let mut i: usize = 0;
                assert(all.take(0) =~= Seq::<LinkView>::empty());
                while i < page.links.len()
                    invariant
                        all == page@.links,
                        final_url == page@.final_url,
                        start == self@.start,
                        queue_matches(start, s0, q0),
                        i <= page.links.len(),
                        (self@.seen, self@.queue) == enqueued(start, s0, q0, all.take(i as int), final_url),
                        self@ == (CrawlView { seen: self@.seen, queue: self@.queue, ..mid }),
                    decreases page.links.len() - i,
                {
                    let ghost prefix = all.take(i + 1);
                    assert(prefix.drop_last() =~= all.take(i as int));
                    assert(prefix.last() == page.links@[i as int]@);
                    let link = &page.links[i];
                    let key = dedup_key(&link.url);
                    if !is_seen(&self.seen, &key) {
                        let crawl = self.scope.contains(&link.url);
                        let ghost before = self@;
                        self.seen.push(key);
                        self.queue.push_back(Job { url: link.url.clone(), referrer: Some(page.final_url.clone()), crawl });
                        proof {
                            assert(self@.seen =~= before.seen.push(key_of(link.url@)));
                            assert(self@.queue =~= before.queue.push(job_for(start, link@, final_url)));
                        }
                    }
                    i = i + 1;
                }
                assert(all.take(page.links.len() as int) =~= all);
                assert(self@ =~= recorded(v0, at as int, out));
            },
        }
    }

    /// Ends the walk, with the sentence saying why pages that needed a
    /// browser could not be rendered, if that happened.
    fn finish(self, render_unavailable: Option<String>) -> (r: Report)
        ensures
            r@ == finished(self@, render_unavailable),
    {
        let mut report = self.report;
        report.render_unavailable = render_unavailable;
        report
    }
}

/// Every URL handed out for requesting is requested once: the keys handed
/// out so far are all different.
pub proof fn lemma_each_url_requested_once(v: CrawlView)
    requires
        well_formed(v),
    ensures
        requested(v).no_duplicates(),
{
    let r = requested(v);
    assert forall|i: int, j: int| 0 <= i < r.len() && 0 <= j < r.len() && i != j implies r[i] != r[j] by {
        assert(r[i] == v.seen[i]);
        assert(r[j] == v.seen[j]);
    }
}

/// A URL outside the starting path is queued to be checked, never to be
/// read for more links.
pub proof fn lemma_out_of_scope_never_followed(v: CrawlView, i: int)
    requires
        well_formed(v),
        0 <= i < v.queue.len(),
        !in_scope(v.start, v.queue[i].url),
    ensures
        !v.queue[i].crawl,
{
}

/// The URLs a walk has seen are exactly the start and the links found on
/// the pages it read; every URL requested, and so every URL checked, is one
/// of them.
pub proof fn lemma_seen_are_start_and_found(v: CrawlView)
    requires
        well_formed(v),
        v.seen.len() > 0,
    ensures
        forall|k: Seq<char>| #[trigger] v.seen.contains(k) <==> (k == key_of(v.start) || found_keys(v.read).contains(k)),
        forall|k: Seq<char>| #[trigger] requested(v).contains(k) ==> (k == key_of(v.start) || found_keys(v.read).contains(k)),
        forall|i: int| 0 <= i < v.done.len() ==> (#[trigger] v.done[i].0 == key_of(v.start) || found_keys(v.read).contains(v.done[i].0)),
{
    assert forall|k: Seq<char>| #[trigger] requested(v).contains(k) implies (k == key_of(v.start) || found_keys(v.read).contains(k)) by {
        let j = choose|j: int| 0 <= j < requested(v).len() && requested(v)[j] == k;
        assert(v.seen[j] == k);
        assert(v.seen.contains(k));
    }
    assert forall|i: int| 0 <= i < v.done.len() implies (#[trigger] v.done[i].0 == key_of(v.start) || found_keys(v.read).contains(v.done[i].0)) by {
        assert(requested(v).contains(v.done[i].0));
    }
}

/// When the walk is over, every URL it ever saw was requested once and its
/// outcome recorded: the URLs checked are exactly the start and the links
/// found on the pages read, each once, and the report counts them.
#[verifier::spinoff_prover]
pub proof fn lemma_finished_walk_checked_every_url(v: CrawlView)
    requires
        well_formed(v),
        v.seen.len() > 0,
        v.queue.len() == 0,
        v.flying.len() == 0,
    ensures
        v.report.links_checked == v.seen.len(),
        requested(v) == v.seen,
        done_keys(v.done).no_duplicates(),
        forall|k: Seq<char>| #[trigger] done_keys(v.done).contains(k) <==> (k == key_of(v.start) || found_keys(v.read).contains(k)),
        v.report.links_checked == found_keys(v.read).to_set().insert(key_of(v.start)).len(),
{
    assert(requested(v) =~= v.seen);
    let d = done_keys(v.done);
    let found = found_keys(v.read).to_set().insert(key_of(v.start));
    lemma_seen_are_start_and_found(v);
    assert(v.seen.to_set() =~= found);
    v.seen.unique_seq_to_set();
    d.unique_seq_to_set();
    vstd::seq_lib::seq_to_set_is_finite(v.seen);
    assert(d.to_set().subset_of(v.seen.to_set())) by {
        assert forall|k: Seq<char>| d.to_set().contains(k) implies v.seen.to_set().contains(k) by {
            let j = choose|j: int| 0 <= j < d.len() && d[j] == k;
            assert(requested(v).contains(v.done[j].0));
        }
    }
    assert forall|k: Seq<char>| #[trigger] d.contains(k) <==> (k == key_of(v.start) || found_keys(v.read).contains(k)) by {
        assert(d.to_set().contains(k) == d.contains(k));
        assert(v.seen.to_set().contains(k) == v.seen.contains(k));
        if v.seen.contains(k) && !d.contains(k) {
            d.to_set().lemma_subset_not_in_lt(v.seen.to_set(), k);
        }
    }
}

/// What the failed keys of a record of outcomes hold: each key recorded as
/// failed, in order, and so no key twice when no key was recorded twice.
#[verifier::spinoff_prover]
pub proof fn lemma_failed_keys(done: Seq<(Seq<char>, bool)>)
    ensures
        forall|k: Seq<char>| #[trigger] failed_keys(done).contains(k)
            <==> exists|i: int| 0 <= i < done.len() && #[trigger] done[i] == (k, true),
        done_keys(done).no_duplicates() ==> failed_keys(done).no_duplicates(),
    decreases done.len(),
{
    if done.len() > 0 {
        let rest = done.drop_last();
        let last = done.last();
        lemma_failed_keys(rest);
        let f = failed_keys(rest);
        assert forall|k: Seq<char>| #[trigger] failed_keys(done).contains(k)
            <==> exists|i: int| 0 <= i < done.len() && #[trigger] done[i] == (k, true) by {
            if failed_keys(done).contains(k) {
                if last.1 && k == last.0 {
                    assert(done[done.len() - 1] == (k, true));
                } else {
                    if last.1 {
                        let j = choose|j: int| 0 <= j < f.push(last.0).len() && f.push(last.0)[j] == k;
                        assert(f[j] == k);
                    }
                    assert(f.contains(k));
                    let i = choose|i: int| 0 <= i < rest.len() && #[trigger] rest[i] == (k, true);
                    assert(done[i] == (k, true));
                }
            }
            if exists|i: int| 0 <= i < done.len() && #[trigger] done[i] == (k, true) {
                let i = choose|i: int| 0 <= i < done.len() && #[trigger] done[i] == (k, true);
                if i == done.len() - 1 {
                    assert(f.push(k)[f.len() as int] == k);
                } else {
                    assert(rest[i] == (k, true));
                    assert(f.contains(k));
                    let j = choose|j: int| 0 <= j < f.len() && f[j] == k;
                    if last.1 {
                        assert(f.push(last.0)[j] == k);
                    }
                }
            }
        }
        if done_keys(done).no_duplicates() {
            assert forall|a: int, b: int| 0 <= a < done_keys(rest).len() && 0 <= b < done_keys(rest).len() && a != b
                implies done_keys(rest)[a] != done_keys(rest)[b] by {
                assert(done_keys(rest)[a] == done_keys(done)[a]);
                assert(done_keys(rest)[b] == done_keys(done)[b]);
            }
            if last.1 {
                assert(!f.contains(last.0)) by {
                    if f.contains(last.0) {
                        let i = choose|i: int| 0 <= i < rest.len() && #[trigger] rest[i] == (last.0, true);
                        assert(done_keys(done)[i] == done_keys(done)[done.len() - 1]);
                    }
                }
                let g = f.push(last.0);
                assert forall|a: int, b: int| 0 <= a < g.len() && 0 <= b < g.len() && a != b implies g[a] != g[b] by {
                    if a == f.len() {
                        assert(f.contains(g[b]));
                    } else if b == f.len() {
                        assert(f.contains(g[a]));
                    }
                }
            }
        }
    }
}

/// The broken links are exactly the URLs whose request failed, in the order
/// their outcomes were recorded and each once; a link without a referrer is
/// the start and nothing else, and any other referrer is a page that was
/// read and links to it; and the report is clean exactly when no request
/// failed.
pub proof fn lemma_broken_are_exactly_failures(v: CrawlView)
    requires
        well_formed(v),
    ensures
        broken_keys(v.report.broken) == failed_keys(v.done),
        broken_keys(v.report.broken).no_duplicates(),
        forall|k: Seq<char>| #[trigger] broken_keys(v.report.broken).contains(k)
            <==> exists|i: int| 0 <= i < v.done.len() && #[trigger] v.done[i] == (k, true),
        forall|i: int| 0 <= i < v.report.broken.len() ==>
            ((#[trigger] v.report.broken[i]).referrer is None <==> key_of(v.report.broken[i].url) == key_of(v.start)),
        forall|i: int| 0 <= i < v.report.broken.len() ==>
            referred_by(v.read, (#[trigger] v.report.broken[i]).url, v.report.broken[i].referrer),
        v.report.broken.len() == 0 <==> forall|i: int| 0 <= i < v.done.len() ==> !(#[trigger] v.done[i]).1,
{
    lemma_failed_keys(v.done);
    let b = broken_keys(v.report.broken);
    if v.report.broken.len() > 0 {
        assert(b.contains(b[0]));
        let i = choose|i: int| 0 <= i < v.done.len() && #[trigger] v.done[i] == (b[0], true);
        assert(v.done[i].1);
    }
    if exists|i: int| 0 <= i < v.done.len() && (#[trigger] v.done[i]).1 {
        let i = choose|i: int| 0 <= i < v.done.len() && (#[trigger] v.done[i]).1;
        assert(v.done[i] == (v.done[i].0, true));
        assert(b.contains(v.done[i].0));
    }
    assert forall|i: int| 0 <= i < v.report.broken.len() implies
        ((#[trigger] v.report.broken[i]).referrer is None <==> key_of(v.report.broken[i].url) == key_of(v.start)) by {
        assert(referrer_marks_start(v.start, v.report.broken[i].url, v.report.broken[i].referrer));
    }
}

/// Queueing the links of a page forgets nothing: every key seen before is
/// still seen, and every link on the page is seen afterwards, queued now or
/// known already.
pub proof fn lemma_found_links_are_seen(
    start: UrlView,
    seen: Seq<Seq<char>>,
    queue: Seq<JobView>,
    links: Seq<LinkView>,
    page: UrlView,
)
    ensures
        forall|k: Seq<char>| seen.contains(k) ==> #[trigger] enqueued(start, seen, queue, links, page).0.contains(k),
        forall|i: int| 0 <= i < links.len()
            ==> enqueued(start, seen, queue, links, page).0.contains(key_of(#[trigger] links[i].url)),
    decreases links.len(),
{
    if links.len() > 0 {
        let rest = links.drop_last();
        lemma_found_links_are_seen(start, seen, queue, rest, page);
        let (s, q) = enqueued(start, seen, queue, rest, page);
        let k = key_of(links.last().url);
        let s2 = enqueued(start, seen, queue, links, page).0;
        assert forall|x: Seq<char>| s.contains(x) implies s2.contains(x) by {
            if !s.contains(k) {
                let j = choose|j: int| 0 <= j < s.len() && s[j] == x;
                assert(s.push(k)[j] == x);
            }
        }
        assert forall|i: int| 0 <= i < links.len() implies s2.contains(key_of(#[trigger] links[i].url)) by {
            if i < rest.len() {
                assert(rest[i] == links[i]);
                assert(s.contains(key_of(rest[i].url)));
            } else if !s.contains(k) {
                assert(s.push(k)[s.len() as int] == k);
            }
        }
    }
}

/// A link found on a page read for links is never lost: after the page is
/// recorded, its key is among the seen keys, so it was requested or is
/// queued to be.
pub proof fn lemma_recorded_links_are_seen(v: CrawlView, i: int, page: PageView)
    ensures
        forall|j: int| 0 <= j < page.links.len()
            ==> recorded(v, i, Ok(Some(page))).seen.contains(key_of(#[trigger] page.links[j].url)),
{
    lemma_found_links_are_seen(v.start, v.seen, v.queue, page.links, page.final_url);
}

/// The page has no anchor to another page in scope: nothing a crawler could
/// follow. A link back to the page itself does not count.
pub open spec fn leads_nowhere_spec(start: UrlView, page: PageView) -> bool {
    !exists|i: int|
        0 <= i < page.links.len() && (#[trigger] page.links[i]).kind == Kind::Anchor
            && in_scope(start, page.links[i].url) && key_of(page.links[i].url) != key_of(page.final_url)
}

/// True when the page has no anchor to another in-scope page — nothing a
/// crawler could follow. A link back to the page itself does not count.
pub fn leads_nowhere(page: &Page, scope: &Scope) -> (r: bool)
    ensures
        r == leads_nowhere_spec(scope@, page@),
        (forall|i: int| 0 <= i < page@.links.len() ==> (#[trigger] page@.links[i]).kind != Kind::Anchor) ==> r,
        r ==> forall|i: int| 0 <= i < page@.links.len() && (#[trigger] page@.links[i]).kind == Kind::Anchor
            ==> !in_scope(scope@, page@.links[i].url) || key_of(page@.links[i].url) == key_of(page@.final_url),
{
    let own = dedup_key(&page.final_url);
    let mut i: usize = 0;
    while i < page.links.len()
        invariant
            own@ == key_of(page@.final_url),
            i <= page.links.len(),
            forall|k: int| 0 <= k < i ==> !((#[trigger] page@.links[k]).kind == Kind::Anchor
                && in_scope(scope@, page@.links[k].url) && key_of(page@.links[k].url) != key_of(page@.final_url)),
        decreases page.links.len() - i,
    {
        let link = &page.links[i];
        assert(page@.links[i as int] == link@);
        if link.kind == Kind::Anchor && scope.contains(&link.url) {
            let key = dedup_key(&link.url);
            if !(key == own) {
                assert(page@.links[i as int].kind == Kind::Anchor && in_scope(scope@, page@.links[i as int].url)
                    && key_of(page@.links[i as int].url) != key_of(page@.final_url));
                return false;
            }
        }
        i = i + 1;
    }
    true
}

/// Only anchors lead anywhere: a page whose links are all assets (scripts,
/// stylesheets, images), however many and wherever they point, leads
/// nowhere.
pub proof fn lemma_assets_lead_nowhere(start: UrlView, page: PageView)
    requires
        forall|i: int| 0 <= i < page.links.len() ==> (#[trigger] page.links[i]).kind != Kind::Anchor,
    ensures
        leads_nowhere_spec(start, page),
{
}

/// A page leads somewhere exactly when one of its anchors goes to another
/// page in scope; any such anchor is enough.
pub proof fn lemma_an_anchor_in_scope_leads_somewhere(start: UrlView, page: PageView, i: int)
    requires
        0 <= i < page.links.len(),
        page.links[i].kind == Kind::Anchor,
        in_scope(start, page.links[i].url),
        key_of(page.links[i].url) != key_of(page.final_url),
    ensures
        !leads_nowhere_spec(start, page),
{
}

/// What a fetched response leads to.
#[derive(Debug)]
pub enum Next {
    /// The request is over: a live link that was not a page to read, or a
    /// page read for links.
    Finished(Option<Page>),
    /// The page's markup gave nothing to follow but carries a script: this is
    /// what a single-page app looks like as served. A browser should run the
    /// script, and the links it produces be added with [`add_rendered`].
    Render(Page),
}

/// The page read from markup served from `final_url`.
pub open spec fn page_from_markup(html: Seq<char>, final_url: UrlView) -> PageView {
    PageView { final_url, links: page_links(html, final_url) }
}

/// Reads what a request returned. A page is read for links only when it was
/// queued to be (its URL is in scope), the server sent HTML, and the URL it
/// was finally served from is in scope too: a redirect can carry an in-scope
/// URL out of scope, so what was actually served is judged, not only what was
/// asked for. Links resolve against where the page was finally served from. A
/// page whose markup leads nowhere but runs a script is to be rendered; a
/// script-free leaf page cannot grow links, so it never is.
pub fn read_page(scope: &Scope, job: &Job, fetched: Fetched) -> (next: Next)
    ensures
        !job.crawl || fetched.html is None || !in_scope(scope@, fetched.final_url@) ==> next
            matches Next::Finished(None),
        job.crawl && fetched.html is Some && in_scope(scope@, fetched.final_url@) ==> {
            let html = fetched.html->0@;
            let page = page_from_markup(html, fetched.final_url@);
            if leads_nowhere_spec(scope@, page) && has_script(html) {
                next matches Next::Render(p) && p@ == page
            } else {
                next matches Next::Finished(Some(p)) && p@ == page
            }
        },
        job.crawl && fetched.html is Some && in_scope(scope@, fetched.final_url@) && has_script(fetched.html->0@)
            && (forall|i: int| 0 <= i < page_from_markup(fetched.html->0@, fetched.final_url@).links.len()
                ==> (#[trigger] page_from_markup(fetched.html->0@, fetched.final_url@).links[i]).kind != Kind::Anchor)
            ==> next is Render,
{
    if !job.crawl || !scope.contains(&fetched.final_url) {
        return Next::Finished(None);
    }
    match fetched.html {
        None => Next::Finished(None),
        Some(html) => {
            let found = links(html.as_str(), &fetched.final_url);
            let page = Page { links: found, final_url: fetched.final_url };
            if leads_nowhere(&page, scope) && runs_script(html.as_str()) {
                Next::Render(page)
            } else {
                Next::Finished(Some(page))
            }
        },
    }
}

/// Adds what a browser rendered to a page: the links of the rendered markup,
/// resolved against where the tab ended up, which the page now counts as
/// served from.
pub fn add_rendered(page: Page, rendered: Rendered) -> (p: Page)
    ensures
        p@ == (PageView {
            final_url: rendered.final_url@,
            links: page@.links + page_links(rendered.html@, rendered.final_url@),
        }),
{
    let mut all = page.links;
    let mut more = links(rendered.html.as_str(), &rendered.final_url);
    let ghost first = links_view(all@);
    let ghost second = links_view(more@);
    all.append(&mut more);
    assert(links_view(all@) =~= first + second);
    Page { final_url: rendered.final_url, links: all }
}

/// What a page that needed rendering comes to, given what the browser did
/// (`None` when no browser could be started). A page that rendered has the
/// rendered links added. A page that failed to render is reported like a
/// page that failed to load. With no browser, the page is kept as served:
/// that is a reason to carry on with what the markup offered, not a failure
/// of this page.
pub fn after_render(page: Page, rendered: Option<Result<Rendered, Failure>>) -> (r: Result<Option<Page>, Failure>)
    ensures
        match rendered {
            None => r matches Ok(Some(p)) && p@ == page@,
            Some(Err(f)) => r matches Err(g) && g@ == f@,
            Some(Ok(x)) => r matches Ok(Some(p)) && p@ == (PageView {
                final_url: x.final_url@,
                links: page@.links + page_links(x.html@, x.final_url@),
            }),
        },
{
    match rendered {
        None => Ok(Some(page)),
        Some(Err(failure)) => Err(failure),
        Some(Ok(result)) => Ok(Some(add_rendered(page, result))),
    }
}

} // verus!

verus! {

/// The walk's state: what has been seen, what is queued, which requests
/// are in flight, and the report so far. It is always well formed.
pub struct Crawl {
    /// Empty only for a moment while an operation works on the state.
    walk: Option<Walk>,
}

/// The view of a walk with nothing seen, queued, in flight or reported.
pub open spec fn idle_view() -> CrawlView {
    CrawlView {
        start: arbitrary(),
        seen: Seq::empty(),
        queue: Seq::empty(),
        flying: Seq::empty(),
        report: ReportView { broken: Seq::empty(), links_checked: 0, pages_crawled: 0, render_unavailable: None },
        read: Seq::empty(),
        done: Seq::empty(),
    }
}

/// A walk with nothing in it is well formed.
proof fn lemma_idle_well_formed()
    ensures
        well_formed(idle_view()),
{
    let v = idle_view();
    assert(requested(v) =~= Seq::<Seq<char>>::empty());
    assert(broken_keys(v.report.broken) =~= failed_keys(v.done));
    assert(done_keys(v.done) =~= Seq::<Seq<char>>::empty());
    assert(jobs_keys(v.flying) =~= Seq::<Seq<char>>::empty());
}

impl View for Crawl {
    type V = CrawlView;

    closed spec fn view(&self) -> CrawlView {
        match self.walk {
            Some(w) => w@,
            None => idle_view(),
        }
    }
}

impl Crawl {
    #[verifier::type_invariant]
    spec fn walk_is_well_formed(self) -> bool {
        well_formed(self@)
    }

    /// Takes the state out, leaving the walk idle for a moment.
    fn take_walk(&mut self) -> (w: Option<Walk>)
        ensures
            match w {
                Some(x) => x@ == old(self)@,
                None => old(self)@ == idle_view(),
            },
            well_formed(old(self)@),
            final(self)@ == idle_view(),
    {
        proof {
            use_type_invariant(&*self);
            lemma_idle_well_formed();
        }
        let mut taken: Option<Walk> = None;
        std::mem::swap(&mut taken, &mut self.walk);
        taken
    }

    /// The walk's state as it starts: the starting URL seen and queued, to be
    /// read for links.
    pub fn new(scope: Scope) -> (c: Crawl)
        ensures
            well_formed(c@),
            c@ == started(scope@),
    {
        Crawl { walk: Some(Walk::new(scope)) }
    }

    /// Hands out the next URL to request, first queued first, while fewer
    /// than [`CONCURRENCY`] requests are in flight; the job stays in flight
    /// until its outcome is recorded.
    pub fn next_job(&mut self) -> (job: Option<Job>)
        ensures
            well_formed(final(self)@),
            handed_out(old(self)@, final(self)@, job),
    {
        match self.take_walk() {
            Some(mut walk) => {
                let job = walk.next_job();
                self.walk = Some(walk);
                job
            },
            None => None,
        }
    }

    /// Whether a job for the URL of `job` is in flight, so that its outcome
    /// can be recorded.
    pub fn is_in_flight(&self, job: &Job) -> (r: bool)
        ensures
            r == is_flying(self@, key_of(job@.url)),
    {
        match &self.walk {
            Some(w) => w.position(job).is_some(),
            None => false,
        }
    }

    /// Records what a request came to. A failure goes into the report with
    /// the URL and the referrer of the job as it was handed out; a page read
    /// for links has each link not seen before queued, to be read for links
    /// itself when it is in scope. One request per distinct URL, however many
    /// pages point at it. Only a job in flight can be recorded, once.
    pub fn record(&mut self, job: Job, outcome: Result<Option<Page>, Failure>)
        requires
            is_flying(old(self)@, key_of(job@.url)),
        ensures
            well_formed(final(self)@),
            final(self)@ == recorded(old(self)@, flying_index(old(self)@, key_of(job@.url)), outcome_view(outcome)),
    {
        match self.take_walk() {
            Some(mut walk) => {
                walk.record(job, outcome);
                self.walk = Some(walk);
            },
            None => {},
        }
    }

    /// No URL is queued and none is being fetched: the walk is over.
    pub fn is_done(&self) -> (r: bool)
        ensures
            r == (self@.queue.len() == 0 && self@.flying.len() == 0),
    {
        match &self.walk {
            Some(w) => w.is_done(),
            None => true,
        }
    }

    /// How many requests are in flight.
    pub fn in_flight(&self) -> (n: usize)
        ensures
            n == self@.flying.len(),
    {
        match &self.walk {
            Some(w) => w.in_flight(),
            None => 0,
        }
    }

    /// How many URLs are queued and not handed out yet.
    pub fn queued(&self) -> (n: usize)
        ensures
            n == self@.queue.len(),
    {
        match &self.walk {
            Some(w) => {
                let n = w.queue.len();
                assert(w@.queue.len() == w.queue@.len());
                n
            },
            None => 0,
        }
    }

    /// How many links have been checked so far.
    pub fn links_checked(&self) -> (n: usize)
        ensures
            n == self@.report.links_checked,
    {
        match &self.walk {
            Some(w) => w.report.links_checked,
            None => 0,
        }
    }

    /// How many pages have been read for links so far.
    pub fn pages_crawled(&self) -> (n: usize)
        ensures
            n == self@.report.pages_crawled,
    {
        match &self.walk {
            Some(w) => w.report.pages_crawled,
            None => 0,
        }
    }

    /// Ends the walk, with the sentence saying why pages that needed a
    /// browser could not be rendered, if that happened.
    pub fn finish(self, render_unavailable: Option<String>) -> (r: Report)
        ensures
            r@ == finished(self@, render_unavailable),
    {
        let walk = self.walk;
        match walk {
            Some(w) => w.finish(render_unavailable),
            None => {
                let r = Report { broken: Vec::new(), links_checked: 0, pages_crawled: 0, render_unavailable };
                assert(r@.broken =~= Seq::<BrokenView>::empty());
                r
            },
        }
    }
}

} // verus!
