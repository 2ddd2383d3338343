//! Deciding when a page rendered in a headless browser has finished loading.
//!
//! Rendering is a fallback for sites whose links exist only after their
//! script has run. The browser itself is driven by the program around this
//! crate; what is decided here is when the page counts as loaded.

use vstd::prelude::*;

use crate::address::Url;
use crate::text::same_text;

verus! {

/// How many pages render at once. Tabs are far heavier than requests, and
/// the runners this runs on have two cores.
pub const RENDER_CONCURRENCY: usize = 4;

/// How long the browser may take to start, in seconds. A cold first start on
/// a fresh CI runner takes around eleven seconds, so the per-request timeout
/// is far too short here. Paid once per run, and only when rendering is needed.
pub const LAUNCH_TIMEOUT_SECS: u64 = 60;

/// The most one page may take to render, opening and closing the tab
/// included, in seconds.
pub const RENDER_TIMEOUT_SECS: u64 = 20;

/// How long the page may take to settle before whatever is on it is checked,
/// in milliseconds (the per-request timeout).
pub const LOAD_DEADLINE_MS: u64 = 10_000;

/// How long a page must go without a new link or a newly finished network
/// request before it counts as finished loading, once its load event has
/// fired, in milliseconds. Apps fetch data after load and only then render
/// the links that depend on it, so this has to outlast a typical fetch.
pub const SETTLE_MS: u64 = 1500;

/// The same, while the load event has not fired: a script bundle that is
/// still downloading adds nothing for a while and then adds everything, so a
/// quiet spell proves less before load than after it.
pub const SETTLE_BEFORE_LOAD_MS: u64 = 2500;

/// How often the page is looked at, in milliseconds.
pub const POLL_MS: u64 = 100;

/// What the browser saw once the page had loaded.
#[derive(Debug)]
pub struct Rendered {
    /// Where the tab ended up, after any redirects the app itself performed.
    pub final_url: Url,
    pub html: String,
}

/// The state of `document.readyState`, as the page reported it.
pub open spec fn is_parsed(ready_state: Seq<char>) -> bool {
    ready_state != "loading"@
}

/// How long the page must stay quiet, given `document.readyState`.
pub open spec fn settle_for(ready_state: Seq<char>) -> u64 {
    if ready_state == "complete"@ {
        SETTLE_MS
    } else {
        SETTLE_BEFORE_LOAD_MS
    }
}

/// Watching a page until it stops changing. Two signals, both from inside
/// the page: how many links it has, and how many network requests have
/// finished. A fetch in flight shows up as a newly finished request when it
/// lands, which restarts the clock before the links it feeds appear.
///
/// Times are milliseconds on a monotonic clock chosen by the caller.
#[derive(Debug)]
pub struct Settle {
    pub deadline: u64,
    pub last: Option<(u64, u64)>,
    pub stable_since: u64,
}

/// What one look at the page does to the watch: whether loading is over, and
/// the state after it.
pub open spec fn observed(s: Settle, now: u64, ready_state: Seq<char>, links: u64, resources: u64) -> (bool, Settle) {
    if is_parsed(ready_state) && s.last == Some((links, resources)) {
        if now - s.stable_since >= settle_for(ready_state) as int {
            (true, s)
        } else {
            (false, s)
        }
    } else {
        (false, Settle { deadline: s.deadline, last: Some((links, resources)), stable_since: now })
    }
}

impl Settle {
    /// Starts watching at `now`; whatever is on the page after the load
    /// deadline is what gets checked.
    pub fn start(now: u64) -> (s: Settle)
        ensures
            s.deadline == (if now + LOAD_DEADLINE_MS <= u64::MAX { (now + LOAD_DEADLINE_MS) as u64 } else { u64::MAX }),
            s.last is None,
            s.stable_since == now,
    {
        Settle { deadline: now.saturating_add(LOAD_DEADLINE_MS), last: None, stable_since: now }
    }

    /// The deadline has passed: stop watching.
    pub fn expired(&self, now: u64) -> (r: bool)
        ensures
            r == (now >= self.deadline),
    {
        now >= self.deadline
    }

    /// Takes one look at the page at time `now`: its `document.readyState`,
    /// how many links it has, and how many requests have finished. Returns
    /// true when the page has finished loading: it has been parsed, and
    /// neither count has changed for the settling time. Otherwise any change
    /// restarts the clock.
    pub fn observe(&mut self, now: u64, ready_state: &str, links: u64, resources: u64) -> (done: bool)
        ensures
            (done, *final(self)) == observed(*old(self), now, ready_state@, links, resources),
            old(self).last != Some((links, resources)) ==> {
                &&& !done
                &&& final(self).last == Some((links, resources))
                &&& final(self).stable_since == now
                &&& final(self).deadline == old(self).deadline
            },
            done ==> {
                &&& ready_state@ != "loading"@
                &&& old(self).last == Some((links, resources))
                &&& now - old(self).stable_since >= (if ready_state@ == "complete"@ { SETTLE_MS } else { SETTLE_BEFORE_LOAD_MS })
            },
    {
        let parsed = !same_text(ready_state, "loading");
        let settle = if same_text(ready_state, "complete") { SETTLE_MS } else { SETTLE_BEFORE_LOAD_MS };
        let count = (links, resources);
        let unchanged = match self.last {
            Some(previous) => previous.0 == count.0 && previous.1 == count.1,
            None => false,
        };
        if parsed && unchanged {
            now.saturating_sub(self.stable_since) >= settle
        } else {
            self.last = Some(count);
            self.stable_since = now;
            false
        }
    }
}


/// A change in either count restarts the clock: when the number of links or
/// the number of finished requests differs from the last look, the page is
/// not done, both counts are remembered, and the quiet spell starts now.
pub proof fn lemma_any_change_restarts_the_clock(s: Settle, now: u64, ready_state: Seq<char>, links: u64, resources: u64)
    requires
        s.last matches Some(p) && (p.0 != links || p.1 != resources),
    ensures
        !observed(s, now, ready_state, links, resources).0,
        observed(s, now, ready_state, links, resources).1.last == Some((links, resources)),
        observed(s, now, ready_state, links, resources).1.stable_since == now,
        observed(s, now, ready_state, links, resources).1.deadline == s.deadline,
{
}

/// The page is done only once it is parsed and both counts have stayed as
/// they were for the whole settling time; then nothing changes.
pub proof fn lemma_done_only_when_quiet(s: Settle, now: u64, ready_state: Seq<char>, links: u64, resources: u64)
    requires
        observed(s, now, ready_state, links, resources).0,
    ensures
        ready_state != "loading"@,
        s.last == Some((links, resources)),
        now - s.stable_since >= (if ready_state == "complete"@ { SETTLE_MS } else { SETTLE_BEFORE_LOAD_MS }),
        observed(s, now, ready_state, links, resources).1 == s,
{
}

} // verus!
