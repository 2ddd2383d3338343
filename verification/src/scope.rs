//! What counts as "underneath the starting URL", and when two links are the
//! same link.

use vstd::prelude::*;

use crate::address::{strings_view, Url, UrlView};
use crate::text::same_text;

verus! {

broadcast use vstd::string::to_string_from_display_ensures_for_str;

/// The non-empty path segments of a URL. The trailing empty segment of
/// `/start/` is dropped so that it does not tell itself apart from `/start`.
pub open spec fn nonempty_segments(u: UrlView) -> Seq<Seq<char>> {
    match u.segments {
        Some(s) => s.filter(|x: Seq<char>| x.len() > 0),
        None => Seq::empty(),
    }
}

/// Same scheme, host and port (the scheme's default port when none is written).
pub open spec fn same_origin_spec(a: UrlView, b: UrlView) -> bool {
    &&& a.scheme == b.scheme
    &&& a.host == b.host
    &&& a.port == b.port
}

/// `prefix` is made of the first segments of `segments`, whole.
pub open spec fn leads_with(segments: Seq<Seq<char>>, prefix: Seq<Seq<char>>) -> bool {
    &&& prefix.len() <= segments.len()
    &&& forall|i: int| 0 <= i < prefix.len() ==> segments[i] == prefix[i]
}

/// `u` sits on the same origin as `start` and underneath its path, compared
/// segment by segment.
pub open spec fn in_scope(start: UrlView, u: UrlView) -> bool {
    &&& same_origin_spec(start, u)
    &&& leads_with(nonempty_segments(u), nonempty_segments(start))
}

/// The schemes worth a request.
pub open spec fn checkable_scheme(scheme: Seq<char>) -> bool {
    scheme == "http"@ || scheme == "https"@
}

/// The starting point of a crawl: an origin plus the path segments every
/// crawlable page must sit beneath.
#[derive(Debug)]
pub struct Scope {
    start: Url,
    prefix: Vec<String>,
}

impl View for Scope {
    type V = UrlView;

    /// A scope is its starting URL.
    closed spec fn view(&self) -> UrlView {
        self.start@
    }
}

impl Scope {
    #[verifier::type_invariant]
    spec fn prefix_matches_start(self) -> bool {
        strings_view(self.prefix@) == nonempty_segments(self.start@)
    }

    pub fn new(start: Url) -> (s: Scope)
        ensures
            s@ == start@,
    {
        let prefix = path_segments(&start);
        Scope { start, prefix }
    }

    pub fn start(&self) -> (u: &Url)
        ensures
            u@ == self@,
    {
        &self.start
    }

    /// True when `url` sits on the same origin and underneath the starting
    /// path. Compares whole segments, so a start of `/start` does not swallow
    /// `/started`.
    pub fn contains(&self, url: &Url) -> (r: bool)
        ensures
            r == in_scope(self@, url@),
    {
        proof {
            use_type_invariant(self);
        }
        if !same_origin(&self.start, url) {
            return false;
        }
        let segments = path_segments(url);
        let ghost want = nonempty_segments(self.start@);
        let ghost have = nonempty_segments(url@);
        assert(have.len() == segments.len());
        assert(want.len() == self.prefix.len());
        if segments.len() < self.prefix.len() {
            return false;
        }
        let mut i: usize = 0;
        while i < self.prefix.len()
            invariant
                want == nonempty_segments(self@),
                have == nonempty_segments(url@),
                same_origin_spec(self@, url@),
                strings_view(self.prefix@) == want,
                strings_view(segments@) == have,
                self.prefix.len() <= segments.len(),
                i <= self.prefix.len(),
                forall|j: int| 0 <= j < i ==> have[j] == want[j],
            decreases self.prefix.len() - i,
        {
            assert(want[i as int] == self.prefix@[i as int]@);
            if !(segments[i] == self.prefix[i]) {
                assert(have[i as int] == segments@[i as int]@);
                return false;
            }
            assert(have[i as int] == segments@[i as int]@);
            i = i + 1;
        }
        true
    }
}

/// Whether two optional strings are equal.
fn same_optional_text(a: Option<&str>, b: Option<&str>) -> (r: bool)
    ensures
        r == (match (a, b) {
            (Some(x), Some(y)) => x@ == y@,
            (None, None) => true,
            _ => false,
        }),
{
    match (a, b) {
        (Some(x), Some(y)) => same_text(x, y),
        (None, None) => true,
        _ => false,
    }
}

fn same_origin(a: &Url, b: &Url) -> (r: bool)
    ensures
        r == same_origin_spec(a@, b@),
{
    let hosts = same_optional_text(a.host_str(), b.host_str());
    proof {
        if hosts {
            assert(a@.host == b@.host);
        }
    }
    same_text(a.scheme(), b.scheme()) && hosts
        && a.port_or_known_default() == b.port_or_known_default()
}

/// Non-empty path segments. The trailing empty segment of `/start/` is
/// dropped so it does not distinguish itself from `/start` for scoping.
fn path_segments(url: &Url) -> (v: Vec<String>)
    ensures
        strings_view(v@) == nonempty_segments(url@),
        url@.segments matches Some(s) ==> ((forall|i: int| 0 <= i < s.len() ==> (#[trigger] s[i]).len() > 0)
            ==> strings_view(v@) == s),
{
    let mut out: Vec<String> = Vec::new();
    match url.path_segments() {
        None => {
            assert(strings_view(out@) =~= Seq::<Seq<char>>::empty());
            out
        },
        Some(segments) => {
            let ghost all = strings_view(segments@);
            let ghost keep = |x: Seq<char>| x.len() > 0;
            let mut i: usize = 0;
            while i < segments.len()
                invariant
                    all == strings_view(segments@),
                    i <= segments.len(),
                    keep == (|x: Seq<char>| x.len() > 0),
                    strings_view(out@) == all.take(i as int).filter(keep),
                decreases segments.len() - i,
            {
                reveal_with_fuel(Seq::filter, 1);
                assert(all.take(i + 1).drop_last() =~= all.take(i as int));
                let segment = &segments[i];
                assert(all[i as int] == segment@);
                assert(all.take(i + 1).last() == all[i as int]);
                if !segment.as_str().is_empty() {
                    let ghost before = out@;
                    out.push(segment.clone());
                    assert(strings_view(out@) =~= strings_view(before).push(all[i as int]));
                    assert(keep(all[i as int]));
                    assert(all.take(i + 1).filter(keep) == all.take(i as int).filter(keep).push(all[i as int]));
                } else {
                    assert(!keep(all[i as int]));
                    assert(all.take(i + 1).filter(keep) == all.take(i as int).filter(keep));
                }
                i = i + 1;
            }
            assert(all.take(segments.len() as int) =~= all);
            proof {
                if forall|i: int| 0 <= i < all.len() ==> (#[trigger] all[i]).len() > 0 {
                    lemma_nonempty_path_is_kept_whole(url@, all);
                }
            }
            out
        },
    }
}

/// The identity of a link for deduplication. Fragments never reach the server,
/// so they are dropped; a trailing slash can be a genuinely different resource,
/// so it is kept.
pub fn dedup_key(url: &Url) -> (key: String)
    ensures
        key@ == url@.without_fragment,
{
    url.without_fragment().to_string()
}

/// True for schemes worth a request. `mailto:`, `tel:`, `javascript:` and
/// `data:` are skipped silently.
pub fn is_checkable(url: &Url) -> (r: bool)
    ensures
        r == checkable_scheme(url@.scheme),
{
    same_text(url.scheme(), "http") || same_text(url.scheme(), "https")
}

} // verus!

verus! {

/// The starting URL always lies in its own scope.
pub proof fn lemma_start_in_own_scope(start: UrlView)
    ensures
        in_scope(start, start),
{
}

/// A URL on another origin (another scheme, host or port) is never in scope,
/// whatever its path.
pub proof fn lemma_other_origins_never_in_scope(start: UrlView, u: UrlView)
    requires
        !same_origin_spec(start, u),
    ensures
        !in_scope(start, u),
{
}

/// Whatever sits beneath a URL in scope, on the same origin, is in scope too:
/// pages several levels below the start are crawled.
pub proof fn lemma_deeper_paths_stay_in_scope(start: UrlView, u: UrlView, v: UrlView)
    requires
        in_scope(start, u),
        same_origin_spec(u, v),
        leads_with(nonempty_segments(v), nonempty_segments(u)),
    ensures
        in_scope(start, v),
{
    let p = nonempty_segments(start);
    let a = nonempty_segments(u);
    let b = nonempty_segments(v);
    assert forall|i: int| 0 <= i < p.len() implies b[i] == p[i] by {
        assert(a[i] == p[i]);
        assert(b[i] == a[i]);
    }
}

/// A start at the root of an origin takes in every URL on that origin.
pub proof fn lemma_root_start_takes_whole_origin(start: UrlView, u: UrlView)
    requires
        nonempty_segments(start).len() == 0,
        same_origin_spec(start, u),
    ensures
        in_scope(start, u),
{
}

/// A trailing slash does not change what lies beneath a path: `/start/` and
/// `/start` have the same segments for scoping.
pub proof fn lemma_trailing_slash_is_ignored(a: UrlView, b: UrlView, s: Seq<Seq<char>>)
    requires
        a.segments == Some(s),
        b.segments == Some(s.push(Seq::<char>::empty())),
    ensures
        nonempty_segments(a) == nonempty_segments(b),
{
    let keep = |x: Seq<char>| x.len() > 0;
    let e = Seq::<char>::empty();
    s.lemma_filter_push(e, keep);
}

/// Whether a URL is in scope is judged by the origins and the non-empty
/// path segments of it and of the start, and by nothing else: not by a query,
/// a fragment, a trailing slash or any empty segment.
pub proof fn lemma_scope_reads_origin_and_path_only(s1: UrlView, s2: UrlView, u1: UrlView, u2: UrlView)
    requires
        same_origin_spec(s1, s2),
        nonempty_segments(s1) == nonempty_segments(s2),
        same_origin_spec(u1, u2),
        nonempty_segments(u1) == nonempty_segments(u2),
    ensures
        in_scope(s1, u1) == in_scope(s2, u2),
{
}

/// An empty segment anywhere in a path, as `//` writes one, does not change
/// the path for scoping.
pub proof fn lemma_empty_segments_are_ignored(a: UrlView, b: UrlView, x: Seq<Seq<char>>, y: Seq<Seq<char>>)
    requires
        a.segments == Some(x + y),
        b.segments == Some(x.push(Seq::<char>::empty()) + y),
    ensures
        nonempty_segments(a) == nonempty_segments(b),
{
    let keep = |s: Seq<char>| s.len() > 0;
    Seq::filter_distributes_over_add(x, y, keep);
    Seq::filter_distributes_over_add(x.push(Seq::<char>::empty()), y, keep);
    x.lemma_filter_push(Seq::<char>::empty(), keep);
}

/// A path whose segments are all non-empty is compared whole: every one of
/// its segments counts, in order.
pub proof fn lemma_nonempty_path_is_kept_whole(u: UrlView, s: Seq<Seq<char>>)
    requires
        u.segments == Some(s),
        forall|i: int| 0 <= i < s.len() ==> (#[trigger] s[i]).len() > 0,
    ensures
        nonempty_segments(u) == s,
    decreases s.len(),
{
    let keep = |x: Seq<char>| x.len() > 0;
    if s.len() > 0 {
        let rest = s.drop_last();
        let v = UrlView { segments: Some(rest), ..u };
        assert forall|i: int| 0 <= i < rest.len() implies (#[trigger] rest[i]).len() > 0 by {
            assert(rest[i] == s[i]);
        }
        lemma_nonempty_path_is_kept_whole(v, rest);
        rest.lemma_filter_push(s.last(), keep);
        assert(rest.push(s.last()) =~= s);
        assert(keep(s.last()));
    } else {
        reveal_with_fuel(Seq::filter, 1);
        assert(s.filter(keep) =~= s);
    }
}

/// For paths without empty segments, a URL is in scope exactly when it is on
/// the start's origin and every segment of the start's path equals the
/// segment of the URL's path at the same position: `/docs/v2` takes in
/// `/docs/v2/page` and not `/docs/v1/page`.
pub proof fn lemma_scope_compares_every_segment(start: UrlView, u: UrlView, a: Seq<Seq<char>>, b: Seq<Seq<char>>)
    requires
        start.segments == Some(a),
        u.segments == Some(b),
        forall|i: int| 0 <= i < a.len() ==> (#[trigger] a[i]).len() > 0,
        forall|i: int| 0 <= i < b.len() ==> (#[trigger] b[i]).len() > 0,
    ensures
        in_scope(start, u) <==> {
            &&& same_origin_spec(start, u)
            &&& a.len() <= b.len()
            &&& forall|i: int| 0 <= i < a.len() ==> #[trigger] b[i] == a[i]
        },
{
    lemma_nonempty_path_is_kept_whole(start, a);
    lemma_nonempty_path_is_kept_whole(u, b);
}

} // verus!
