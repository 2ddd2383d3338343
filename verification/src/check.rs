//! Deciding whether one URL is alive, from what the HTTP client reported.

use vstd::prelude::*;

use crate::address::Url;
use crate::text::{
    ascii_lowercase, contains_text, decimal, has_infix, has_prefix, starts_with,
    to_ascii_lowercase, write_decimal,
};

verus! {

broadcast use vstd::string::to_string_from_display_ensures_for_str;

/// How long a single request may take before it counts as dead, in seconds.
pub const TIMEOUT_SECS: u64 = 10;

/// How many redirect hops to follow before giving up on a link.
pub const MAX_REDIRECTS: usize = 10;

/// What a browser asks for. Some servers pick the response by this header
/// and answer 404 to the `*/*` HTTP clients send by default, so the checker
/// asks the way a visitor's browser does.
pub const ACCEPT: &'static str = "text/html,application/xhtml+xml,application/xml;q=0.9,*/*;q=0.8";

/// Why a link is considered broken.
#[derive(Debug, Clone, PartialEq, Eq)]
pub enum Failure {
    /// The server answered, with a status in the 400 or 500 range.
    Status(u16),
    /// No answer arrived in time.
    Timeout,
    /// The host could not be resolved.
    Dns,
    /// The host refused or dropped the connection.
    Connect,
    /// The link redirected in circles, or too far.
    TooManyRedirects,
    /// The page answered, but the browser could not render it.
    Render(String),
    /// Anything else that stopped the request from completing.
    Other(String),
}

/// A [`Failure`] with its messages as character sequences.
pub enum FailureView {
    Status(u16),
    Timeout,
    Dns,
    Connect,
    TooManyRedirects,
    Render(Seq<char>),
    Other(Seq<char>),
}

impl View for Failure {
    type V = FailureView;

    open spec fn view(&self) -> FailureView {
        match self {
            Failure::Status(code) => FailureView::Status(*code),
            Failure::Timeout => FailureView::Timeout,
            Failure::Dns => FailureView::Dns,
            Failure::Connect => FailureView::Connect,
            Failure::TooManyRedirects => FailureView::TooManyRedirects,
            Failure::Render(message) => FailureView::Render(message@),
            Failure::Other(message) => FailureView::Other(message@),
        }
    }
}

/// A link that answered.
#[derive(Debug)]
pub struct Fetched {
    /// Where the request ended up, after any redirects. Relative links on this
    /// page resolve against this, not against the URL we asked for.
    pub final_url: Url,
    /// The page's markup, if we asked for it and the server sent HTML.
    pub html: Option<String>,
}

/// The short label of a failure, as the report's left-hand column shows it.
pub open spec fn label_text(f: FailureView) -> Seq<char> {
    match f {
        FailureView::Status(code) => decimal(code as nat),
        FailureView::Timeout => "timeout"@,
        FailureView::Dns => "DNS"@,
        FailureView::Connect => "refused"@,
        FailureView::TooManyRedirects => "redirects"@,
        FailureView::Render(_) => "render"@,
        FailureView::Other(_) => "error"@,
    }
}

/// The detail line of a failure, when there is more to say than the label.
pub open spec fn detail_text(f: FailureView) -> Option<Seq<char>> {
    match f {
        FailureView::Render(message) => Some(message),
        FailureView::Other(message) => Some(message),
        _ => None,
    }
}

impl Failure {
    /// The short label the report puts in its left-hand column.
    pub fn label(&self) -> (s: String)
        ensures
            s@ == label_text(self@),
    {
        match self {
            Failure::Status(code) => {
                let mut s = String::new();
                write_decimal(&mut s, *code as u64);
                s
            },
            Failure::Timeout => "timeout".to_string(),
            Failure::Dns => "DNS".to_string(),
            Failure::Connect => "refused".to_string(),
            Failure::TooManyRedirects => "redirects".to_string(),
            Failure::Render(_) => "render".to_string(),
            Failure::Other(_) => "error".to_string(),
        }
    }

    /// The detail line, when there is more to say than the label.
    pub fn detail(&self) -> (d: Option<&str>)
        ensures
            d matches Some(x) ==> detail_text(self@) == Some(x@),
            d is None ==> detail_text(self@) is None,
    {
        match self {
            Failure::Other(message) => Some(message.as_str()),
            Failure::Render(message) => Some(message.as_str()),
            _ => None,
        }
    }
}

/// The one definition of a dead status: 4xx and 5xx, nothing else.
pub open spec fn dead_status(status: u16) -> bool {
    400 <= status && status < 600
}

/// The one definition of a dead link: 4xx and 5xx, nothing else. A redirect
/// is judged on where it lands, which the client has already resolved by the
/// time a status reaches here.
pub fn is_alive(status: u16) -> (r: bool)
    ensures
        r == !dead_status(status),
        r == !(400 <= status && status < 600),
{
    !(400 <= status && status < 600)
}

/// The HTTP method of a request.
#[derive(Debug, Clone, Copy, PartialEq, Eq, Structural)]
pub enum Method {
    Head,
    Get,
}

/// The first request for a URL. Cheap HEAD requests are tried first for
/// links that only need checking; a page to crawl is fetched with GET.
pub fn opening_request(want_html: bool) -> (m: Method)
    ensures
        m == (if want_html { Method::Get } else { Method::Head }),
{
    if want_html {
        Method::Get
    } else {
        Method::Head
    }
}

/// Whether the answer to a HEAD request (`None` when the request failed)
/// settles the link as alive. Plenty of servers answer HEAD with 405 or
/// worse while serving GET happily, so anything but a success (2xx) proves
/// nothing, and the link is retried with GET before it is condemned.
pub fn head_settles(status: Option<u16>) -> (r: bool)
    ensures
        r == (status matches Some(s) && 200 <= s < 300),
{
    match status {
        Some(s) => 200 <= s && s < 300,
        None => false,
    }
}

/// What the answer to a GET request means: a dead status is a broken link;
/// otherwise the link is alive, and its body is read for links when the page
/// is to be crawled and the server sent HTML.
pub fn judge_get(status: u16, want_html: bool, content_type: Option<&str>) -> (r: Result<bool, Failure>)
    ensures
        dead_status(status) ==> r == Err::<bool, Failure>(Failure::Status(status)),
        400 <= status && status < 600 ==> r == Err::<bool, Failure>(Failure::Status(status)),
        (status < 400 || status >= 600) ==> r is Ok,
        !dead_status(status) ==> r == Ok::<bool, Failure>(
            want_html && (content_type matches Some(v) && html_content_type(v@)),
        ),
{
    if !is_alive(status) {
        return Err(Failure::Status(status));
    }
    Ok(want_html && is_html(content_type))
}

/// The content types whose bodies are read for more links.
pub open spec fn html_content_type(value: Seq<char>) -> bool {
    let lower = ascii_lowercase(value);
    starts_with(lower, "text/html"@) || starts_with(lower, "application/xhtml+xml"@)
}

/// Whether to parse a response for more links, from its `Content-Type`
/// header (absent, or not readable as text, is `None`). Decided from the
/// content type rather than the URL, because most page URLs carry no
/// extension.
pub fn is_html(content_type: Option<&str>) -> (r: bool)
    ensures
        r == (content_type matches Some(v) && html_content_type(v@)),
{
    match content_type {
        None => false,
        Some(value) => {
            let lower = to_ascii_lowercase(value);
            let html = crate::text::chars_of("text/html");
            let xhtml = crate::text::chars_of("application/xhtml+xml");
            has_prefix(&lower, &html) || has_prefix(&lower, &xhtml)
        },
    }
}

/// What the HTTP client said about a request that failed before a status
/// could be judged.
pub struct ErrorFacts {
    /// The request timed out.
    pub timeout: bool,
    /// The redirect limit was hit, or the redirects went in circles.
    pub redirect: bool,
    /// The connection could not be made.
    pub connect: bool,
    /// The status the error carries, if any.
    pub status: Option<u16>,
    /// The error's message, then the message of each underlying cause, in order.
    pub messages: Vec<String>,
}

/// The messages joined by `": "`.
pub open spec fn joined_messages(messages: Seq<Seq<char>>) -> Seq<char>
    decreases messages.len(),
{
    if messages.len() == 0 {
        Seq::empty()
    } else if messages.len() == 1 {
        messages[0]
    } else {
        joined_messages(messages.drop_last()) + ": "@ + messages.last()
    }
}

/// The deepest cause's message.
pub open spec fn deepest_message(messages: Seq<Seq<char>>) -> Seq<char> {
    if messages.len() == 0 {
        Seq::empty()
    } else {
        messages.last()
    }
}

/// A message that names a failed name lookup.
pub open spec fn names_dns(message: Seq<char>) -> bool {
    let lower = ascii_lowercase(message);
    ||| contains_text(lower, "dns"@)
    ||| contains_text(lower, "failed to lookup"@)
    ||| contains_text(lower, "name or service not known"@)
    ||| contains_text(lower, "nodename nor servname"@)
}

pub open spec fn messages_view(m: Seq<String>) -> Seq<Seq<char>> {
    m.map_values(|s: String| s@)
}

/// How a failed request is classified: a timeout first, then a redirect
/// failure, then a connection failure (a name lookup when the messages say
/// so), then a status the error carries, and anything else with the deepest
/// cause's message.
pub open spec fn classified(facts: ErrorFacts) -> FailureView {
    let messages = messages_view(facts.messages@);
    if facts.timeout {
        FailureView::Timeout
    } else if facts.redirect {
        FailureView::TooManyRedirects
    } else if facts.connect {
        if names_dns(joined_messages(messages)) {
            FailureView::Dns
        } else {
            FailureView::Connect
        }
    } else if facts.status is Some {
        FailureView::Status(facts.status->0)
    } else {
        FailureView::Other(deepest_message(messages))
    }
}

/// Classifies a request that failed without a status to judge.
pub fn classify(facts: &ErrorFacts) -> (f: Failure)
    ensures
        f@ == classified(*facts),
{
    if facts.timeout {
        return Failure::Timeout;
    }
    if facts.redirect {
        return Failure::TooManyRedirects;
    }
    if facts.connect {
        let message = chain(&facts.messages);
        return if looks_like_dns(message.as_str()) {
            Failure::Dns
        } else {
            Failure::Connect
        };
    }
    if let Some(status) = facts.status {
        return Failure::Status(status);
    }
    Failure::Other(root_cause(&facts.messages))
}

/// The HTTP client folds name resolution into connection errors, so the
/// distinction has to come from the underlying message.
pub fn looks_like_dns(message: &str) -> (r: bool)
    ensures
        r == names_dns(message@),
{
    let lower = to_ascii_lowercase(message);
    has_infix(&lower, &crate::text::chars_of("dns"))
        || has_infix(&lower, &crate::text::chars_of("failed to lookup"))
        || has_infix(&lower, &crate::text::chars_of("name or service not known"))
        || has_infix(&lower, &crate::text::chars_of("nodename nor servname"))
}

/// An error's message followed by each cause's, joined by `": "`.
pub fn chain(messages: &Vec<String>) -> (s: String)
    ensures
        s@ == joined_messages(messages_view(messages@)),
{
    let ghost all = messages_view(messages@);
    let mut out = String::new();
    let mut i: usize = 0;
    while i < messages.len()
        invariant
            all == messages_view(messages@),
            i <= messages.len(),
            out@ == joined_messages(all.take(i as int)),
        decreases messages.len() - i,
    {
        assert(all.take(i + 1).drop_last() =~= all.take(i as int));
        if i > 0 {
            out.append(": ");
        }
        out.append(messages[i].as_str());
        i = i + 1;
        if i == 1 {
            assert(out@ =~= joined_messages(all.take(1)));
        }
    }
    assert(all.take(messages.len() as int) =~= all);
    out
}

/// The deepest cause's message; empty when there is none.
pub fn root_cause(messages: &Vec<String>) -> (s: String)
    ensures
        s@ == deepest_message(messages_view(messages@)),
{
    if messages.len() == 0 {
        String::new()
    } else {
        messages[messages.len() - 1].clone()
    }
}


/// Every client error (4xx) and every server error (5xx) is a dead link, 401
/// and 403 included; every other status, informational, success or redirect,
/// is alive.
pub proof fn lemma_dead_is_exactly_4xx_and_5xx(status: u16)
    ensures
        400 <= status && status < 500 ==> dead_status(status),
        500 <= status && status < 600 ==> dead_status(status),
        status < 400 ==> !dead_status(status),
        status >= 600 ==> !dead_status(status),
{
}

} // verus!
