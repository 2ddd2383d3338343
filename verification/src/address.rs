//! URLs as the checker reads them: the serialization and the parts that
//! decide scope and identity, all as plain values. Parsing and resolving are
//! done by the `url` crate.

use vstd::prelude::*;

verus! {

/// An absolute URL, as the `url` crate parsed it.
#[derive(Debug)]
pub struct Url {
    href: String,
    scheme: String,
    host: Option<String>,
    port: Option<u16>,
    segments: Option<Vec<String>>,
    without_fragment: String,
}

/// What a [`Url`] holds, as mathematical values.
pub struct UrlView {
    /// The whole serialization.
    pub href: Seq<char>,
    /// The scheme, lower-cased, without the `:`.
    pub scheme: Seq<char>,
    /// The host, when the URL has one.
    pub host: Option<Seq<char>>,
    /// The port, or the scheme's default port when it has one.
    pub port: Option<u16>,
    /// The `/`-separated path segments; `None` for a URL that cannot be a base.
    pub segments: Option<Seq<Seq<char>>>,
    /// The serialization with the fragment removed.
    pub without_fragment: Seq<char>,
}

pub open spec fn strings_view(v: Seq<String>) -> Seq<Seq<char>> {
    v.map_values(|s: String| s@)
}

impl View for Url {
    type V = UrlView;

    closed spec fn view(&self) -> UrlView {
        UrlView {
            href: self.href@,
            scheme: self.scheme@,
            host: match self.host {
                Some(h) => Some(h@),
                None => None,
            },
            port: self.port,
            segments: match self.segments {
                Some(s) => Some(strings_view(s@)),
                None => None,
            },
            without_fragment: self.without_fragment@,
        }
    }
}

/// A parse or resolve result, as mathematical values.
pub open spec fn url_result_view(r: Result<Url, String>) -> Result<UrlView, Seq<char>> {
    match r {
        Ok(u) => Ok(u@),
        Err(e) => Err(e@),
    }
}

/// What the `url` crate makes of `input`: parsed as an absolute URL when
/// `base` is `None`, or resolved against the URL that `base` serializes
/// (`url::Url::join`) otherwise; the URL, or the text of the error.
pub uninterp spec fn resolved_url(base: Option<Seq<char>>, input: Seq<char>) -> Result<UrlView, Seq<char>>;

/// Calls the `url` crate's parser, `url::Url::options().base_url(..).parse`,
/// which is how `url::Url::parse` (no base) and `url::Url::join` (a base) are
/// written. The base is the URL that `url::Url::parse` makes of the base's
/// serialization (the crate's own invariant check asserts that this gives
/// back the same URL). The result is read into plain values: `as_str`,
/// `scheme`, `host_str`, `port_or_known_default`, `path_segments`, and the
/// serialization after `set_fragment(None)`; an error becomes its `Display`
/// text. The contract claims only that the result is the one named by
/// `resolved_url` for these arguments.
#[verifier::external_body]
fn outside_resolve(base: Option<&str>, input: &str) -> (res: Result<Url, String>)
    ensures
        url_result_view(res) == resolved_url(
            match base {
                Some(b) => Some(b@),
                None => None,
            },
            input@,
        ),
{
    let base = base.map(url::Url::parse).transpose().map_err(|e| e.to_string())?;
    match url::Url::options().base_url(base.as_ref()).parse(input) {
        Ok(u) => Ok(Url {
            href: u.as_str().to_string(),
            scheme: u.scheme().to_string(),
            host: u.host_str().map(str::to_string),
            port: u.port_or_known_default(),
            segments: u.path_segments().map(|s| s.map(str::to_string).collect()),
            without_fragment: { let mut k = u.clone(); k.set_fragment(None); k.into() },
        }),
        Err(e) => Err(e.to_string()),
    }
}

/// What parsing `input` as an absolute URL gives.
pub open spec fn parsed_url(input: Seq<char>) -> Result<UrlView, Seq<char>> {
    resolved_url(None, input)
}

/// What resolving `input` against the URL serialized as `base` gives.
pub open spec fn joined_url(base: Seq<char>, input: Seq<char>) -> Result<UrlView, Seq<char>> {
    resolved_url(Some(base), input)
}

impl Url {
    /// Parses an absolute URL.
    pub fn parse(input: &str) -> (res: Result<Url, String>)
        ensures
            url_result_view(res) == parsed_url(input@),
    {
        outside_resolve(None, input)
    }

    /// Resolves `input` against this URL, as a link on a page served from it.
    pub fn join(&self, input: &str) -> (res: Result<Url, String>)
        ensures
            url_result_view(res) == joined_url(self@.href, input@),
    {
        outside_resolve(Some(self.href.as_str()), input)
    }

    /// The serialization.
    pub fn as_str(&self) -> (s: &str)
        ensures
            s@ == self@.href,
    {
        self.href.as_str()
    }

    /// The scheme, without the `:`.
    pub fn scheme(&self) -> (s: &str)
        ensures
            s@ == self@.scheme,
    {
        self.scheme.as_str()
    }

    /// The host, when there is one.
    pub fn host_str(&self) -> (h: Option<&str>)
        ensures
            h matches Some(x) ==> self@.host == Some(x@),
            h is None ==> self@.host is None,
    {
        match &self.host {
            Some(h) => Some(h.as_str()),
            None => None,
        }
    }

    /// The port, or the default port of the scheme.
    pub fn port_or_known_default(&self) -> (p: Option<u16>)
        ensures
            p == self@.port,
    {
        self.port
    }

    /// The path segments, unless the URL cannot be a base.
    pub fn path_segments(&self) -> (s: Option<&Vec<String>>)
        ensures
            s matches Some(v) ==> self@.segments == Some(strings_view(v@)),
            s is None ==> self@.segments is None,
    {
        match &self.segments {
            Some(v) => Some(v),
            None => None,
        }
    }

    /// The serialization without its fragment.
    pub fn without_fragment(&self) -> (s: &str)
        ensures
            s@ == self@.without_fragment,
    {
        self.without_fragment.as_str()
    }
}

impl Clone for Url {
    fn clone(&self) -> (c: Url)
        ensures
            c@ == self@,
    {
        let segments = match &self.segments {
            Some(v) => {
                let c = v.clone();
                proof {
                    assert(strings_view(c@) =~= strings_view(v@));
                }
                Some(c)
            },
            None => None,
        };
        Url {
            href: self.href.clone(),
            scheme: self.scheme.clone(),
            host: match &self.host {
                Some(h) => Some(h.clone()),
                None => None,
            },
            port: self.port,
            segments,
            without_fragment: self.without_fragment.clone(),
        }
    }
}

} // verus!
