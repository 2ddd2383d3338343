//! Pulling links out of a page's markup. The markup is parsed and queried by
//! the `scraper` crate; which references count, and how they resolve, is
//! decided here.

use vstd::prelude::*;

use crate::address::{joined_url, url_result_view, Url, UrlView};
use crate::scope::{checkable_scheme, is_checkable};
use crate::text::{has_word, has_word_ignoring_case, trim, trimmed};

verus! {

/// What kind of reference a link is. Only anchors lead to more pages; the
/// distinction decides whether a page had anything to follow.
#[derive(Debug, Clone, Copy, PartialEq, Eq, Structural)]
pub enum Kind {
    /// `<a href>`: a page, or at least a thing that may be one.
    Anchor,
    /// `<img src>`, `<script src>`, `<link href>`: fetched, never followed.
    Asset,
}

/// A reference found on a page, resolved to an absolute URL.
#[derive(Debug)]
pub struct Link {
    pub url: Url,
    pub kind: Kind,
}

/// A [`Link`] as mathematical values.
pub struct LinkView {
    pub url: UrlView,
    pub kind: Kind,
}

impl View for Link {
    type V = LinkView;

    open spec fn view(&self) -> LinkView {
        LinkView { url: self.url@, kind: self.kind }
    }
}

pub open spec fn links_view(links: Seq<Link>) -> Seq<LinkView> {
    links.map_values(|l: Link| l@)
}

/// One element that a selector matched in a document: the element's name, and
/// the value of each attribute asked for, in the order asked.
pub struct Element {
    pub name: String,
    pub values: Vec<Option<String>>,
}

/// An [`Element`] as mathematical values.
pub struct ElementView {
    pub name: Seq<char>,
    pub values: Seq<Option<Seq<char>>>,
}

pub open spec fn optional_text_view(v: Option<String>) -> Option<Seq<char>> {
    match v {
        Some(s) => Some(s@),
        None => None,
    }
}

pub open spec fn element_view(e: Element) -> ElementView {
    ElementView { name: e.name@, values: e.values@.map_values(|v: Option<String>| optional_text_view(v)) }
}

pub open spec fn elements_view(found: Option<Vec<Element>>) -> Option<Seq<ElementView>> {
    match found {
        Some(v) => Some(v@.map_values(|e: Element| element_view(e))),
        None => None,
    }
}

pub open spec fn texts_view(s: Seq<&str>) -> Seq<Seq<char>> {
    s.map_values(|t: &str| t@)
}

/// What `scraper` finds in the document `html` for the CSS selector group
/// `selector`: each matching element in the order `Html::select` yields it, with its name and
/// the values of `attributes`; `None` when the selector does not parse.
pub uninterp spec fn selected(html: Seq<char>, selector: Seq<char>, attributes: Seq<Seq<char>>)
    -> Option<Seq<ElementView>>;

/// Parses `html` as a document with `scraper::Html::parse_document`, parses
/// `selector` with `scraper::Selector::parse` (an error gives `None`), and
/// reads each element that `Html::select` yields: `Element::name` and
/// `Element::attr` of each attribute asked for. The contract claims only that
/// the result is the one named by `selected` for these arguments.
#[verifier::external_body]
fn outside_select(html: &str, selector: &str, attributes: &[&str]) -> (found: Option<Vec<Element>>)
    ensures
        elements_view(found) == selected(html@, selector@, texts_view(attributes@)),
{
    let document = scraper::Html::parse_document(html);
    let selector = scraper::Selector::parse(selector).ok()?;
    Some(document.select(&selector).map(|element| Element {
        name: element.value().name().to_string(),
        values: attributes.iter().map(|a| element.value().attr(a).map(str::to_string)).collect(),
    }).collect())
}

/// The value an element has for the attribute asked for in position `i`.
pub open spec fn value_at(e: ElementView, i: int) -> Option<Seq<char>> {
    if 0 <= i < e.values.len() {
        e.values[i]
    } else {
        None
    }
}

/// `<link rel="preconnect">` and `<link rel="dns-prefetch">` name an origin
/// to warm a connection to; nothing is fetched from their `href`. The element
/// carries its reference first and its `rel` second.
pub open spec fn connection_hint(e: ElementView) -> bool {
    &&& e.name == "link"@
    &&& value_at(e, 1) matches Some(rel)
    &&& (has_word_ignoring_case(rel, "preconnect"@) || has_word_ignoring_case(rel, "dns-prefetch"@))
}

/// The reference an element makes, trimmed of whitespace: none for a
/// connection hint, or when the element lacks the attribute.
pub open spec fn reference_of(e: ElementView) -> Option<Seq<char>> {
    if connection_hint(e) {
        None
    } else {
        match value_at(e, 0) {
            Some(value) => Some(trimmed(value)),
            None => None,
        }
    }
}

/// What a resolved reference contributes: the link, when it resolved to a
/// URL whose scheme can be requested.
pub open spec fn link_from(resolved: Result<UrlView, Seq<char>>, kind: Kind) -> Seq<LinkView> {
    match resolved {
        Ok(u) => if checkable_scheme(u.scheme) {
            seq![LinkView { url: u, kind }]
        } else {
            Seq::empty()
        },
        Err(_) => Seq::empty(),
    }
}

/// The link an element contributes, resolved against `base`.
pub open spec fn element_link(e: ElementView, base: UrlView, kind: Kind) -> Seq<LinkView> {
    match reference_of(e) {
        Some(reference) => link_from(joined_url(base.href, reference), kind),
        None => Seq::empty(),
    }
}

/// The links the elements contribute, in order.
pub open spec fn elements_links(els: Seq<ElementView>, base: UrlView, kind: Kind) -> Seq<LinkView>
    decreases els.len(),
{
    if els.len() == 0 {
        Seq::empty()
    } else {
        elements_links(els.drop_last(), base, kind) + element_link(els.last(), base, kind)
    }
}

/// The links of one kind of reference: elements matching `selector`, read
/// through `attribute`.
pub open spec fn selector_links(
    html: Seq<char>,
    base: UrlView,
    selector: Seq<char>,
    attribute: Seq<char>,
    kind: Kind,
) -> Seq<LinkView> {
    match selected(html, selector, seq![attribute, "rel"@]) {
        Some(els) => elements_links(els, base, kind),
        None => Seq::empty(),
    }
}

/// The URL relative links resolve against, given the `<base href>` elements
/// of the document (each carrying its `href` first): the first one's `href`,
/// resolved against the page's own URL, or the page's URL when there is none
/// or it does not resolve.
pub open spec fn base_of(els: Seq<ElementView>, page: UrlView) -> UrlView {
    if els.len() > 0 && value_at(els[0], 0) is Some {
        match joined_url(page.href, value_at(els[0], 0)->0) {
            Ok(u) => u,
            Err(_) => page,
        }
    } else {
        page
    }
}

/// The URL relative links resolve against: the document's first
/// `<base href>`, resolved against the page's own URL, or the page's URL.
pub open spec fn document_base(html: Seq<char>, page: UrlView) -> UrlView {
    match selected(html, "base[href]"@, seq!["href"@]) {
        Some(els) => base_of(els, page),
        None => page,
    }
}

/// Every link of a page: anchors, then stylesheets and other `<link>`s, then
/// images, then scripts, each in the order the document yields them.
pub open spec fn page_links(html: Seq<char>, page: UrlView) -> Seq<LinkView> {
    let base = document_base(html, page);
    selector_links(html, base, "a[href]"@, "href"@, Kind::Anchor)
        + selector_links(html, base, "link[href]"@, "href"@, Kind::Asset)
        + selector_links(html, base, "img[src]"@, "src"@, Kind::Asset)
        + selector_links(html, base, "script[src]"@, "src"@, Kind::Asset)
}

/// The document has at least one `<script>` element.
pub open spec fn has_script(html: Seq<char>) -> bool {
    selected(html, "script"@, Seq::empty()) matches Some(els) && els.len() > 0
}

/// Every URL referenced by the page, resolved against `base`.
///
/// `base` must be the URL the page was finally served from — after any
/// redirects — or relative links resolve against the wrong place.
///
/// Anchors and asset references both count: a missing image is a broken link.
/// References that fail to resolve, or that use a scheme we cannot request,
/// are dropped here.
pub fn links(html: &str, base: &Url) -> (found: Vec<Link>)
    ensures
        links_view(found@) == page_links(html@, base@),
{
    let base = base_href(html, base);
    let mut found: Vec<Link> = Vec::new();
    collect(html, &base, "a[href]", "href", Kind::Anchor, &mut found);
    collect(html, &base, "link[href]", "href", Kind::Asset, &mut found);
    collect(html, &base, "img[src]", "src", Kind::Asset, &mut found);
    collect(html, &base, "script[src]", "src", Kind::Asset, &mut found);
    found
}

/// Appends the links of the elements matching `selector`.
fn collect(html: &str, base: &Url, selector: &str, attribute: &str, kind: Kind, found: &mut Vec<Link>)
    ensures
        links_view(final(found)@) == links_view(old(found)@) + selector_links(html@, base@, selector@, attribute@, kind),
{
    let asked = [attribute, "rel"];
    let selection = outside_select(html, selector, &asked);
    assert(texts_view(asked@) =~= seq![attribute@, "rel"@]);
    match selection {
        None => {
            assert(links_view(found@) =~= links_view(old(found)@) + Seq::<LinkView>::empty());
        },
        Some(elements) => {
            let ghost before = links_view(found@);
            let mut more = links_from_elements(&elements, base, kind);
            let ghost added = links_view(more@);
            found.append(&mut more);
            assert(links_view(found@) =~= before + added);
        },
    }
}

/// The links that selected elements contribute, in order, each element
/// carrying its reference attribute first and its `rel` second: connection
/// hints and elements without the attribute are skipped, references are
/// trimmed and resolved against `base`, and only URLs that can be requested
/// are kept.
pub fn links_from_elements(elements: &Vec<Element>, base: &Url, kind: Kind) -> (found: Vec<Link>)
    ensures
        links_view(found@) == elements_links(elements@.map_values(|e: Element| element_view(e)), base@, kind),
{
    let ghost els = elements@.map_values(|e: Element| element_view(e));
    let mut found: Vec<Link> = Vec::new();
    let mut i: usize = 0;
    assert(els.take(0) =~= Seq::<ElementView>::empty());
    while i < elements.len()
        invariant
            els == elements@.map_values(|e: Element| element_view(e)),
            i <= elements.len(),
            links_view(found@) == elements_links(els.take(i as int), base@, kind),
        decreases elements.len() - i,
    {
        assert(els.take(i + 1).drop_last() =~= els.take(i as int));
        let element = &elements[i];
        let ghost e = els[i as int];
        assert(e == element_view(*element));
        let ghost before = links_view(found@);
        if let Some(reference) = element_reference(element) {
            if let Some(link) = resolved_link(base.join(reference.as_str()), kind) {
                found.push(link);
            }
        }
        assert(links_view(found@) =~= before + element_link(e, base@, kind));
        i = i + 1;
    }
    assert(els.take(elements.len() as int) =~= els);
    found
}

/// The reference an element makes, trimmed of whitespace: none for a
/// connection hint, or when the element lacks the attribute. The element
/// carries the value of its reference attribute first and its `rel` second.
pub fn element_reference(element: &Element) -> (r: Option<String>)
    ensures
        optional_text_view(r) == reference_of(element_view(*element)),
{
    let ghost e = element_view(*element);
    if is_connection_hint(element) {
        return None;
    }
    if element.values.len() == 0 {
        return None;
    }
    match &element.values[0] {
        Some(value) => {
            assert(value_at(e, 0) == Some(value@));
            Some(trim(value.as_str()))
        },
        None => None,
    }
}

/// The link a resolved reference becomes: kept when it resolved to a URL
/// whose scheme can be requested.
pub fn resolved_link(resolved: Result<Url, String>, kind: Kind) -> (r: Option<Link>)
    ensures
        match r {
            Some(l) => seq![l@] == link_from(url_result_view(resolved), kind),
            None => link_from(url_result_view(resolved), kind) == Seq::<LinkView>::empty(),
        },
{
    match resolved {
        Ok(url) => {
            if is_checkable(&url) {
                Some(Link { url, kind })
            } else {
                None
            }
        },
        Err(_) => None,
    }
}

/// Whether an element is a connection hint rather than a reference.
pub fn is_connection_hint(element: &Element) -> (r: bool)
    ensures
        r == connection_hint(element_view(*element)),
        r ==> element.name@ == "link"@,
        r ==> (value_at(element_view(*element), 1) matches Some(rel)
            && (has_word_ignoring_case(rel, "preconnect"@) || has_word_ignoring_case(rel, "dns-prefetch"@))),
{
    let ghost e = element_view(*element);
    if !crate::text::same_text(element.name.as_str(), "link") {
        return false;
    }
    if element.values.len() < 2 {
        return false;
    }
    match &element.values[1] {
        None => false,
        Some(rel) => {
            assert(value_at(e, 1) == Some(rel@));
            has_word(rel.as_str(), "preconnect") || has_word(rel.as_str(), "dns-prefetch")
        },
    }
}

/// Whether the page runs any script at all. A page without one cannot grow
/// links after it loads, so there is nothing a browser could add.
pub fn runs_script(html: &str) -> (r: bool)
    ensures
        r == has_script(html@),
{
    let asked: [&str; 0] = [];
    let selection = outside_select(html, "script", &asked);
    assert(texts_view(asked@) =~= Seq::<Seq<char>>::empty());
    match selection {
        Some(elements) => elements.len() > 0,
        None => false,
    }
}

/// A `<base href>` overrides the document's own URL for relative links.
fn base_href(html: &str, fallback: &Url) -> (base: Url)
    ensures
        base@ == document_base(html@, fallback@),
{
    let asked = ["href"];
    let selection = outside_select(html, "base[href]", &asked);
    assert(texts_view(asked@) =~= seq!["href"@]);
    match selection {
        Some(elements) => base_from_elements(&elements, fallback),
        None => fallback.clone(),
    }
}

/// The URL relative links resolve against, given the document's
/// `<base href>` elements (each carrying its `href` first): the first one's
/// `href` resolved against `fallback`, the URL the page was served from; or
/// `fallback` when there is none or it does not resolve.
pub fn base_from_elements(elements: &Vec<Element>, fallback: &Url) -> (base: Url)
    ensures
        base@ == base_of(elements@.map_values(|e: Element| element_view(e)), fallback@),
{
    let ghost els = elements@.map_values(|e: Element| element_view(e));
    if elements.len() == 0 || elements[0].values.len() == 0 {
        return fallback.clone();
    }
    assert(els[0] == element_view(elements@[0]));
    match &elements[0].values[0] {
        Some(href) => {
            assert(value_at(els[0], 0) == Some(href@));
            match fallback.join(href.as_str()) {
                Ok(u) => u,
                Err(_) => fallback.clone(),
            }
        },
        None => fallback.clone(),
    }
}

} // verus!

verus! {

/// Every link of these elements can be requested: its scheme is http or https.
proof fn lemma_elements_links_checkable(els: Seq<ElementView>, base: UrlView, kind: Kind)
    ensures
        forall|i: int| 0 <= i < elements_links(els, base, kind).len()
            ==> checkable_scheme(#[trigger] elements_links(els, base, kind)[i].url.scheme),
    decreases els.len(),
{
    if els.len() > 0 {
        lemma_elements_links_checkable(els.drop_last(), base, kind);
        let rest = elements_links(els.drop_last(), base, kind);
        let one = element_link(els.last(), base, kind);
        assert forall|i: int| 0 <= i < (rest + one).len() implies checkable_scheme(#[trigger] (rest + one)[i].url.scheme) by {
            if i < rest.len() {
                assert((rest + one)[i] == rest[i]);
            } else {
                assert((rest + one)[i] == one[i - rest.len()]);
            }
        }
    }
}

/// Non-HTTP schemes are skipped silently: every link found on a page can be
/// requested, its scheme is http or https.
pub proof fn lemma_links_are_checkable(html: Seq<char>, page: UrlView)
    ensures
        forall|i: int| 0 <= i < page_links(html, page).len()
            ==> checkable_scheme(#[trigger] page_links(html, page)[i].url.scheme),
{
    let base = document_base(html, page);
    let parts = seq![
        selector_links(html, base, "a[href]"@, "href"@, Kind::Anchor),
        selector_links(html, base, "link[href]"@, "href"@, Kind::Asset),
        selector_links(html, base, "img[src]"@, "src"@, Kind::Asset),
        selector_links(html, base, "script[src]"@, "src"@, Kind::Asset),
    ];
    let sels = seq!["a[href]"@, "link[href]"@, "img[src]"@, "script[src]"@];
    let attrs = seq!["href"@, "href"@, "src"@, "src"@];
    let kinds = seq![Kind::Anchor, Kind::Asset, Kind::Asset, Kind::Asset];
    assert forall|k: int| 0 <= k < 4 implies forall|i: int| 0 <= i < (#[trigger] parts[k]).len()
        ==> checkable_scheme(parts[k][i].url.scheme) by {
        match selected(html, sels[k], seq![attrs[k], "rel"@]) {
            Some(els) => lemma_elements_links_checkable(els, base, kinds[k]),
            None => {},
        }
    }
    let all = page_links(html, page);
    assert(all == parts[0] + parts[1] + parts[2] + parts[3]);
    assert forall|i: int| 0 <= i < all.len() implies checkable_scheme(#[trigger] all[i].url.scheme) by {
        let a = parts[0];
        let b = parts[1];
        let c = parts[2];
        let d = parts[3];
        if i < a.len() {
            assert(all[i] == a[i]);
        } else if i < a.len() + b.len() {
            assert(all[i] == b[i - a.len()]);
        } else if i < a.len() + b.len() + c.len() {
            assert(all[i] == c[i - a.len() - b.len()]);
        } else {
            assert(all[i] == d[i - a.len() - b.len() - c.len()]);
        }
    }
}


/// Only a `<link>` element can be a connection hint, and only when its `rel`
/// holds the word `preconnect` or `dns-prefetch`: an anchor, whatever its
/// `rel` says (`noopener`, `nofollow`, ...), never is.
pub proof fn lemma_only_link_elements_are_hints(e: ElementView)
    ensures
        connection_hint(e) ==> e.name == "link"@,
        connection_hint(e) ==> (value_at(e, 1) matches Some(rel)
            && (has_word_ignoring_case(rel, "preconnect"@) || has_word_ignoring_case(rel, "dns-prefetch"@))),
{
}

/// An element that is not a `<link>` keeps its reference, trimmed: no `rel`
/// value drops an anchor, an image or a script.
pub proof fn lemma_other_elements_keep_their_reference(e: ElementView)
    requires
        e.name != "link"@,
    ensures
        reference_of(e) == (match value_at(e, 0) {
            Some(v) => Some(trimmed(v)),
            None => None::<Seq<char>>,
        }),
{
}

} // verus!
