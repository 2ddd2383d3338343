//! Turning a crawl into something a developer can act on.

use vstd::prelude::*;

use crate::check::{detail_text, label_text, FailureView};
use crate::address::Url;
use crate::crawl::{Broken, BrokenView, Page, PageView, Report, ReportView};
use crate::text::{chars_of, decimal, push_char, write_decimal};

verus! {

/// How many broken links are printed before the list is cut short.
pub const MAX_LISTED: usize = 100;

/// The width of the report's left-hand column.
pub const LABEL_WIDTH: usize = 9;

/// `one` for a count of one, `many` otherwise.
pub open spec fn plural_text(count: nat, one: Seq<char>, many: Seq<char>) -> Seq<char> {
    if count == 1 {
        one
    } else {
        many
    }
}

/// `n` spaces.
pub open spec fn spaces(n: nat) -> Seq<char> {
    Seq::new(n, |i: int| ' ')
}

/// `s` right-aligned in a column `width` characters wide (std's `{:>width}`).
pub open spec fn right_aligned(s: Seq<char>, width: nat) -> Seq<char> {
    if s.len() < width {
        spaces((width - s.len()) as nat) + s
    } else {
        s
    }
}

/// The first line: how much was checked.
pub open spec fn summary_line(r: ReportView) -> Seq<char> {
    "Checked "@ + decimal(r.links_checked) + " "@ + plural_text(r.links_checked, "link"@, "links"@)
        + " across "@ + decimal(r.pages_crawled) + " "@ + plural_text(r.pages_crawled, "page"@, "pages"@)
        + ".\n"@
}

/// The sentence saying that pages which needed a browser were read as served.
pub open spec fn render_note(r: ReportView) -> Seq<char> {
    match r.render_unavailable {
        Some(message) => "Pages that needed a browser were checked as served: "@ + message + "\n"@,
        None => Seq::empty(),
    }
}

/// The lines for one broken link: its label and URL, the page that linked to
/// it (or that it was the start), and the detail when there is one.
pub open spec fn entry_text(b: BrokenView) -> Seq<char> {
    "  "@ + right_aligned(label_text(b.failure), LABEL_WIDTH as nat) + "  "@ + b.url.href + "\n"@
        + match b.referrer {
        Some(r) => "             linked from "@ + r.href + "\n"@,
        None => "             the starting URL\n"@,
    } + match detail_text(b.failure) {
        Some(d) => "             "@ + d + "\n"@,
        None => Seq::empty(),
    }
}

/// The entries of the broken links, in order.
pub open spec fn entries_text(bs: Seq<BrokenView>) -> Seq<char>
    decreases bs.len(),
{
    if bs.len() == 0 {
        Seq::empty()
    } else {
        entries_text(bs.drop_last()) + entry_text(bs.last())
    }
}

/// How many broken links are listed: all of them, up to [`MAX_LISTED`].
pub open spec fn listed_count(total: nat) -> nat {
    if total < MAX_LISTED {
        total
    } else {
        MAX_LISTED as nat
    }
}

/// The heading of the list of broken links.
pub open spec fn broken_heading(total: nat) -> Seq<char> {
    let shown = listed_count(total);
    if total > shown {
        "\nBROKEN ("@ + decimal(total) + " total, showing first "@ + decimal(shown) + "):\n\n"@
    } else {
        "\nBROKEN ("@ + decimal(total) + "):\n\n"@
    }
}

/// The closing line, with the true total.
pub open spec fn error_line(total: nat) -> Seq<char> {
    "\nError: "@ + decimal(total) + " broken "@ + plural_text(total, "link"@, "links"@) + "\n"@
}

/// The whole summary of a run.
pub open spec fn rendered(r: ReportView) -> Seq<char> {
    let total = r.broken.len();
    summary_line(r) + render_note(r) + if total == 0 {
        "\nNo broken links.\n"@
    } else {
        broken_heading(total) + entries_text(r.broken.take(listed_count(total) as int))
            + error_line(total)
    }
}

/// `one` for a count of one, `many` otherwise.
pub fn plural<'a>(count: usize, one: &'a str, many: &'a str) -> (s: &'a str)
    ensures
        s@ == plural_text(count as nat, one@, many@),
{
    if count == 1 {
        one
    } else {
        many
    }
}

/// Appends `s` right-aligned in a column `width` characters wide.
fn write_right_aligned(out: &mut String, s: &str, width: usize)
    ensures
        final(out)@ == old(out)@ + right_aligned(s@, width as nat),
{
    let n = chars_of(s).len();
    if n < width {
        let mut k: usize = 0;
        while k < width - n
            invariant
                n < width,
                k <= width - n,
                out@ == old(out)@ + spaces(k as nat),
            decreases width - n - k,
        {
            push_char(out, ' ');
            k = k + 1;
            assert(out@ =~= old(out)@ + spaces(k as nat));
        }
    }
    out.append(s);
    assert(out@ =~= old(out)@ + right_aligned(s@, width as nat));
}

/// Appends the lines for one broken link.
fn write_entry(out: &mut String, broken: &Broken)
    ensures
        final(out)@ == old(out)@ + entry_text(broken@),
{
    out.append("  ");
    let label = broken.failure.label();
    write_right_aligned(out, label.as_str(), LABEL_WIDTH);
    out.append("  ");
    out.append(broken.url.as_str());
    out.append("\n");
    match &broken.referrer {
        Some(referrer) => {
            out.append("             linked from ");
            out.append(referrer.as_str());
            out.append("\n");
        },
        None => {
            out.append("             the starting URL\n");
        },
    }
    match broken.failure.detail() {
        Some(detail) => {
            out.append("             ");
            out.append(detail);
            out.append("\n");
        },
        None => {},
    }
    assert(out@ =~= old(out)@ + entry_text(broken@));
}

/// Appends the first line and the note on rendering.
fn write_head(out: &mut String, report: &Report)
    ensures
        final(out)@ == old(out)@ + summary_line(report@) + render_note(report@),
{
    out.append("Checked ");
    write_decimal(out, report.links_checked as u64);
    out.append(" ");
    out.append(plural(report.links_checked, "link", "links"));
    out.append(" across ");
    write_decimal(out, report.pages_crawled as u64);
    out.append(" ");
    out.append(plural(report.pages_crawled, "page", "pages"));
    out.append(".\n");
    assert(out@ =~= old(out)@ + summary_line(report@));
    match &report.render_unavailable {
        Some(message) => {
            out.append("Pages that needed a browser were checked as served: ");
            out.append(message.as_str());
            out.append("\n");
        },
        None => {},
    }
    assert(out@ =~= old(out)@ + summary_line(report@) + render_note(report@));
}

/// Appends the heading of the list of broken links.
fn write_heading(out: &mut String, total: usize)
    ensures
        final(out)@ == old(out)@ + broken_heading(total as nat),
{
    let shown = if total < MAX_LISTED { total } else { MAX_LISTED };
    out.append("\nBROKEN (");
    write_decimal(out, total as u64);
    if total > shown {
        out.append(" total, showing first ");
        write_decimal(out, shown as u64);
        out.append("):\n\n");
    } else {
        out.append("):\n\n");
    }
    assert(out@ =~= old(out)@ + broken_heading(total as nat));
}

/// Appends the closing line with the true total.
fn write_error_line(out: &mut String, total: usize)
    ensures
        final(out)@ == old(out)@ + error_line(total as nat),
{
    out.append("\nError: ");
    write_decimal(out, total as u64);
    out.append(" broken ");
    out.append(plural(total, "link", "links"));
    out.append("\n");
    assert(out@ =~= old(out)@ + error_line(total as nat));
}

/// The run's human-readable summary.
///
/// Every broken link names its status and the page that linked to it, so the
/// developer knows what to edit without crawling again. Long lists are cut at
/// [`MAX_LISTED`], but the count is always the true one.
pub fn render(report: &Report) -> (out: String)
    ensures
        out@ == rendered(report@),
{
    let mut out = String::new();
    write_head(&mut out, report);
    let ghost head = summary_line(report@) + render_note(report@);
    assert(out@ =~= head);
    if report.is_clean() {
        out.append("\nNo broken links.\n");
        return out;
    }
    let total = report.broken.len();
    let shown = if total < MAX_LISTED { total } else { MAX_LISTED };
    write_heading(&mut out, total);
    let ghost all = report@.broken;
    let ghost listed = head + broken_heading(total as nat);
    let mut i: usize = 0;
    while i < shown
        invariant
            all == report@.broken,
            total == report.broken.len(),
            shown <= total,
            i <= shown,
            out@ == listed + entries_text(all.take(i as int)),
        decreases shown - i,
    {
        assert(all.take(i + 1).drop_last() =~= all.take(i as int));
        write_entry(&mut out, &report.broken[i]);
        i = i + 1;
    }
    write_error_line(&mut out, total);
    assert(shown == listed_count(total as nat));
    assert(out@ =~= rendered(report@));
    out
}

/// The progress line for a page that was read for links: the page and how
/// many links it held.
pub open spec fn page_progress_text(page: PageView) -> Seq<char> {
    "read "@ + page.final_url.href + ": "@ + decimal(page.links.len()) + " "@
        + plural_text(page.links.len(), "link"@, "links"@)
}

/// Where the crawl stands: pages crawled, links checked, links still queued,
/// and one URL in flight, so that a stall points at the host causing it.
pub open spec fn summary_progress_text(pages: nat, checked: nat, queued: nat, waiting: Option<Seq<char>>) -> Seq<char> {
    "progress: "@ + decimal(pages) + " "@ + plural_text(pages, "page"@, "pages"@) + " crawled, "@
        + decimal(checked) + " "@ + plural_text(checked, "link"@, "links"@) + " checked, "@
        + decimal(queued) + " queued"@ + match waiting {
        Some(u) => "; waiting on "@ + u,
        None => Seq::empty(),
    }
}

/// The progress line for a page that was read for links.
pub fn page_progress(page: &Page) -> (line: String)
    ensures
        line@ == page_progress_text(page@),
{
    let mut out = String::new();
    out.append("read ");
    out.append(page.final_url.as_str());
    out.append(": ");
    let n = page.links.len();
    assert(page@.links.len() == n);
    write_decimal(&mut out, n as u64);
    out.append(" ");
    out.append(plural(n, "link", "links"));
    assert(out@ =~= page_progress_text(page@));
    out
}

/// The periodic progress line: pages crawled, links checked, links still
/// queued, and the URL that has been in flight longest, if any.
pub fn summary_progress(pages: usize, checked: usize, queued: usize, waiting: Option<&Url>) -> (line: String)
    ensures
        line@ == summary_progress_text(pages as nat, checked as nat, queued as nat, match waiting {
            Some(u) => Some(u@.href),
            None => None,
        }),
{
    let mut out = String::new();
    out.append("progress: ");
    write_decimal(&mut out, pages as u64);
    out.append(" ");
    out.append(plural(pages, "page", "pages"));
    out.append(" crawled, ");
    write_decimal(&mut out, checked as u64);
    out.append(" ");
    out.append(plural(checked, "link", "links"));
    out.append(" checked, ");
    write_decimal(&mut out, queued as u64);
    out.append(" queued");
    match waiting {
        Some(u) => {
            out.append("; waiting on ");
            out.append(u.as_str());
        },
        None => {},
    }
    assert(out@ =~= summary_progress_text(pages as nat, checked as nat, queued as nat, match waiting {
        Some(u) => Some(u@.href),
        None => None,
    }));
    out
}

} // verus!

verus! {

/// However long the list and wherever it is cut, a run with broken links
/// ends by stating their true total.
pub proof fn lemma_total_is_always_stated(r: ReportView)
    requires
        r.broken.len() > 0,
    ensures
        rendered(r).len() >= error_line(r.broken.len()).len(),
        rendered(r).subrange(
            rendered(r).len() - error_line(r.broken.len()).len(),
            rendered(r).len() as int,
        ) == error_line(r.broken.len()),
{
    let total = r.broken.len();
    let head = summary_line(r) + render_note(r) + broken_heading(total)
        + entries_text(r.broken.take(listed_count(total) as int));
    assert(rendered(r) == head + error_line(total));
    assert((head + error_line(total)).subrange(head.len() as int, (head + error_line(total)).len() as int)
        =~= error_line(total));
}

/// The list names at most [`MAX_LISTED`] broken links, the first ones found,
/// and all of them when there are no more than that.
pub proof fn lemma_list_is_cut_at_max(total: nat)
    ensures
        listed_count(total) <= MAX_LISTED,
        total <= MAX_LISTED ==> listed_count(total) == total,
        total > MAX_LISTED ==> listed_count(total) == MAX_LISTED,
{
}

} // verus!

verus! {

/// The decimal form of a number is made of digits only.
proof fn lemma_decimal_is_digits(n: nat)
    ensures
        decimal(n).len() > 0,
        forall|i: int| 0 <= i < decimal(n).len() ==> '0' <= #[trigger] decimal(n)[i] && decimal(n)[i] <= '9',
    decreases n,
{
    if n >= 10 {
        lemma_decimal_is_digits(n / 10);
    }
    assert forall|d: nat| d < 10 implies '0' <= #[trigger] crate::text::digit(d) && crate::text::digit(d) <= '9' by {}
}

/// No newline in `s`.
pub open spec fn one_line(s: Seq<char>) -> bool {
    forall|i: int| 0 <= i < s.len() ==> s[i] != '\n'
}

/// The report's first line is the summary of how much was checked, e.g.
/// "Checked 412 links across 38 pages.": the summary holds no newline but
/// the one that ends it, and the report begins with it.
pub proof fn lemma_first_line_is_the_summary(r: ReportView)
    ensures
        summary_line(r).len() > 0,
        summary_line(r).last() == '\n',
        one_line(summary_line(r).drop_last()),
        rendered(r).subrange(0, summary_line(r).len() as int) == summary_line(r),
{
    reveal_strlit("Checked ");
    reveal_strlit(" ");
    reveal_strlit("link");
    reveal_strlit("links");
    reveal_strlit(" across ");
    reveal_strlit("page");
    reveal_strlit("pages");
    reveal_strlit(".\n");
    lemma_decimal_is_digits(r.links_checked);
    lemma_decimal_is_digits(r.pages_crawled);
    let s = summary_line(r);
    let body = s.drop_last();
    let a = decimal(r.links_checked);
    let b = decimal(r.pages_crawled);
    let w1 = plural_text(r.links_checked, "link"@, "links"@);
    let w2 = plural_text(r.pages_crawled, "page"@, "pages"@);
    assert(body =~= "Checked "@ + a + " "@ + w1 + " across "@ + b + " "@ + w2 + "."@) by {
        reveal_strlit(".");
    }
    reveal_strlit(".");
    assert forall|i: int| 0 <= i < body.len() implies body[i] != '\n' by {
        let p1 = "Checked "@;
        let p2 = p1 + a;
        let p3 = p2 + " "@;
        let p4 = p3 + w1;
        let p5 = p4 + " across "@;
        let p6 = p5 + b;
        let p7 = p6 + " "@;
        let p8 = p7 + w2;
        if i < p1.len() {
        } else if i < p2.len() {
            assert(body[i] == a[i - p1.len()]);
        } else if i < p3.len() {
        } else if i < p4.len() {
            assert(body[i] == w1[i - p3.len()]);
        } else if i < p5.len() {
        } else if i < p6.len() {
            assert(body[i] == b[i - p5.len()]);
        } else if i < p7.len() {
        } else if i < p8.len() {
            assert(body[i] == w2[i - p7.len()]);
        } else {
        }
    }
    let rest = rendered(r).subrange(s.len() as int, rendered(r).len() as int);
    assert(rendered(r) =~= s + rest);
}

} // verus!

verus! {

/// A newline.
pub open spec fn newline() -> Seq<char> {
    seq!['\n']
}

/// Lines one after another, each ended by a newline.
pub open spec fn joined(lines: Seq<Seq<char>>) -> Seq<char>
    decreases lines.len(),
{
    if lines.len() == 0 {
        Seq::empty()
    } else {
        joined(lines.drop_last()) + lines.last() + newline()
    }
}

/// The first line, without its newline.
pub open spec fn summary_body(r: ReportView) -> Seq<char> {
    "Checked "@ + decimal(r.links_checked) + " "@ + plural_text(r.links_checked, "link"@, "links"@)
        + " across "@ + decimal(r.pages_crawled) + " "@ + plural_text(r.pages_crawled, "page"@, "pages"@)
        + "."@
}

/// The line on rendering, if there is one.
pub open spec fn note_lines(r: ReportView) -> Seq<Seq<char>> {
    match r.render_unavailable {
        Some(message) => seq!["Pages that needed a browser were checked as served: "@ + message],
        None => Seq::empty(),
    }
}

/// The heading of the list of broken links, without the blank lines round it.
pub open spec fn heading_body(total: nat) -> Seq<char> {
    let shown = listed_count(total);
    if total > shown {
        "BROKEN ("@ + decimal(total) + " total, showing first "@ + decimal(shown) + "):"@
    } else {
        "BROKEN ("@ + decimal(total) + "):"@
    }
}

/// The closing line, without the blank line before it.
pub open spec fn error_body(total: nat) -> Seq<char> {
    "Error: "@ + decimal(total) + " broken "@ + plural_text(total, "link"@, "links"@)
}

/// The lines for one broken link: label and URL; the page that linked to it,
/// or that it was the start; and the detail, when there is one.
pub open spec fn entry_lines(b: BrokenView) -> Seq<Seq<char>> {
    seq![
        "  "@ + right_aligned(label_text(b.failure), LABEL_WIDTH as nat) + "  "@ + b.url.href,
        match b.referrer {
            Some(r) => "             linked from "@ + r.href,
            None => "             the starting URL"@,
        },
    ] + match detail_text(b.failure) {
        Some(d) => seq!["             "@ + d],
        None => Seq::empty(),
    }
}

/// The lines of the entries of the broken links, in order.
pub open spec fn entries_lines(bs: Seq<BrokenView>) -> Seq<Seq<char>>
    decreases bs.len(),
{
    if bs.len() == 0 {
        Seq::empty()
    } else {
        entries_lines(bs.drop_last()) + entry_lines(bs.last())
    }
}

/// The report, line by line.
pub open spec fn report_lines(r: ReportView) -> Seq<Seq<char>> {
    let total = r.broken.len();
    seq![summary_body(r)] + note_lines(r) + if total == 0 {
        seq![Seq::empty(), "No broken links."@]
    } else {
        seq![Seq::empty(), heading_body(total), Seq::empty()]
            + entries_lines(r.broken.take(listed_count(total) as int))
            + seq![Seq::empty(), error_body(total)]
    }
}

/// Joining two runs of lines is joining each, one after the other.
proof fn lemma_joined_concat(a: Seq<Seq<char>>, b: Seq<Seq<char>>)
    ensures
        joined(a + b) == joined(a) + joined(b),
    decreases b.len(),
{
    if b.len() == 0 {
        assert(a + b =~= a);
        assert(joined(a) + joined(b) =~= joined(a));
    } else {
        assert((a + b).drop_last() =~= a + b.drop_last());
        assert((a + b).last() == b.last());
        lemma_joined_concat(a, b.drop_last());
        assert(joined(a + b) =~= joined(a) + joined(b));
    }
}

/// One line, joined, is that line and a newline.
proof fn lemma_joined_one(x: Seq<char>)
    ensures
        joined(seq![x]) == x + newline(),
{
    assert(seq![x].drop_last() =~= Seq::<Seq<char>>::empty());
    assert(joined(Seq::<Seq<char>>::empty()) == Seq::<char>::empty());
    assert(seq![x].last() == x);
    assert(joined(seq![x]) =~= x + newline());
}

/// The entry of one broken link is its lines, joined.
proof fn lemma_entry_is_lines(b: BrokenView)
    ensures
        entry_text(b) == joined(entry_lines(b)),
{
    reveal_strlit("\n");
    reveal_strlit("             the starting URL\n");
    reveal_strlit("             the starting URL");
    let first = "  "@ + right_aligned(label_text(b.failure), LABEL_WIDTH as nat) + "  "@ + b.url.href;
    let second = match b.referrer {
        Some(r) => "             linked from "@ + r.href,
        None => "             the starting URL"@,
    };
    let two = seq![first, second];
    assert(two.drop_last() =~= seq![first]);
    lemma_joined_one(first);
    assert(joined(two) =~= first + newline() + second + newline());
    assert("\n"@ =~= newline());
    assert("             the starting URL\n"@ =~= "             the starting URL"@ + newline());
    match detail_text(b.failure) {
        Some(d) => {
            let third = "             "@ + d;
            assert(entry_lines(b) =~= two + seq![third]);
            lemma_joined_concat(two, seq![third]);
            lemma_joined_one(third);
        },
        None => {
            assert(entry_lines(b) =~= two);
        },
    }
    assert(entry_text(b) =~= joined(entry_lines(b)));
}

/// The entries of the broken links are their lines, joined.
proof fn lemma_entries_are_lines(bs: Seq<BrokenView>)
    ensures
        entries_text(bs) == joined(entries_lines(bs)),
    decreases bs.len(),
{
    if bs.len() > 0 {
        lemma_entries_are_lines(bs.drop_last());
        lemma_entry_is_lines(bs.last());
        lemma_joined_concat(entries_lines(bs.drop_last()), entry_lines(bs.last()));
    }
}

/// The report is its lines, one after another, each ended by a newline.
#[verifier::spinoff_prover]
pub proof fn lemma_report_is_its_lines(r: ReportView)
    ensures
        rendered(r) == joined(report_lines(r)),
{
    reveal_strlit(".\n");
    reveal_strlit(".");
    reveal_strlit("\n");
    reveal_strlit("Pages that needed a browser were checked as served: ");
    let total = r.broken.len();
    lemma_joined_one(summary_body(r));
    assert(summary_line(r) =~= summary_body(r) + newline());
    let head = seq![summary_body(r)] + note_lines(r);
    lemma_joined_concat(seq![summary_body(r)], note_lines(r));
    match r.render_unavailable {
        Some(m) => {
            lemma_joined_one("Pages that needed a browser were checked as served: "@ + m);
        },
        None => {
            assert(joined(note_lines(r)) =~= Seq::<char>::empty());
        },
    }
    assert(render_note(r) =~= joined(note_lines(r)));
    assert(joined(head) =~= summary_line(r) + render_note(r));
    if total == 0 {
        reveal_strlit("\nNo broken links.\n");
        reveal_strlit("No broken links.");
        let tail = seq![Seq::<char>::empty(), "No broken links."@];
        assert(tail.drop_last() =~= seq![Seq::<char>::empty()]);
        lemma_joined_one(Seq::<char>::empty());
        assert(joined(tail) =~= "\nNo broken links.\n"@);
        lemma_joined_concat(head, tail);
        assert(report_lines(r) == head + tail);
    } else {
        let listed = r.broken.take(listed_count(total) as int);
        let top = seq![Seq::<char>::empty(), heading_body(total), Seq::<char>::empty()];
        let bottom = seq![Seq::<char>::empty(), error_body(total)];
        reveal_strlit("\nBROKEN (");
        reveal_strlit("BROKEN (");
        reveal_strlit("):\n\n");
        reveal_strlit("):");
        reveal_strlit("\nError: ");
        reveal_strlit("Error: ");
        assert(top.drop_last().drop_last() =~= seq![Seq::<char>::empty()]);
        assert(top.drop_last() =~= seq![Seq::<char>::empty(), heading_body(total)]);
        lemma_joined_one(Seq::<char>::empty());
        let hb = heading_body(total);
        assert(joined(top.drop_last()) =~= newline() + hb + newline());
        assert(joined(top) =~= newline() + hb + newline() + newline());
        assert("\nBROKEN ("@ =~= newline() + "BROKEN ("@);
        assert("):\n\n"@ =~= "):"@ + newline() + newline());
        assert(joined(top) =~= broken_heading(total));
        assert(bottom.drop_last() =~= seq![Seq::<char>::empty()]);
        assert("\nError: "@ =~= newline() + "Error: "@);
        assert("\n"@ =~= newline());
        assert(joined(bottom) =~= error_line(total));
        lemma_entries_are_lines(listed);
        lemma_joined_concat(head, top);
        lemma_joined_concat(head + top, entries_lines(listed));
        lemma_joined_concat(head + top + entries_lines(listed), bottom);
        assert(report_lines(r) =~= head + top + entries_lines(listed) + bottom);
    }
}


/// Every one of some lines holds no newline.
pub open spec fn all_one_line(lines: Seq<Seq<char>>) -> bool {
    forall|i: int| 0 <= i < lines.len() ==> one_line(#[trigger] lines[i])
}

/// The text of a broken link that the report prints holds no newline: its
/// URL, its referrer's and its detail.
pub open spec fn entry_is_plain(b: BrokenView) -> bool {
    &&& one_line(b.url.href)
    &&& (b.referrer matches Some(p) ==> one_line(p.href))
    &&& (detail_text(b.failure) matches Some(d) ==> one_line(d))
}

/// Two runs of text hold no newline exactly when each does.
proof fn lemma_one_line_concat(a: Seq<char>, b: Seq<char>)
    ensures
        one_line(a + b) <==> (one_line(a) && one_line(b)),
{
    if one_line(a + b) {
        assert forall|i: int| 0 <= i < a.len() implies a[i] != '\n' by {
            assert((a + b)[i] == a[i]);
        }
        assert forall|i: int| 0 <= i < b.len() implies b[i] != '\n' by {
            assert((a + b)[a.len() + i] == b[i]);
        }
    }
}

/// Two runs of lines are all free of newlines exactly when each run is.
proof fn lemma_all_one_line_concat(a: Seq<Seq<char>>, b: Seq<Seq<char>>)
    ensures
        all_one_line(a + b) <==> (all_one_line(a) && all_one_line(b)),
{
    if all_one_line(a + b) {
        assert forall|i: int| 0 <= i < a.len() implies one_line(#[trigger] a[i]) by {
            assert((a + b)[i] == a[i]);
        }
        assert forall|i: int| 0 <= i < b.len() implies one_line(#[trigger] b[i]) by {
            assert((a + b)[a.len() + i] == b[i]);
        }
    }
    if all_one_line(a) && all_one_line(b) {
        assert forall|i: int| 0 <= i < (a + b).len() implies one_line(#[trigger] (a + b)[i]) by {
            if i < a.len() {
                assert((a + b)[i] == a[i]);
            } else {
                assert((a + b)[i] == b[i - a.len()]);
            }
        }
    }
}

/// A number in decimal holds no newline.
proof fn lemma_decimal_one_line(n: nat)
    ensures
        one_line(decimal(n)),
{
    lemma_decimal_is_digits(n);
}

/// A failure's label holds no newline.
proof fn lemma_label_one_line(f: FailureView)
    ensures
        one_line(label_text(f)),
        one_line(right_aligned(label_text(f), LABEL_WIDTH as nat)),
{
    reveal_strlit("timeout");
    reveal_strlit("DNS");
    reveal_strlit("refused");
    reveal_strlit("redirects");
    reveal_strlit("render");
    reveal_strlit("error");
    if let FailureView::Status(code) = f {
        lemma_decimal_one_line(code as nat);
    }
    let l = label_text(f);
    if l.len() < LABEL_WIDTH {
        lemma_one_line_concat(spaces((LABEL_WIDTH - l.len()) as nat), l);
    }
}

/// The lines of one broken link hold no newline when its text holds none.
proof fn lemma_entry_lines_one_line(b: BrokenView)
    requires
        entry_is_plain(b),
    ensures
        all_one_line(entry_lines(b)),
{
    reveal_strlit("  ");
    reveal_strlit("             linked from ");
    reveal_strlit("             the starting URL");
    reveal_strlit("             ");
    lemma_label_one_line(b.failure);
    let ra = right_aligned(label_text(b.failure), LABEL_WIDTH as nat);
    lemma_one_line_concat("  "@, ra);
    lemma_one_line_concat("  "@ + ra, "  "@);
    lemma_one_line_concat("  "@ + ra + "  "@, b.url.href);
    let first = "  "@ + ra + "  "@ + b.url.href;
    let second = match b.referrer {
        Some(r) => "             linked from "@ + r.href,
        None => "             the starting URL"@,
    };
    if let Some(r) = b.referrer {
        lemma_one_line_concat("             linked from "@, r.href);
    }
    let two = seq![first, second];
    assert(all_one_line(two)) by {
        assert forall|i: int| 0 <= i < two.len() implies one_line(#[trigger] two[i]) by {
            if i == 0 {
                assert(two[i] == first);
            } else {
                assert(two[i] == second);
            }
        }
    }
    match detail_text(b.failure) {
        Some(d) => {
            lemma_one_line_concat("             "@, d);
            let third = seq!["             "@ + d];
            assert(all_one_line(third)) by {
                assert forall|i: int| 0 <= i < third.len() implies one_line(#[trigger] third[i]) by {
                    assert(third[i] == "             "@ + d);
                }
            }
            lemma_all_one_line_concat(two, third);
            assert(entry_lines(b) =~= two + third);
        },
        None => {
            assert(entry_lines(b) =~= two);
        },
    }
}

/// The lines of the entries hold no newline when no entry's text does.
proof fn lemma_entries_lines_one_line(bs: Seq<BrokenView>)
    requires
        forall|i: int| 0 <= i < bs.len() ==> entry_is_plain(#[trigger] bs[i]),
    ensures
        all_one_line(entries_lines(bs)),
    decreases bs.len(),
{
    if bs.len() > 0 {
        let rest = bs.drop_last();
        assert forall|i: int| 0 <= i < rest.len() implies entry_is_plain(#[trigger] rest[i]) by {
            assert(rest[i] == bs[i]);
        }
        lemma_entries_lines_one_line(rest);
        assert(entry_is_plain(bs[bs.len() - 1]));
        lemma_entry_lines_one_line(bs.last());
        lemma_all_one_line_concat(entries_lines(rest), entry_lines(bs.last()));
    }
}

/// A run of one line holds no newline when that line holds none.
proof fn lemma_all_one_line_one(x: Seq<char>)
    requires
        one_line(x),
    ensures
        all_one_line(seq![x]),
{
    assert forall|i: int| 0 <= i < seq![x].len() implies one_line(#[trigger] seq![x][i]) by {
        assert(seq![x][i] == x);
    }
}

/// When no URL, referrer, detail or note holds a newline, no line of the
/// report does: the report is exactly the lines [`report_lines`] gives.
#[verifier::spinoff_prover]
pub proof fn lemma_report_lines_hold_no_newline(r: ReportView)
    requires
        forall|i: int| 0 <= i < r.broken.len() ==> entry_is_plain(#[trigger] r.broken[i]),
        r.render_unavailable matches Some(m) ==> one_line(m),
    ensures
        all_one_line(report_lines(r)),
{
    reveal_strlit("Checked ");
    reveal_strlit(" ");
    reveal_strlit("link");
    reveal_strlit("links");
    reveal_strlit(" across ");
    reveal_strlit("page");
    reveal_strlit("pages");
    reveal_strlit(".");
    reveal_strlit("Pages that needed a browser were checked as served: ");
    reveal_strlit("No broken links.");
    reveal_strlit("BROKEN (");
    reveal_strlit(" total, showing first ");
    reveal_strlit("):");
    reveal_strlit("Error: ");
    reveal_strlit(" broken ");
    let total = r.broken.len();
    lemma_decimal_one_line(r.links_checked);
    lemma_decimal_one_line(r.pages_crawled);
    lemma_decimal_one_line(total);
    lemma_decimal_one_line(listed_count(total));
    let w1 = plural_text(r.links_checked, "link"@, "links"@);
    let w2 = plural_text(r.pages_crawled, "page"@, "pages"@);
    let a = decimal(r.links_checked);
    let b = decimal(r.pages_crawled);
    lemma_one_line_concat("Checked "@, a);
    lemma_one_line_concat("Checked "@ + a, " "@);
    lemma_one_line_concat("Checked "@ + a + " "@, w1);
    lemma_one_line_concat("Checked "@ + a + " "@ + w1, " across "@);
    lemma_one_line_concat("Checked "@ + a + " "@ + w1 + " across "@, b);
    lemma_one_line_concat("Checked "@ + a + " "@ + w1 + " across "@ + b, " "@);
    lemma_one_line_concat("Checked "@ + a + " "@ + w1 + " across "@ + b + " "@, w2);
    lemma_one_line_concat("Checked "@ + a + " "@ + w1 + " across "@ + b + " "@ + w2, "."@);
    lemma_all_one_line_one(summary_body(r));
    match r.render_unavailable {
        Some(m) => {
            lemma_one_line_concat("Pages that needed a browser were checked as served: "@, m);
            lemma_all_one_line_one("Pages that needed a browser were checked as served: "@ + m);
        },
        None => {},
    }
    let head = seq![summary_body(r)] + note_lines(r);
    lemma_all_one_line_concat(seq![summary_body(r)], note_lines(r));
    let e = Seq::<char>::empty();
    if total == 0 {
        let tail = seq![e, "No broken links."@];
        assert(all_one_line(tail)) by {
            assert forall|i: int| 0 <= i < tail.len() implies one_line(#[trigger] tail[i]) by {
                if i == 0 {
                    assert(tail[i] == e);
                } else {
                    assert(tail[i] == "No broken links."@);
                }
            }
        }
        lemma_all_one_line_concat(head, tail);
    } else {
        let shown = listed_count(total);
        let t = decimal(total);
        let sh = decimal(shown);
        lemma_one_line_concat("BROKEN ("@, t);
        lemma_one_line_concat("BROKEN ("@ + t, " total, showing first "@);
        lemma_one_line_concat("BROKEN ("@ + t + " total, showing first "@, sh);
        lemma_one_line_concat("BROKEN ("@ + t + " total, showing first "@ + sh, "):"@);
        lemma_one_line_concat("BROKEN ("@ + t, "):"@);
        let w = plural_text(total, "link"@, "links"@);
        lemma_one_line_concat("Error: "@, t);
        lemma_one_line_concat("Error: "@ + t, " broken "@);
        lemma_one_line_concat("Error: "@ + t + " broken "@, w);
        let top = seq![e, heading_body(total), e];
        assert(all_one_line(top)) by {
            assert forall|i: int| 0 <= i < top.len() implies one_line(#[trigger] top[i]) by {
                if i == 1 {
                    assert(top[i] == heading_body(total));
                } else {
                    assert(top[i] == e);
                }
            }
        }
        let bottom = seq![e, error_body(total)];
        assert(all_one_line(bottom)) by {
            assert forall|i: int| 0 <= i < bottom.len() implies one_line(#[trigger] bottom[i]) by {
                if i == 1 {
                    assert(bottom[i] == error_body(total));
                } else {
                    assert(bottom[i] == e);
                }
            }
        }
        let listed = r.broken.take(shown as int);
        assert forall|i: int| 0 <= i < listed.len() implies entry_is_plain(#[trigger] listed[i]) by {
            assert(listed[i] == r.broken[i]);
        }
        lemma_entries_lines_one_line(listed);
        lemma_all_one_line_concat(head, top);
        lemma_all_one_line_concat(head + top, entries_lines(listed));
        lemma_all_one_line_concat(head + top + entries_lines(listed), bottom);
    }
}

/// With broken links, the report reads, line by line: the summary, the note
/// on rendering if there is one, a blank line, the heading with the true
/// total, a blank line, the entries of the first [`MAX_LISTED`] broken links
/// in order, a blank line, and the closing line with the true total.
pub proof fn lemma_broken_report_layout(r: ReportView)
    requires
        r.broken.len() > 0,
    ensures
        ({
            let lines = report_lines(r);
            let k = note_lines(r).len() as int;
            let total = r.broken.len();
            &&& k == (if r.render_unavailable is Some { 1int } else { 0int })
            &&& lines[0] == summary_body(r)
            &&& lines[k + 1] == Seq::<char>::empty()
            &&& lines[k + 2] == heading_body(total)
            &&& lines[k + 3] == Seq::<char>::empty()
            &&& lines.len() >= k + 6
            &&& lines.subrange(k + 4, lines.len() - 2) == entries_lines(r.broken.take(listed_count(total) as int))
            &&& lines[lines.len() - 2] == Seq::<char>::empty()
            &&& lines[lines.len() - 1] == error_body(total)
        }),
{
    let total = r.broken.len();
    let e = Seq::<char>::empty();
    let head = seq![summary_body(r)] + note_lines(r);
    let top = seq![e, heading_body(total), e];
    let mid = entries_lines(r.broken.take(listed_count(total) as int));
    let bottom = seq![e, error_body(total)];
    let lines = report_lines(r);
    assert(lines =~= head + top + mid + bottom);
    let k = note_lines(r).len() as int;
    assert(head.len() == k + 1);
    assert(lines[0] == head[0]);
    assert(lines[k + 1] == top[0]);
    assert(lines[k + 2] == top[1]);
    assert(lines[k + 3] == top[2]);
    assert(lines.subrange(k + 4, lines.len() - 2) =~= mid);
    assert(lines[lines.len() - 2] == bottom[0]);
    assert(lines[lines.len() - 1] == bottom[1]);
}

} // verus!
