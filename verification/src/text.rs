//! Character-level helpers on strings, each with its meaning stated over
//! `Seq<char>`.

use vstd::prelude::*;

verus! {

/// Appends one character to a string (std's `String::push`).
#[verifier::external_body]
pub(crate) fn push_char(s: &mut String, c: char)
    ensures
        final(s)@ == old(s)@.push(c),
{
    s.push(c);
}

/// The characters of `s`, in order, as a vector.
pub fn chars_of(s: &str) -> (v: Vec<char>)
    ensures
        v@ == s@,
{
    let mut v: Vec<char> = Vec::new();
    for c in it: s.chars()
        invariant
            v@ == it.seq().take(it.index() as int),
    {
        v.push(c);
    }
    v
}

/// The decimal digit for `d`, which is below ten.
pub open spec fn digit(d: nat) -> char {
    ((48 + d) as u8) as char
}

/// The decimal representation of `n`, without leading zeros.
pub open spec fn decimal(n: nat) -> Seq<char>
    decreases n,
{
    if n < 10 {
        seq![digit(n)]
    } else {
        decimal(n / 10).push(digit(n % 10))
    }
}

/// Appends the decimal representation of `n` to `out`.
pub fn write_decimal(out: &mut String, n: u64)
    ensures
        final(out)@ == old(out)@ + decimal(n as nat),
    decreases n,
{
    if n >= 10 {
        write_decimal(out, n / 10);
    }
    let d: u8 = (n % 10) as u8;
    push_char(out, (48u8 + d) as char);
}

} // verus!

verus! {

/// Whether two strings hold the same characters.
pub fn same_text(a: &str, b: &str) -> (r: bool)
    ensures
        r == (a@ == b@),
{
    let x = chars_of(a);
    let y = chars_of(b);
    if x.len() != y.len() {
        return false;
    }
    let mut i: usize = 0;
    while i < x.len()
        invariant
            x@ == a@,
            y@ == b@,
            x.len() == y.len(),
            i <= x.len(),
            forall|j: int| 0 <= j < i ==> x@[j] == y@[j],
        decreases x.len() - i,
    {
        if x[i] != y[i] {
            return false;
        }
        i = i + 1;
    }
    assert(x@ =~= y@);
    true
}

} // verus!

verus! {

/// A character with ASCII upper case letters mapped to lower case.
pub open spec fn lower_char(c: char) -> char {
    if 'A' <= c && c <= 'Z' {
        ((c as u32) + 32) as char
    } else {
        c
    }
}

/// `s` with ASCII upper case letters mapped to lower case, all else kept.
pub open spec fn ascii_lowercase(s: Seq<char>) -> Seq<char> {
    s.map_values(|c: char| lower_char(c))
}

/// `s` begins with `p`.
pub open spec fn starts_with(s: Seq<char>, p: Seq<char>) -> bool {
    p.len() <= s.len() && s.subrange(0, p.len() as int) == p
}

/// `p` occurs in `s` at position `i`.
pub open spec fn occurs_at(s: Seq<char>, p: Seq<char>, i: int) -> bool {
    0 <= i && i + p.len() <= s.len() && s.subrange(i, i + p.len()) == p
}

/// `p` occurs somewhere in `s`.
pub open spec fn contains_text(s: Seq<char>, p: Seq<char>) -> bool {
    exists|i: int| occurs_at(s, p, i)
}

fn lower_char_exec(c: char) -> (r: char)
    ensures
        r == lower_char(c),
{
    if 'A' <= c && c <= 'Z' {
        let b: u8 = c as u8;
        assert(b == c as u32);
        (b + 32) as char
    } else {
        c
    }
}

/// `s` with ASCII letters in lower case (std's `str::to_ascii_lowercase`).
pub fn to_ascii_lowercase(s: &str) -> (r: Vec<char>)
    ensures
        r@ == ascii_lowercase(s@),
{
    let v = chars_of(s);
    let mut out: Vec<char> = Vec::new();
    let mut i: usize = 0;
    while i < v.len()
        invariant
            v@ == s@,
            i <= v.len(),
            out@ == ascii_lowercase(v@.take(i as int)),
        decreases v.len() - i,
    {
        let c = lower_char_exec(v[i]);
        out.push(c);
        i = i + 1;
        assert(out@ =~= ascii_lowercase(v@.take(i as int)));
    }
    assert(v@.take(v.len() as int) =~= v@);
    out
}

/// Whether `p` occurs in `s` at position `i`.
fn occurs_at_exec(s: &Vec<char>, p: &Vec<char>, i: usize) -> (r: bool)
    requires
        i + p.len() <= s.len(),
    ensures
        r == occurs_at(s@, p@, i as int),
{
    let mut j: usize = 0;
    while j < p.len()
        invariant
            i + p.len() <= s.len(),
            j <= p.len(),
            forall|k: int| 0 <= k < j ==> s@[i + k] == p@[k],
        decreases p.len() - j,
    {
        if s[i + j] != p[j] {
            assert(s@.subrange(i as int, i + p.len())[j as int] != p@[j as int]);
            return false;
        }
        j = j + 1;
    }
    assert(s@.subrange(i as int, i + p.len()) =~= p@);
    true
}

/// Whether `s` begins with `p`.
pub fn has_prefix(s: &Vec<char>, p: &Vec<char>) -> (r: bool)
    ensures
        r == starts_with(s@, p@),
{
    if p.len() > s.len() {
        return false;
    }
    occurs_at_exec(s, p, 0)
}

/// Whether `p` occurs anywhere in `s`.
pub fn has_infix(s: &Vec<char>, p: &Vec<char>) -> (r: bool)
    ensures
        r == contains_text(s@, p@),
{
    if p.len() > s.len() {
        assert forall|i: int| !occurs_at(s@, p@, i) by {}
        return false;
    }
    let last: usize = s.len() - p.len();
    let mut i: usize = 0;
    while i < last
        invariant
            last == s.len() - p.len(),
            p.len() <= s.len(),
            i <= last,
            forall|k: int| 0 <= k < i ==> !occurs_at(s@, p@, k),
        decreases last - i,
    {
        if occurs_at_exec(s, p, i) {
            return true;
        }
        i = i + 1;
    }
    if occurs_at_exec(s, p, last) {
        return true;
    }
    assert forall|k: int| !occurs_at(s@, p@, k) by {
        if 0 <= k && k + p.len() <= s.len() {
            assert(k <= last);
        }
    }
    false
}

} // verus!

verus! {

/// A character with the Unicode `White_Space` property (std's
/// `char::is_whitespace`).
pub open spec fn is_whitespace(c: char) -> bool {
    ||| '\u{9}' <= c && c <= '\u{D}'
    ||| c == ' '
    ||| c == '\u{85}'
    ||| c == '\u{A0}'
    ||| c == '\u{1680}'
    ||| '\u{2000}' <= c && c <= '\u{200A}'
    ||| c == '\u{2028}'
    ||| c == '\u{2029}'
    ||| c == '\u{202F}'
    ||| c == '\u{205F}'
    ||| c == '\u{3000}'
}

/// `s` without its leading whitespace.
pub open spec fn trim_start(s: Seq<char>) -> Seq<char>
    decreases s.len(),
{
    if s.len() > 0 && is_whitespace(s[0]) {
        trim_start(s.drop_first())
    } else {
        s
    }
}

/// `s` without its trailing whitespace.
pub open spec fn trim_end(s: Seq<char>) -> Seq<char>
    decreases s.len(),
{
    if s.len() > 0 && is_whitespace(s.last()) {
        trim_end(s.drop_last())
    } else {
        s
    }
}

/// `s` without leading and trailing whitespace (std's `str::trim`).
pub open spec fn trimmed(s: Seq<char>) -> Seq<char> {
    trim_end(trim_start(s))
}

fn is_whitespace_exec(c: char) -> (r: bool)
    ensures
        r == is_whitespace(c),
{
    ('\u{9}' <= c && c <= '\u{D}') || c == ' ' || c == '\u{85}' || c == '\u{A0}' || c == '\u{1680}'
        || ('\u{2000}' <= c && c <= '\u{200A}') || c == '\u{2028}' || c == '\u{2029}'
        || c == '\u{202F}' || c == '\u{205F}' || c == '\u{3000}'
}

/// The characters `v[from..to]` as a string.
pub fn string_from_range(v: &Vec<char>, from: usize, to: usize) -> (r: String)
    requires
        from <= to <= v.len(),
    ensures
        r@ == v@.subrange(from as int, to as int),
{
    let mut out = String::new();
    let mut i: usize = from;
    while i < to
        invariant
            from <= i <= to <= v.len(),
            out@ == v@.subrange(from as int, i as int),
        decreases to - i,
    {
        push_char(&mut out, v[i]);
        i = i + 1;
        assert(out@ =~= v@.subrange(from as int, i as int));
    }
    out
}

/// `s` without leading and trailing whitespace.
pub fn trim(s: &str) -> (r: String)
    ensures
        r@ == trimmed(s@),
{
    let v = chars_of(s);
    let n = v.len();
    let mut a: usize = 0;
    assert(v@.subrange(0, n as int) =~= v@);
    while a < n && is_whitespace_exec(v[a])
        invariant
            v@ == s@,
            n == v.len(),
            a <= n,
            trim_start(v@) == trim_start(v@.subrange(a as int, n as int)),
        decreases n - a,
    {
        assert(v@.subrange(a as int, n as int).drop_first() =~= v@.subrange(a + 1, n as int));
        a = a + 1;
    }
    let ghost t = v@.subrange(a as int, n as int);
    assert(trim_start(v@) == t);
    let mut b: usize = n;
    while b > a && is_whitespace_exec(v[b - 1])
        invariant
            v@ == s@,
            n == v.len(),
            a <= b <= n,
            t == v@.subrange(a as int, n as int),
            trim_end(t) == trim_end(v@.subrange(a as int, b as int)),
        decreases b - a,
    {
        assert(v@.subrange(a as int, b as int).drop_last() =~= v@.subrange(a as int, b - 1));
        b = b - 1;
    }
    string_from_range(&v, a, b)
}

/// An ASCII whitespace character (std's `u8::is_ascii_whitespace`).
pub open spec fn is_ascii_whitespace(c: char) -> bool {
    c == ' ' || c == '\t' || c == '\n' || c == '\u{C}' || c == '\r'
}

fn is_ascii_whitespace_exec(c: char) -> (r: bool)
    ensures
        r == is_ascii_whitespace(c),
{
    c == ' ' || c == '\t' || c == '\n' || c == '\u{C}' || c == '\r'
}

/// `s[i..j]` is one of the words that std's `str::split_ascii_whitespace`
/// yields: non-empty, free of ASCII whitespace, and bounded by whitespace or
/// the ends of `s`.
pub open spec fn is_word(s: Seq<char>, i: int, j: int) -> bool {
    &&& 0 <= i < j <= s.len()
    &&& (i == 0 || is_ascii_whitespace(s[i - 1]))
    &&& (j == s.len() || is_ascii_whitespace(s[j]))
    &&& forall|k: int| i <= k < j ==> !is_ascii_whitespace(#[trigger] s[k])
}

/// Some word of `s` matches `w`, ignoring ASCII case.
pub open spec fn has_word_ignoring_case(s: Seq<char>, w: Seq<char>) -> bool {
    exists|i: int, j: int|
        is_word(s, i, j) && ascii_lowercase(#[trigger] s.subrange(i, j)) == ascii_lowercase(w)
}

/// Whether `s[i..j]`, with ASCII letters lower-cased, equals `lw`.
fn lowered_range_equals(s: &Vec<char>, i: usize, j: usize, lw: &Vec<char>) -> (r: bool)
    requires
        i <= j <= s.len(),
    ensures
        r == (ascii_lowercase(s@.subrange(i as int, j as int)) == lw@),
{
    let ghost part = ascii_lowercase(s@.subrange(i as int, j as int));
    if j - i != lw.len() {
        assert(part.len() != lw@.len());
        return false;
    }
    let mut k: usize = 0;
    while k < lw.len()
        invariant
            i <= j <= s.len(),
            j - i == lw.len(),
            part == ascii_lowercase(s@.subrange(i as int, j as int)),
            k <= lw.len(),
            forall|m: int| 0 <= m < k ==> part[m] == lw@[m],
        decreases lw.len() - k,
    {
        let c = lower_char_exec(s[i + k]);
        assert(part[k as int] == lower_char(s@[i + k]));
        if c != lw[k] {
            return false;
        }
        k = k + 1;
    }
    assert(part =~= lw@);
    true
}

/// Whether some ASCII-whitespace separated word of `s` matches `w`, ignoring
/// ASCII case (std's `split_ascii_whitespace` and `eq_ignore_ascii_case`).
pub fn has_word(s: &str, w: &str) -> (r: bool)
    ensures
        r == has_word_ignoring_case(s@, w@),
{
    let v = chars_of(s);
    let lw = to_ascii_lowercase(w);
    let n = v.len();
    let mut i: usize = 0;
    loop
        invariant
            v@ == s@,
            lw@ == ascii_lowercase(w@),
            n == v.len(),
            i <= n,
            i == 0 || i == n || is_ascii_whitespace(v@[i - 1]) || is_ascii_whitespace(v@[i as int]),
            forall|a: int, b: int|
                is_word(v@, a, b) && a < i ==> ascii_lowercase(#[trigger] v@.subrange(a, b)) != lw@,
        decreases n - i,
    {
        let ghost i0 = i;
        while i < n && is_ascii_whitespace_exec(v[i])
            invariant
                v@ == s@,
                lw@ == ascii_lowercase(w@),
                n == v.len(),
                i0 <= i <= n,
                i == 0 || i == n || is_ascii_whitespace(v@[i - 1]) || is_ascii_whitespace(v@[i as int]),
                forall|a: int, b: int|
                    is_word(v@, a, b) && a < i ==> ascii_lowercase(#[trigger] v@.subrange(a, b)) != lw@,
            decreases n - i,
        {
            i = i + 1;
        }
        if i == n {
            return false;
        }
        let mut j: usize = i;
        while j < n && !is_ascii_whitespace_exec(v[j])
            invariant
                v@ == s@,
                n == v.len(),
                i <= j <= n,
                forall|k: int| i <= k < j ==> !is_ascii_whitespace(#[trigger] v@[k]),
            decreases n - j,
        {
            j = j + 1;
        }
        assert(is_word(v@, i as int, j as int));
        if lowered_range_equals(&v, i, j, &lw) {
            return true;
        }
        assert forall|a: int, b: int|
            is_word(v@, a, b) && a < j implies ascii_lowercase(#[trigger] v@.subrange(a, b)) != lw@ by {
            if a == i {
                if b < j {
                    assert(!is_ascii_whitespace(v@[b]));
                } else if b > j {
                    assert(!is_ascii_whitespace(v@[j as int]));
                }
            } else if a > i {
                assert(!is_ascii_whitespace(v@[a - 1]));
            }
        }
        i = j;
    }
}

} // verus!
