//! Text operations on the views of strings: Unicode whitespace trimming, literal
//! splitting, line splitting, joining and decimal numbers.
use vstd::prelude::*;

verus! {

/// Unicode `White_Space` characters, the set `char::is_whitespace` uses.
pub open spec fn is_ws(c: char) -> bool {
    ||| '\u{9}' <= c <= '\u{d}'
    ||| c == ' '
    ||| c == '\u{85}'
    ||| c == '\u{a0}'
    ||| c == '\u{1680}'
    ||| '\u{2000}' <= c <= '\u{200a}'
    ||| c == '\u{2028}'
    ||| c == '\u{2029}'
    ||| c == '\u{202f}'
    ||| c == '\u{205f}'
    ||| c == '\u{3000}'
}

pub open spec fn trim_start(s: Seq<char>) -> Seq<char>
    decreases s.len(),
{
    if s.len() > 0 && is_ws(s[0]) {
        trim_start(s.drop_first())
    } else {
        s
    }
}

pub open spec fn trim_end(s: Seq<char>) -> Seq<char>
    decreases s.len(),
{
    if s.len() > 0 && is_ws(s.last()) {
        trim_end(s.drop_last())
    } else {
        s
    }
}

/// `s` with leading and trailing whitespace removed.
pub open spec fn trim(s: Seq<char>) -> Seq<char> {
    trim_end(trim_start(s))
}

/// Nothing but whitespace (or nothing at all).
pub open spec fn blank(s: Seq<char>) -> bool {
    trim(s).len() == 0
}

/// `str::trim`.
#[verifier::external_body]
pub(crate) fn trimmed(s: &str) -> (r: &str)
    ensures
        r@ == trim(s@),
{
    s.trim()
}

pub fn is_blank(s: &str) -> (b: bool)
    ensures
        b == blank(s@),
{
    trimmed(s).is_empty()
}

pub fn text_eq(a: &str, b: &str) -> (r: bool)
    ensures
        r == (a@ == b@),
{
    a.to_owned() == b.to_owned()
}

/// Index of the first occurrence of `p` in `s` at or after `i`, or -1.
pub open spec fn find_from(s: Seq<char>, p: Seq<char>, i: int) -> int
    decreases s.len() - i,
{
    if i < 0 || i + p.len() > s.len() {
        -1
    } else if s.subrange(i, i + p.len()) == p {
        i
    } else if i >= s.len() {
        -1
    } else {
        find_from(s, p, i + 1)
    }
}

/// The pieces of `s` between the non-overlapping occurrences of the non-empty
/// literal `p`, scanning from the left (`str::split` with a string pattern).
pub open spec fn split_on(s: Seq<char>, p: Seq<char>) -> Seq<Seq<char>> {
    split_scan(s, p, 0, 0)
}

/// Pieces of `s` from `start`, the next occurrence of `p` being searched at `i`.
pub open spec fn split_scan(s: Seq<char>, p: Seq<char>, start: int, i: int) -> Seq<Seq<char>>
    decreases s.len() - i,
{
    if p.len() == 0 || i < 0 || i + p.len() > s.len() {
        seq![s.subrange(start, s.len() as int)]
    } else if s.subrange(i, i + p.len()) == p {
        seq![s.subrange(start, i)] + split_scan(s, p, i + p.len(), i + p.len())
    } else {
        split_scan(s, p, start, i + 1)
    }
}

/// `t` without one final carriage return.
pub open spec fn strip_cr(t: Seq<char>) -> Seq<char> {
    if t.len() > 0 && t.last() == '\r' {
        t.drop_last()
    } else {
        t
    }
}

/// The lines of `s` (`str::lines`): split after each `\n`, dropping the `\n`
/// and a `\r` just before it; a final line ending adds no empty line.
pub open spec fn lines_of(s: Seq<char>) -> Seq<Seq<char>> {
    lines_scan(s, 0, 0)
}

/// Lines of `s` from `start`, the next `\n` being searched at `i`.
pub open spec fn lines_scan(s: Seq<char>, start: int, i: int) -> Seq<Seq<char>>
    decreases s.len() - i,
{
    if i < 0 || i >= s.len() {
        if 0 <= start < s.len() {
            seq![s.subrange(start, s.len() as int)]
        } else {
            seq![]
        }
    } else if s[i] == '\n' {
        seq![strip_cr(s.subrange(start, i))] + lines_scan(s, i + 1, i + 1)
    } else {
        lines_scan(s, start, i + 1)
    }
}

/// `s.split(separator)`, each piece as a `String`.
#[verifier::external_body]
fn split_pieces(s: &str, separator: &str) -> (r: Vec<String>)
    requires
        separator@.len() > 0,
    ensures
        r@.map_values(|x: String| x@) == split_on(s@, separator@),
{
    s.split(separator).map(String::from).collect()
}

/// `s.lines()`, each line as a `String`.
#[verifier::external_body]
fn line_pieces(s: &str) -> (r: Vec<String>)
    ensures
        r@.map_values(|x: String| x@) == lines_of(s@),
{
    s.lines().map(String::from).collect()
}

/// Each text trimmed.
pub fn trim_each(v: &Vec<String>) -> (r: Vec<String>)
    ensures
        r@.map_values(|x: String| x@) == v@.map_values(|x: String| x@).map_values(|x| trim(x)),
{
    let mut r: Vec<String> = Vec::new();
    let mut i: usize = 0;
    while i < v.len()
        invariant
            i <= v.len(),
            r.len() == i,
            forall|k: int| 0 <= k < i ==> #[trigger] r@[k]@ == trim(v@[k]@),
        decreases v.len() - i,
    {
        r.push(trimmed(v[i].as_str()).to_owned());
        i = i + 1;
    }
    assert(r@.map_values(|x: String| x@) =~= v@.map_values(|x: String| x@).map_values(|x| trim(x)));
    r
}

/// The pieces of `s` between the occurrences of `separator`, each trimmed.
pub fn split_trimmed(s: &str, separator: &str) -> (r: Vec<String>)
    requires
        separator@.len() > 0,
    ensures
        r@.map_values(|x: String| x@) == split_on(s@, separator@).map_values(|x| trim(x)),
{
    trim_each(&split_pieces(s, separator))
}

/// The lines of `s`, each trimmed.
pub fn lines_trimmed(s: &str) -> (r: Vec<String>)
    ensures
        r@.map_values(|x: String| x@) == lines_of(s@).map_values(|x| trim(x)),
{
    trim_each(&line_pieces(s))
}

/// The parts joined with `sep` between consecutive parts.
pub open spec fn join(parts: Seq<Seq<char>>, sep: Seq<char>) -> Seq<char>
    decreases parts.len(),
{
    if parts.len() == 0 {
        seq![]
    } else if parts.len() == 1 {
        parts[0]
    } else {
        join(parts.drop_last(), sep) + sep + parts.last()
    }
}

/// Joins the parts with a blank line between them.
pub fn join_paragraphs(parts: &Vec<String>) -> (r: String)
    ensures
        r@ == join(parts@.map_values(|x: String| x@), "\n\n"@),
{
    let ghost views = parts@.map_values(|x: String| x@);
    let mut r = String::new();
    let mut i: usize = 0;
    while i < parts.len()
        invariant
            i <= parts.len(),
            views == parts@.map_values(|x: String| x@),
            r@ == join(views.take(i as int), "\n\n"@),
        decreases parts.len() - i,
    {
        assert(views.take(i + 1).drop_last() =~= views.take(i as int));
        if i > 0 {
            r.append("\n\n");
        }
        r.append(parts[i].as_str());
        i = i + 1;
    }
    assert(views.take(parts.len() as int) =~= views);
    r
}

pub open spec fn digit(d: int) -> char {
    (48 + d) as char
}

/// Decimal digits of `n` without leading zeros.
pub open spec fn decimal(n: nat) -> Seq<char>
    decreases n,
{
    if n < 10 {
        seq![digit(n as int)]
    } else {
        decimal(n / 10) + seq![digit((n % 10) as int)]
    }
}

/// The decimal digit `d` as text.
fn digit_text(d: u64) -> (r: &'static str)
    requires
        d < 10,
    ensures
        r@ == seq![digit(d as int)],
{
    proof {
        reveal_strlit("0");
        reveal_strlit("1");
        reveal_strlit("2");
        reveal_strlit("3");
        reveal_strlit("4");
        reveal_strlit("5");
        reveal_strlit("6");
        reveal_strlit("7");
        reveal_strlit("8");
        reveal_strlit("9");
    }
    if d == 0 {
        "0"
    } else if d == 1 {
        "1"
    } else if d == 2 {
        "2"
    } else if d == 3 {
        "3"
    } else if d == 4 {
        "4"
    } else if d == 5 {
        "5"
    } else if d == 6 {
        "6"
    } else if d == 7 {
        "7"
    } else if d == 8 {
        "8"
    } else {
        "9"
    }
}

/// The decimal digits of `n` without leading zeros.
pub fn decimal_u64(n: u64) -> (r: String)
    ensures
        r@ == decimal(n as nat),
    decreases n,
{
    if n < 10 {
        digit_text(n).to_owned()
    } else {
        let head = decimal_u64(n / 10);
        concat(head.as_str(), digit_text(n % 10))
    }
}

/// The decimal digits of `n` without leading zeros.
pub(crate) fn decimal_text(n: usize) -> (r: String)
    ensures
        r@ == decimal(n as nat),
{
    decimal_u64(n as u64)
}

/// `a` followed by `b`.
pub fn concat(a: &str, b: &str) -> (r: String)
    ensures
        r@ == a@ + b@,
{
    let mut r = a.to_owned();
    r.append(b);
    r
}

pub fn copy_text(s: &String) -> (r: String)
    ensures
        r@ == s@,
{
    s.clone()
}

pub fn copy_opt_text(s: &Option<String>) -> (r: Option<String>)
    ensures
        crate::model::opt_text(r) == crate::model::opt_text(*s),
{
    match s {
        Some(t) => Some(t.clone()),
        None => None,
    }
}

pub fn copy_texts(v: &Vec<String>) -> (r: Vec<String>)
    ensures
        r@.map_values(|x: String| x@) == v@.map_values(|x: String| x@),
{
    let mut r: Vec<String> = Vec::new();
    let mut i: usize = 0;
    while i < v.len()
        invariant
            i <= v.len(),
            r.len() == i,
            forall|j: int| 0 <= j < i ==> r@[j]@ == v@[j]@,
        decreases v.len() - i,
    {
        r.push(v[i].clone());
        i = i + 1;
    }
    assert(r@.map_values(|x: String| x@) =~= v@.map_values(|x: String| x@));
    r
}

} // verus!
