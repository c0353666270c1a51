//! Character classes and trimming over sequences of characters.
use vstd::prelude::*;
use vstd::std_specs::iter::IteratorSpec;
use vstd::string::*;

verus! {

broadcast use vstd::string::group_string_axioms;

/// The separators of the command syntax: space, tab, carriage return, newline.
pub open spec fn is_separator(c: char) -> bool {
    c == ' ' || c == '\r' || c == '\t' || c == '\n'
}

/// ASCII letters and digits.
pub open spec fn is_alnum(c: char) -> bool {
    ('a' <= c && c <= 'z') || ('A' <= c && c <= 'Z') || ('0' <= c && c <= '9')
}

/// The characters that carry the Unicode `White_Space` property.
pub open spec fn is_white(c: char) -> bool {
    ('\u{9}' <= c && c <= '\u{d}') || c == ' ' || c == '\u{85}' || c == '\u{a0}' || c
        == '\u{1680}' || ('\u{2000}' <= c && c <= '\u{200a}') || c == '\u{2028}' || c
        == '\u{2029}' || c == '\u{202f}' || c == '\u{205f}' || c == '\u{3000}'
}

pub open spec fn is_quote(c: char) -> bool {
    c == '"'
}

/// Drops leading characters that satisfy `p`.
pub open spec fn strip_start(s: Seq<char>, p: spec_fn(char) -> bool) -> Seq<char>
    decreases s.len(),
{
    if s.len() > 0 && p(s[0]) {
        strip_start(s.drop_first(), p)
    } else {
        s
    }
}

/// Drops trailing characters that satisfy `p`.
pub open spec fn strip_end(s: Seq<char>, p: spec_fn(char) -> bool) -> Seq<char>
    decreases s.len(),
{
    if s.len() > 0 && p(s.last()) {
        strip_end(s.drop_last(), p)
    } else {
        s
    }
}

pub open spec fn white_class() -> spec_fn(char) -> bool {
    |c: char| is_white(c)
}

pub open spec fn quote_class() -> spec_fn(char) -> bool {
    |c: char| is_quote(c)
}

/// Leading and trailing whitespace removed.
pub open spec fn trim(s: Seq<char>) -> Seq<char> {
    strip_end(strip_start(s, white_class()), white_class())
}

/// Leading and trailing double quotes removed.
pub open spec fn trim_quotes(s: Seq<char>) -> Seq<char> {
    strip_end(strip_start(s, quote_class()), quote_class())
}

pub fn is_separator_char(c: char) -> (r: bool)
    ensures
        r == is_separator(c),
{
    c == ' ' || c == '\r' || c == '\t' || c == '\n'
}

pub fn is_alnum_char(c: char) -> (r: bool)
    ensures
        r == is_alnum(c),
{
    ('a' <= c && c <= 'z') || ('A' <= c && c <= 'Z') || ('0' <= c && c <= '9')
}

pub fn is_white_char(c: char) -> (r: bool)
    ensures
        r == is_white(c),
{
    ('\u{9}' <= c && c <= '\u{d}') || c == ' ' || c == '\u{85}' || c == '\u{a0}' || c
        == '\u{1680}' || ('\u{2000}' <= c && c <= '\u{200a}') || c == '\u{2028}' || c
        == '\u{2029}' || c == '\u{202f}' || c == '\u{205f}' || c == '\u{3000}'
}

fn strips(c: char, quotes: bool) -> (r: bool)
    ensures
        r == (if quotes {
            is_quote(c)
        } else {
            is_white(c)
        }),
{
    if quotes {
        c == '"'
    } else {
        is_white_char(c)
    }
}

/// Bounds `(a, b)` such that `v[a..b]` is `v[from..to]` with the leading and
/// trailing characters removed that are whitespace, or quotes when `quotes`.
pub fn strip_bounds(v: &Vec<char>, from: usize, to: usize, quotes: bool) -> (r: (usize, usize))
    requires
        from <= to <= v@.len(),
    ensures
        from <= r.0 <= r.1 <= to,
        quotes ==> v@.subrange(r.0 as int, r.1 as int) == trim_quotes(
            v@.subrange(from as int, to as int),
        ),
        !quotes ==> v@.subrange(r.0 as int, r.1 as int) == trim(
            v@.subrange(from as int, to as int),
        ),
{
    let ghost p: spec_fn(char) -> bool = if quotes {
        quote_class()
    } else {
        white_class()
    };
    let mut a: usize = from;
    while a < to && strips(v[a], quotes)
        invariant
            from <= a <= to <= v@.len(),
            p == (if quotes {
                quote_class()
            } else {
                white_class()
            }),
            strip_start(v@.subrange(from as int, to as int), p) == strip_start(
                v@.subrange(a as int, to as int),
                p,
            ),
        decreases to - a,
    {
        assert(p(v@[a as int]));
        assert(v@.subrange(a as int, to as int).drop_first() == v@.subrange(
            a + 1,
            to as int,
        ));
        a = a + 1;
    }
    assert(strip_start(v@.subrange(a as int, to as int), p) == v@.subrange(a as int, to as int));
    let mut b: usize = to;
    while b > a && strips(v[b - 1], quotes)
        invariant
            from <= a <= b <= to <= v@.len(),
            p == (if quotes {
                quote_class()
            } else {
                white_class()
            }),
            strip_end(v@.subrange(a as int, to as int), p) == strip_end(
                v@.subrange(a as int, b as int),
                p,
            ),
        decreases b - a,
    {
        assert(p(v@[b - 1]));
        assert(v@.subrange(a as int, b as int).drop_last() == v@.subrange(a as int, b - 1));
        b = b - 1;
    }
    assert(strip_end(v@.subrange(a as int, b as int), p) == v@.subrange(a as int, b as int));
    (a, b)
}

/// The characters of a string, one by one.
pub fn chars_of(s: &str) -> (r: Vec<char>)
    ensures
        r@ == s@,
{
    let mut chars: Vec<char> = Vec::new();
    for c in iter: s.chars()
        invariant
            chars@ == iter.seq().take(iter.index() as int),
    {
        chars.push(c);
    }
    chars
}

/// The decimal digit for `d`, when `d` is below ten.
pub open spec fn digit(d: int) -> char {
    if d == 0 {
        '0'
    } else if d == 1 {
        '1'
    } else if d == 2 {
        '2'
    } else if d == 3 {
        '3'
    } else if d == 4 {
        '4'
    } else if d == 5 {
        '5'
    } else if d == 6 {
        '6'
    } else if d == 7 {
        '7'
    } else if d == 8 {
        '8'
    } else {
        '9'
    }
}

/// The decimal text of a natural number, without leading zeros.
pub open spec fn nat_text(n: nat) -> Seq<char>
    decreases n,
{
    if n < 10 {
        seq![digit(n as int)]
    } else {
        nat_text(n / 10) + seq![digit((n % 10) as int)]
    }
}

/// The decimal text of an integer, with a leading `-` when it is negative.
pub open spec fn int_text(i: int) -> Seq<char> {
    if i < 0 {
        seq!['-'] + nat_text((-i) as nat)
    } else {
        nat_text(i as nat)
    }
}

fn digit_str(d: u64) -> (r: &'static str)
    requires
        d < 10,
    ensures
        r@ == seq![digit(d as int)],
{
    proof {
        reveal_strlit("0");
        reveal_strlit("1");
        reveal_strlit("2");
        reveal_strlit("3");
        reveal_strlit("4");
        reveal_strlit("5");
        reveal_strlit("6");
        reveal_strlit("7");
        reveal_strlit("8");
        reveal_strlit("9");
    }
    if d == 0 {
        "0"
    } else if d == 1 {
        "1"
    } else if d == 2 {
        "2"
    } else if d == 3 {
        "3"
    } else if d == 4 {
        "4"
    } else if d == 5 {
        "5"
    } else if d == 6 {
        "6"
    } else if d == 7 {
        "7"
    } else if d == 8 {
        "8"
    } else {
        "9"
    }
}

fn append_nat(out: &mut String, n: u64)
    ensures
        final(out)@ == old(out)@ + nat_text(n as nat),
    decreases n,
{
    if n < 10 {
        out.append(digit_str(n));
    } else {
        append_nat(out, n / 10);
        out.append(digit_str(n % 10));
        assert(final(out)@ =~= old(out)@ + nat_text(n as nat));
    }
}

/// The decimal text of `i`.
pub fn int_to_text(i: i32) -> (r: String)
    ensures
        r@ == int_text(i as int),
{
    let mut out = String::new();
    if i < 0 {
        out.append("-");
        proof {
            reveal_strlit("-");
        }
        let n: u64 = (0i64 - i as i64) as u64;
        append_nat(&mut out, n);
    } else {
        append_nat(&mut out, i as u64);
    }
    out
}

} // verus!
