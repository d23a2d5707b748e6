//! Text over character sequences: whitespace, words, numeric fields,
//! decimal rendering and literal replacement.
//!
//! Strings are modelled by their views (`Seq<char>`). The executable side
//! works on a `Vec<char>` taken from the string once.

use vstd::prelude::*;
use vstd::string::{StringExecFns, StrSliceExecFns};

verus! {

/// The Unicode `White_Space` property.
pub open spec fn is_space(c: char) -> bool {
    ||| '\u{9}' <= c <= '\u{d}'
    ||| c == ' '
    ||| c == '\u{85}'
    ||| c == '\u{a0}'
    ||| c == '\u{1680}'
    ||| '\u{2000}' <= c <= '\u{200a}'
    ||| c == '\u{2028}'
    ||| c == '\u{2029}'
    ||| c == '\u{202f}'
    ||| c == '\u{205f}'
    ||| c == '\u{3000}'
}

/// An ASCII decimal digit.
pub open spec fn is_digit(c: char) -> bool {
    '0' <= c <= '9'
}

/// Number of leading whitespace characters.
pub open spec fn leading_space(s: Seq<char>) -> nat
    decreases s.len(),
{
    if s.len() > 0 && is_space(s[0]) {
        1 + leading_space(s.skip(1))
    } else {
        0
    }
}

/// Number of trailing whitespace characters.
pub open spec fn trailing_space(s: Seq<char>) -> nat
    decreases s.len(),
{
    if s.len() > 0 && is_space(s.last()) {
        1 + trailing_space(s.drop_last())
    } else {
        0
    }
}

/// `s` without leading whitespace.
pub open spec fn trim_start(s: Seq<char>) -> Seq<char> {
    s.skip(leading_space(s) as int)
}

/// `s` without leading and trailing whitespace.
pub open spec fn trim(s: Seq<char>) -> Seq<char> {
    trim_start(s).take(trim_start(s).len() - trailing_space(trim_start(s)))
}

/// Number of characters before the first whitespace.
pub open spec fn word_len(s: Seq<char>) -> nat
    decreases s.len(),
{
    if s.len() > 0 && !is_space(s[0]) {
        1 + word_len(s.skip(1))
    } else {
        0
    }
}

/// The first whitespace-separated word of `s`, empty when there is none.
pub open spec fn first_word(s: Seq<char>) -> Seq<char> {
    trim_start(s).take(word_len(trim_start(s)) as int)
}

/// Number of whitespace-separated words in `s`.
pub open spec fn word_count(s: Seq<char>) -> nat
    decreases s.len(),
{
    if s.len() == 0 {
        0
    } else {
        word_count(s.drop_last()) + if !is_space(s.last()) && (s.len() == 1 || is_space(
            s[s.len() - 2],
        )) {
            1nat
        } else {
            0nat
        }
    }
}

/// `w` stands in `s` at `i`, bounded on both sides by whitespace or the end.
pub open spec fn word_at(s: Seq<char>, w: Seq<char>, i: int) -> bool {
    &&& 0 <= i
    &&& i + w.len() <= s.len()
    &&& s.subrange(i, i + w.len()) == w
    &&& i == 0 || is_space(s[i - 1])
    &&& i + w.len() == s.len() || is_space(s[i + w.len()])
}

/// `w` is one of the whitespace-separated words of `s`.
pub open spec fn has_word(s: Seq<char>, w: Seq<char>) -> bool {
    exists|i: int| #[trigger] word_at(s, w, i)
}

/// The number that a digit string denotes in base ten.
pub open spec fn digits_value(s: Seq<char>) -> nat
    decreases s.len(),
{
    if s.len() == 0 {
        0
    } else {
        (digits_value(s.drop_last()) * 10 + (s.last() as nat - '0' as nat)) as nat
    }
}

/// The digits of an unsigned literal, after an optional plus sign.
pub open spec fn unsigned_digits(s: Seq<char>) -> Seq<char> {
    if s.len() > 0 && s[0] == '+' {
        s.skip(1)
    } else {
        s
    }
}

/// The `u32` that `s` spells: an optional plus sign and at least one digit,
/// with a value in range.
pub open spec fn parse_u32(s: Seq<char>) -> Option<u32> {
    let d = unsigned_digits(s);
    if d.len() > 0 && (forall|i: int| 0 <= i < d.len() ==> is_digit(#[trigger] d[i]))
        && digits_value(d) <= u32::MAX {
        Some(digits_value(d) as u32)
    } else {
        None
    }
}

/// What separates the numeric fields of a version string.
#[derive(Debug, Clone, Copy, PartialEq, Eq, Structural)]
pub enum Separator {
    /// Only a full stop.
    Dot,
    /// Everything that is no ASCII digit.
    NonDigit,
}

/// Whether `c` separates two fields.
pub open spec fn separates(sep: Separator, c: char) -> bool {
    match sep {
        Separator::Dot => c == '.',
        Separator::NonDigit => !is_digit(c),
    }
}

/// Number of characters before the first separator.
pub open spec fn field_len(s: Seq<char>, sep: Separator) -> nat
    decreases s.len(),
{
    if s.len() > 0 && !separates(sep, s[0]) {
        1 + field_len(s.skip(1), sep)
    } else {
        0
    }
}

/// The numbers among the separated fields of `s`, in order. Fields that
/// spell no `u32` are left out.
pub open spec fn numbers(s: Seq<char>, sep: Separator) -> Seq<u32>
    decreases s.len(),
    via numbers_decreases
{
    let k = field_len(s, sep) as int;
    let head = match parse_u32(s.take(k)) {
        Some(v) => seq![v],
        None => Seq::<u32>::empty(),
    };
    if k < s.len() {
        head + numbers(s.skip(k + 1), sep)
    } else {
        head
    }
}

#[via_fn]
proof fn numbers_decreases(s: Seq<char>, sep: Separator) {
}

/// Element `i` of `s`, or `d` past the end.
pub open spec fn nth_or(s: Seq<u32>, i: int, d: u32) -> u32 {
    if 0 <= i < s.len() {
        s[i]
    } else {
        d
    }
}

/// The `major.minor` that `s` begins with, whatever follows it.
pub open spec fn leading_version(s: Seq<char>) -> Option<(u32, u32)> {
    let k = field_len(s, Separator::NonDigit) as int;
    if k < s.len() && s[k] == '.' {
        let rest = s.skip(k + 1);
        match (
            parse_u32(s.take(k)),
            parse_u32(rest.take(field_len(rest, Separator::NonDigit) as int)),
        ) {
            (Some(major), Some(minor)) => Some((major, minor)),
            _ => None,
        }
    } else {
        None
    }
}

proof fn lemma_field_len_bound(s: Seq<char>, sep: Separator)
    ensures
        field_len(s, sep) <= s.len(),
        forall|i: int| 0 <= i < field_len(s, sep) ==> !separates(sep, #[trigger] s[i]),
        field_len(s, sep) < s.len() ==> separates(sep, s[field_len(s, sep) as int]),
    decreases s.len(),
{
    if s.len() > 0 && !separates(sep, s[0]) {
        let t = s.skip(1);
        lemma_field_len_bound(t, sep);
        assert forall|i: int| 0 <= i < field_len(s, sep) implies !separates(
            sep,
            #[trigger] s[i],
        ) by {
            if i > 0 {
                assert(s[i] == t[i - 1]);
            }
        }
        if field_len(s, sep) < s.len() {
            assert(s[field_len(s, sep) as int] == t[field_len(t, sep) as int]);
        }
    }
}

/// A prefix free of separators that ends at one, or at the end, is the field.
pub(crate) proof fn lemma_field_len_is(s: Seq<char>, sep: Separator, k: int)
    requires
        0 <= k <= s.len(),
        forall|i: int| 0 <= i < k ==> !separates(sep, #[trigger] s[i]),
        k < s.len() ==> separates(sep, s[k]),
    ensures
        field_len(s, sep) == k,
{
    lemma_field_len_bound(s, sep);
    let f = field_len(s, sep) as int;
    if f < k {
        assert(!separates(sep, s[f]));
    } else if k < f {
        assert(separates(sep, s[k]));
    }
}

pub(crate) proof fn lemma_leading_space(s: Seq<char>, k: int)
    requires
        0 <= k <= s.len(),
        forall|i: int| 0 <= i < k ==> is_space(#[trigger] s[i]),
        k < s.len() ==> !is_space(s[k]),
    ensures
        leading_space(s) == k,
    decreases s.len(),
{
    if k > 0 {
        let t = s.skip(1);
        assert forall|i: int| 0 <= i < k - 1 implies is_space(#[trigger] t[i]) by {
            assert(t[i] == s[i + 1]);
        }
        assert(is_space(s[0]));
        lemma_leading_space(t, k - 1);
    }
}

pub(crate) proof fn lemma_trailing_space(s: Seq<char>, k: int)
    requires
        0 <= k <= s.len(),
        forall|i: int| s.len() - k <= i < s.len() ==> is_space(#[trigger] s[i]),
        k < s.len() ==> !is_space(s[s.len() - k - 1]),
    ensures
        trailing_space(s) == k,
    decreases s.len(),
{
    if k > 0 {
        assert(is_space(s[s.len() - 1]));
        lemma_trailing_space(s.drop_last(), k - 1);
    }
}

pub(crate) proof fn lemma_word_len(s: Seq<char>, k: int)
    requires
        0 <= k <= s.len(),
        forall|i: int| 0 <= i < k ==> !is_space(#[trigger] s[i]),
        k < s.len() ==> is_space(s[k]),
    ensures
        word_len(s) == k,
    decreases s.len(),
{
    if k > 0 {
        let t = s.skip(1);
        assert forall|i: int| 0 <= i < k - 1 implies !is_space(#[trigger] t[i]) by {
            assert(t[i] == s[i + 1]);
        }
        assert(!is_space(s[0]));
        lemma_word_len(t, k - 1);
    }
}

/// Whether `c` is whitespace.
pub fn space(c: char) -> (r: bool)
    ensures
        r == is_space(c),
{
    ('\u{9}' <= c && c <= '\u{d}') || c == ' ' || c == '\u{85}' || c == '\u{a0}' || c == '\u{1680}'
        || ('\u{2000}' <= c && c <= '\u{200a}') || c == '\u{2028}' || c == '\u{2029}' || c
        == '\u{202f}' || c == '\u{205f}' || c == '\u{3000}'
}

/// The characters of `s`.
pub fn chars_of(s: &str) -> (r: Vec<char>)
    ensures
        r@ == s@,
{
    let mut v: Vec<char> = Vec::new();
    for c in it: s.chars()
        invariant
            v@ == it.seq().take(it.index()),
            it.seq() == s@,
    {
        proof {
            assert(it.seq().take(it.index() + 1) =~= it.seq().take(it.index()).push(c));
        }
        v.push(c);
    }
    assert(s@.take(s@.len() as int) =~= s@);
    v
}

/// Whether two strings hold the same characters.
pub fn same(a: &str, b: &str) -> (r: bool)
    ensures
        r == (a@ == b@),
{
    let x = chars_of(a);
    let y = chars_of(b);
    if x.len() != y.len() {
        return false;
    }
    for i in 0..x.len()
        invariant
            x@ == a@,
            y@ == b@,
            x@.len() == y@.len(),
            forall|j: int| 0 <= j < i ==> x@[j] == y@[j],
    {
        if x[i] != y[i] {
            return false;
        }
    }
    assert(a@ =~= b@);
    true
}

/// Whether `w` stands in `s` at `at`.
fn matches_at(s: &Vec<char>, at: usize, w: &Vec<char>) -> (r: bool)
    requires
        at <= s@.len(),
    ensures
        r == (at + w@.len() <= s@.len() && s@.subrange(at as int, at + w@.len()) == w@),
{
    if s.len() - at < w.len() {
        return false;
    }
    for j in 0..w.len()
        invariant
            at + w@.len() <= s@.len() <= usize::MAX,
            forall|k: int| 0 <= k < j ==> s@[at + k] == w@[k],
    {
        if s[at + j] != w[j] {
            assert(s@.subrange(at as int, at + w@.len())[j as int] != w@[j as int]);
            return false;
        }
    }
    assert(s@.subrange(at as int, at + w@.len()) =~= w@);
    true
}

/// Whether `s` begins with `prefix`.
pub open spec fn starts_with(s: Seq<char>, prefix: Seq<char>) -> bool {
    prefix.len() <= s.len() && s.take(prefix.len() as int) == prefix
}

/// Whether `w` is one of the whitespace-separated words of `s`.
///
/// `w` is a single word: it is not empty and holds no whitespace.
pub fn contains_word(s: &str, w: &str) -> (r: bool)
    requires
        w@.len() > 0,
        forall|i: int| 0 <= i < w@.len() ==> !is_space(#[trigger] w@[i]),
    ensures
        r == has_word(s@, w@),
{
    let cs = chars_of(s);
    let ws = chars_of(w);
    let mut i: usize = 0;
    while i < cs.len()
        invariant
            cs@ == s@,
            ws@ == w@,
            i <= cs@.len(),
            w@.len() > 0,
            forall|k: int| 0 <= k < i ==> !#[trigger] word_at(s@, w@, k),
        decreases cs@.len() - i,
    {
        if (i == 0 || space(cs[i - 1])) && matches_at(&cs, i, &ws) && (cs.len() - i == ws.len()
            || space(cs[i + ws.len()])) {
            assert(word_at(s@, w@, i as int));
            return true;
        }
        assert(!word_at(s@, w@, i as int));
        i = i + 1;
    }
    assert forall|k: int| !#[trigger] word_at(s@, w@, k) by {}
    false
}

/// Number of whitespace-separated words in `s`.
pub fn count_words(s: &str) -> (r: usize)
    ensures
        r == word_count(s@),
{
    let cs = chars_of(s);
    let mut n: usize = 0;
    for i in 0..cs.len()
        invariant
            cs@ == s@,
            n <= i,
            n == word_count(s@.take(i as int)),
    {
        proof {
            let t = s@.take(i + 1);
            assert(t.drop_last() =~= s@.take(i as int));
            assert(t.last() == s@[i as int]);
        }
        if !space(cs[i]) && (i == 0 || space(cs[i - 1])) {
            n = n + 1;
        }
    }
    assert(s@.take(s@.len() as int) =~= s@);
    n
}

/// Bounds of the trimmed text within `cs`.
pub fn trim_bounds(cs: &Vec<char>) -> (r: (usize, usize))
    ensures
        r.0 <= r.1 <= cs@.len(),
        cs@.subrange(r.0 as int, r.1 as int) == trim(cs@),
{
    let mut lo: usize = 0;
    while lo < cs.len() && space(cs[lo])
        invariant
            lo <= cs@.len(),
            forall|i: int| 0 <= i < lo ==> is_space(#[trigger] cs@[i]),
        decreases cs@.len() - lo,
    {
        lo = lo + 1;
    }
    proof {
        lemma_leading_space(cs@, lo as int);
    }
    let mut hi: usize = cs.len();
    while hi > lo && space(cs[hi - 1])
        invariant
            lo <= hi <= cs@.len(),
            forall|i: int| hi <= i < cs@.len() ==> is_space(#[trigger] cs@[i]),
        decreases hi,
    {
        hi = hi - 1;
    }
    proof {
        let t = trim_start(cs@);
        let k = cs@.len() - hi;
        assert(t.len() == cs@.len() - lo);
        assert forall|i: int| t.len() - k <= i < t.len() implies is_space(#[trigger] t[i]) by {
            assert(t[i] == cs@[i + lo]);
        }
        lemma_trailing_space(t, k);
        assert(cs@.subrange(lo as int, hi as int) =~= trim(cs@));
    }
    (lo, hi)
}

/// Bounds of the first word of `cs[from..to]`.
pub fn first_word_bounds(cs: &Vec<char>, from: usize, to: usize) -> (r: (usize, usize))
    requires
        from <= to <= cs@.len(),
    ensures
        from <= r.0 <= r.1 <= to,
        cs@.subrange(r.0 as int, r.1 as int) == first_word(cs@.subrange(from as int, to as int)),
{
    let ghost s = cs@.subrange(from as int, to as int);
    let mut lo: usize = from;
    while lo < to && space(cs[lo])
        invariant
            from <= lo <= to <= cs@.len(),
            s == cs@.subrange(from as int, to as int),
            forall|i: int| 0 <= i < lo - from ==> is_space(#[trigger] s[i]),
        decreases to - lo,
    {
        assert(s[lo - from] == cs@[lo as int]);
        lo = lo + 1;
    }
    proof {
        if lo < to {
            assert(s[lo - from] == cs@[lo as int]);
        }
        lemma_leading_space(s, lo - from);
    }
    let ghost t = trim_start(s);
    let mut hi: usize = lo;
    while hi < to && !space(cs[hi])
        invariant
            from <= lo <= hi <= to <= cs@.len(),
            s == cs@.subrange(from as int, to as int),
            t == s.skip(lo - from),
            forall|i: int| 0 <= i < hi - lo ==> !is_space(#[trigger] t[i]),
        decreases to - hi,
    {
        assert(t[hi - lo] == cs@[hi as int]);
        hi = hi + 1;
    }
    proof {
        if hi < to {
            assert(t[hi - lo] == cs@[hi as int]);
        }
        lemma_word_len(t, hi - lo);
        assert(cs@.subrange(lo as int, hi as int) =~= first_word(s));
    }
    (lo, hi)
}

/// Digits read so far pin the value from below.
proof fn lemma_digits_value_grows(s: Seq<char>, k: int)
    requires
        0 <= k <= s.len(),
        forall|i: int| 0 <= i < s.len() ==> is_digit(#[trigger] s[i]),
    ensures
        digits_value(s.take(k)) <= digits_value(s),
    decreases s.len() - k,
{
    if k < s.len() {
        lemma_digits_value_grows(s, k + 1);
        let t = s.take(k + 1);
        assert(t.drop_last() =~= s.take(k));
        assert(t.last() == s[k]);
        assert(is_digit(s[k]));
    } else {
        assert(s.take(k) =~= s);
    }
}

/// Reads `cs[from..to]` as an unsigned number.
pub fn read_u32(cs: &Vec<char>, from: usize, to: usize) -> (r: Option<u32>)
    requires
        from <= to <= cs@.len(),
    ensures
        r == parse_u32(cs@.subrange(from as int, to as int)),
{
    let ghost s = cs@.subrange(from as int, to as int);
    let mut i: usize = from;
    if from < to && cs[from] == '+' {
        i = from + 1;
        assert(s[0] == '+');
    } else if from < to {
        assert(s[0] != '+');
    }
    let ghost d = unsigned_digits(s);
    let ghost base = i as int;
    assert(d =~= cs@.subrange(base, to as int));
    if i == to {
        return None;
    }
    let mut v: u32 = 0;
    while i < to
        invariant
            from <= base <= i <= to <= cs@.len(),
            d == cs@.subrange(base, to as int),
            d == unsigned_digits(s),
            d.len() > 0,
            forall|j: int| 0 <= j < i - base ==> is_digit(#[trigger] d[j]),
            v == digits_value(d.take(i - base)),
            s == cs@.subrange(from as int, to as int),
        decreases to - i,
    {
        let c = cs[i];
        assert(d[i - base] == c);
        if !('0' <= c && c <= '9') {
            return None;
        }
        let x: u32 = c as u32 - '0' as u32;
        proof {
            let t = d.take(i - base + 1);
            assert(t.drop_last() =~= d.take(i - base));
            assert(t.last() == c);
        }
        let next: u64 = v as u64 * 10 + x as u64;
        if next > u32::MAX as u64 {
            proof {
                if forall|j: int| 0 <= j < d.len() ==> is_digit(#[trigger] d[j]) {
                    lemma_digits_value_grows(d, i - base + 1);
                }
            }
            return None;
        }
        v = next as u32;
        i = i + 1;
    }
    assert(d.take(i - base) =~= d);
    Some(v)
}

/// Up to the first two numbers among the fields of `cs[from..to]`.
pub fn first_numbers(cs: &Vec<char>, from: usize, to: usize, sep: Separator) -> (r: (
    Option<u32>,
    Option<u32>,
))
    requires
        from <= to <= cs@.len(),
    ensures
        ({
            let ns = numbers(cs@.subrange(from as int, to as int), sep);
            &&& r.0 == if ns.len() > 0 {
                Some(ns[0])
            } else {
                None
            }
            &&& r.1 == if ns.len() > 1 {
                Some(ns[1])
            } else {
                None
            }
        }),
{
    let ghost s = cs@.subrange(from as int, to as int);
    let ghost ns = numbers(s, sep);
    let mut first: Option<u32> = None;
    let ghost mut found: Seq<u32> = Seq::empty();
    let mut pos: usize = from;
    assert(s.skip(0) =~= s);
    loop
        invariant
            from <= pos <= to <= cs@.len(),
            s == cs@.subrange(from as int, to as int),
            ns == numbers(s, sep),
            ns == found + numbers(s.skip(pos - from), sep),
            found.len() <= 1,
            first == if found.len() > 0 {
                Some(found[0])
            } else {
                None
            },
        decreases to - pos,
    {
        let ghost rest = s.skip(pos - from);
        assert(rest =~= cs@.subrange(pos as int, to as int));
        let end: usize = field_end(cs, pos, to, sep);
        assert(rest.take(end - pos) =~= cs@.subrange(pos as int, end as int));
        let here = read_u32(cs, pos, end);
        let ghost after = if end < to {
            numbers(rest.skip(end - pos + 1), sep)
        } else {
            Seq::<u32>::empty()
        };
        proof {
            let head = match here {
                Some(v) => seq![v],
                None => Seq::<u32>::empty(),
            };
            assert(numbers(rest, sep) =~= head + after);
            assert(ns =~= (found + head) + after);
        }
        match here {
            Some(v) => {
                if first.is_some() {
                    return (first, Some(v));
                }
                first = Some(v);
                proof {
                    found = found.push(v);
                }
            },
            None => {},
        }
        assert(ns =~= found + after);
        if end == to {
            return (first, None);
        }
        assert(rest.skip(end - pos + 1) =~= s.skip(end + 1 - from));
        pos = end + 1;
    }
}

fn is_separator(sep: Separator, c: char) -> (r: bool)
    ensures
        r == separates(sep, c),
{
    match sep {
        Separator::Dot => c == '.',
        Separator::NonDigit => !('0' <= c && c <= '9'),
    }
}

/// Where the field that starts at `from` ends.
fn field_end(cs: &Vec<char>, from: usize, to: usize, sep: Separator) -> (r: usize)
    requires
        from <= to <= cs@.len(),
    ensures
        from <= r <= to,
        r - from == field_len(cs@.subrange(from as int, to as int), sep),
{
    let ghost s = cs@.subrange(from as int, to as int);
    let mut end: usize = from;
    while end < to && !is_separator(sep, cs[end])
        invariant
            from <= end <= to <= cs@.len(),
            s == cs@.subrange(from as int, to as int),
            forall|i: int| 0 <= i < end - from ==> !separates(sep, #[trigger] s[i]),
        decreases to - end,
    {
        assert(s[end - from] == cs@[end as int]);
        end = end + 1;
    }
    proof {
        if end < to {
            assert(s[end - from] == cs@[end as int]);
        }
        lemma_field_len_is(s, sep, end - from);
    }
    end
}

/// Reads the `major.minor` that `cs[from..to]` begins with.
pub fn read_leading_version(cs: &Vec<char>, from: usize, to: usize) -> (r: Option<(u32, u32)>)
    requires
        from <= to <= cs@.len(),
    ensures
        r == leading_version(cs@.subrange(from as int, to as int)),
{
    let ghost s = cs@.subrange(from as int, to as int);
    let dot: usize = field_end(cs, from, to, Separator::NonDigit);
    assert(s.take(dot - from) =~= cs@.subrange(from as int, dot as int));
    if dot == to || cs[dot] != '.' {
        return None;
    }
    let ghost rest = s.skip(dot - from + 1);
    assert(rest =~= cs@.subrange(dot + 1, to as int));
    let end: usize = field_end(cs, dot + 1, to, Separator::NonDigit);
    assert(rest.take(end - dot - 1) =~= cs@.subrange(dot + 1, end as int));
    match (read_u32(cs, from, dot), read_u32(cs, dot + 1, end)) {
        (Some(major), Some(minor)) => Some((major, minor)),
        _ => None,
    }
}

/// Whether `cs[from..to]` begins with `prefix`.
pub fn has_prefix(cs: &Vec<char>, from: usize, to: usize, prefix: &str) -> (r: bool)
    requires
        from <= to <= cs@.len(),
    ensures
        r == starts_with(cs@.subrange(from as int, to as int), prefix@),
{
    let p = chars_of(prefix);
    if to - from < p.len() {
        return false;
    }
    let r = matches_at(cs, from, &p);
    assert(cs@.subrange(from as int, to as int).take(p@.len() as int) =~= cs@.subrange(
        from as int,
        from + p@.len(),
    ));
    r
}

/// The decimal digit with value `d`.
pub open spec fn digit_char(d: nat) -> char {
    ('0' as nat + d) as char
}

/// `n` in base ten, without leading zeros.
pub open spec fn decimal(n: nat) -> Seq<char>
    decreases n,
{
    if n < 10 {
        seq![digit_char(n)]
    } else {
        decimal(n / 10).push(digit_char(n % 10))
    }
}

fn digit_text(d: u64) -> (r: &'static str)
    requires
        d < 10,
    ensures
        r@ == seq![digit_char(d as nat)],
{
    proof {
        reveal_strlit("0");
        reveal_strlit("1");
        reveal_strlit("2");
        reveal_strlit("3");
        reveal_strlit("4");
        reveal_strlit("5");
        reveal_strlit("6");
        reveal_strlit("7");
        reveal_strlit("8");
        reveal_strlit("9");
    }
    let r = match d {
        0 => "0",
        1 => "1",
        2 => "2",
        3 => "3",
        4 => "4",
        5 => "5",
        6 => "6",
        7 => "7",
        8 => "8",
        _ => "9",
    };
    assert(r@ =~= seq![digit_char(d as nat)]);
    r
}

/// Appends `n` in base ten.
pub fn push_decimal(out: &mut String, n: u64)
    ensures
        final(out)@ == old(out)@ + decimal(n as nat),
    decreases n,
{
    if n >= 10 {
        push_decimal(out, n / 10);
    }
    out.append(digit_text(n % 10));
    assert(out@ =~= old(out)@ + decimal(n as nat));
}

/// A number written in base ten reads back as itself.
pub proof fn decimal_reads_back(n: nat)
    ensures
        decimal(n).len() > 0,
        forall|i: int| 0 <= i < decimal(n).len() ==> is_digit(#[trigger] decimal(n)[i]),
        digits_value(decimal(n)) == n,
        n <= u32::MAX ==> parse_u32(decimal(n)) == Some(n as u32),
    decreases n,
{
    let s = decimal(n);
    if n < 10 {
        reveal_with_fuel(digits_value, 2);
        assert(s.drop_last().len() == 0);
    } else {
        decimal_reads_back(n / 10);
        assert(s.drop_last() =~= decimal(n / 10));
    }
    assert(is_digit(s[0]));
    assert(unsigned_digits(s) == s);
}

/// The lower-case hexadecimal digit with value `d`.
pub open spec fn hex_char(d: nat) -> char {
    if d < 10 {
        digit_char(d)
    } else {
        ('a' as nat + (d - 10)) as char
    }
}

/// `n` in base sixteen, without leading zeros.
pub open spec fn hexadecimal(n: nat) -> Seq<char>
    decreases n,
{
    if n < 16 {
        seq![hex_char(n)]
    } else {
        hexadecimal(n / 16).push(hex_char(n % 16))
    }
}

fn hex_text(d: u32) -> (r: &'static str)
    requires
        d < 16,
    ensures
        r@ == seq![hex_char(d as nat)],
{
    if d < 10 {
        return digit_text(d as u64);
    }
    proof {
        reveal_strlit("a");
        reveal_strlit("b");
        reveal_strlit("c");
        reveal_strlit("d");
        reveal_strlit("e");
        reveal_strlit("f");
    }
    let r = match d {
        10 => "a",
        11 => "b",
        12 => "c",
        13 => "d",
        14 => "e",
        _ => "f",
    };
    assert(r@ =~= seq![hex_char(d as nat)]);
    r
}

/// Appends `n` in base sixteen.
pub fn push_hexadecimal(out: &mut String, n: u32)
    ensures
        final(out)@ == old(out)@ + hexadecimal(n as nat),
    decreases n,
{
    if n >= 16 {
        push_hexadecimal(out, n / 16);
    }
    out.append(hex_text(n % 16));
    assert(out@ =~= old(out)@ + hexadecimal(n as nat));
}

/// `s` with every `pat` replaced by `with`, scanning from the left and
/// continuing behind each occurrence.
pub open spec fn replace(s: Seq<char>, pat: Seq<char>, with: Seq<char>) -> Seq<char>
    decreases s.len(),
{
    if s.len() == 0 || pat.len() == 0 {
        s
    } else if starts_with(s, pat) {
        with + replace(s.skip(pat.len() as int), pat, with)
    } else {
        seq![s[0]] + replace(s.skip(1), pat, with)
    }
}

/// `s` with every `pat` replaced by `with`.
pub fn replace_all(s: &str, pat: &str, with: &str) -> (r: String)
    requires
        pat@.len() > 0,
    ensures
        r@ == replace(s@, pat@, with@),
{
    let cs = chars_of(s);
    let ps = chars_of(pat);
    let mut out = String::new();
    let mut start: usize = 0;
    let mut i: usize = 0;
    assert(s@.skip(0) =~= s@);
    assert(out@ + s@.subrange(0, 0) + replace(s@.skip(0), pat@, with@) =~= replace(s@, pat@, with@));
    while i < cs.len()
        invariant
            cs@ == s@,
            ps@ == pat@,
            pat@.len() > 0,
            start <= i <= s@.len(),
            out@ + s@.subrange(start as int, i as int) + replace(s@.skip(i as int), pat@, with@)
                == replace(s@, pat@, with@),
        decreases s@.len() - i,
    {
        let ghost rest = s@.skip(i as int);
        let hit = matches_at(&cs, i, &ps);
        proof {
            if i + pat@.len() <= s@.len() {
                assert(rest.take(pat@.len() as int) =~= s@.subrange(i as int, i + pat@.len()));
            }
            assert(hit == starts_with(rest, pat@));
        }
        if hit {
            let ghost before = out@;
            let ghost from = start;
            out.append(s.substring_char(start, i));
            out.append(with);
            i = i + ps.len();
            start = i;
            proof {
                assert(rest.skip(pat@.len() as int) =~= s@.skip(i as int));
                assert(out@ + s@.subrange(start as int, i as int) =~= out@);
                assert(out@ + replace(s@.skip(i as int), pat@, with@) =~= before + s@.subrange(
                    from as int,
                    i - pat@.len(),
                ) + (with@ + replace(rest.skip(pat@.len() as int), pat@, with@)));
            }
        } else {
            proof {
                assert(rest.skip(1) =~= s@.skip(i + 1));
                assert(rest[0] == s@[i as int]);
                assert(s@.subrange(start as int, i + 1) =~= s@.subrange(start as int, i as int)
                    + seq![s@[i as int]]);
                assert(out@ + s@.subrange(start as int, i + 1) + replace(s@.skip(i + 1), pat@, with@)
                    =~= out@ + s@.subrange(start as int, i as int) + (seq![rest[0]] + replace(
                    rest.skip(1),
                    pat@,
                    with@,
                )));
            }
            i = i + 1;
        }
    }
    out.append(s.substring_char(start, cs.len()));
    assert(s@.skip(i as int) =~= Seq::<char>::empty());
    assert(out@ =~= replace(s@, pat@, with@));
    out
}

/// Number of characters before the first line feed.
pub open spec fn line_len(s: Seq<char>) -> nat
    decreases s.len(),
{
    if s.len() > 0 && s[0] != '\n' {
        1 + line_len(s.skip(1))
    } else {
        0
    }
}

/// The first line of `s` without its ending (a line feed, or a carriage
/// return and a line feed); a question mark when `s` is empty.
pub open spec fn first_line_or_mark(s: Seq<char>) -> Seq<char> {
    let k = line_len(s) as int;
    if s.len() == 0 {
        seq!['?']
    } else if 0 < k < s.len() && s[k - 1] == '\r' {
        s.take(k - 1)
    } else {
        s.take(k)
    }
}

pub(crate) proof fn lemma_line_len(s: Seq<char>, k: int)
    requires
        0 <= k <= s.len(),
        forall|i: int| 0 <= i < k ==> #[trigger] s[i] != '\n',
        k < s.len() ==> s[k] == '\n',
    ensures
        line_len(s) == k,
    decreases s.len(),
{
    if k > 0 {
        let t = s.skip(1);
        assert forall|i: int| 0 <= i < k - 1 implies #[trigger] t[i] != '\n' by {
            assert(t[i] == s[i + 1]);
        }
        assert(s[0] != '\n');
        lemma_line_len(t, k - 1);
    }
}

/// The first line of `s`, or a question mark when `s` is empty.
pub fn first_line(s: &str) -> (r: &str)
    ensures
        r@ == first_line_or_mark(s@),
{
    let cs = chars_of(s);
    if cs.len() == 0 {
        proof {
            reveal_strlit("?");
        }
        let r: &str = "?";
        assert(r@ =~= seq!['?']);
        return r;
    }
    let mut k: usize = 0;
    while k < cs.len() && cs[k] != '\n'
        invariant
            cs@ == s@,
            k <= s@.len(),
            forall|i: int| 0 <= i < k ==> #[trigger] s@[i] != '\n',
        decreases s@.len() - k,
    {
        k = k + 1;
    }
    proof {
        lemma_line_len(s@, k as int);
    }
    let end: usize = if 0 < k && k < cs.len() && cs[k - 1] == '\r' {
        k - 1
    } else {
        k
    };
    let r = s.substring_char(0, end);
    assert(r@ =~= first_line_or_mark(s@));
    r
}

/// The views of a list of strings.
pub open spec fn string_views(list: Seq<String>) -> Seq<Seq<char>> {
    list.map_values(|s: String| s@)
}

/// The views of a list of string slices.
pub open spec fn str_views(list: Seq<&'static str>) -> Seq<Seq<char>> {
    list.map_values(|s: &'static str| s@)
}

/// `list` with `sep` between neighbours.
pub open spec fn joined(list: Seq<Seq<char>>, sep: Seq<char>) -> Seq<char>
    decreases list.len(),
{
    if list.len() == 0 {
        Seq::empty()
    } else if list.len() == 1 {
        list[0]
    } else {
        joined(list.drop_last(), sep) + sep + list.last()
    }
}

/// Joins `list` with `sep` between neighbours.
pub fn join(list: &Vec<String>, sep: &str) -> (r: String)
    ensures
        r@ == joined(string_views(list@), sep@),
{
    let mut out = String::new();
    let ghost views = string_views(list@);
    for i in 0..list.len()
        invariant
            views == string_views(list@),
            out@ == joined(views.take(i as int), sep@),
    {
        proof {
            let t = views.take(i + 1);
            assert(t.drop_last() =~= views.take(i as int));
            assert(t.last() == list@[i as int]@);
        }
        if i > 0 {
            out.append(sep);
        }
        out.append(list[i].as_str());
        assert(out@ =~= joined(views.take(i + 1), sep@));
    }
    assert(views.take(list@.len() as int) =~= views);
    out
}

/// An owned copy of `s`.
pub fn copy(s: &str) -> (r: String)
    ensures
        r@ == s@,
{
    let mut out = String::new();
    out.append(s);
    assert(out@ =~= s@);
    out
}

/// The concatenation of two strings.
pub fn concat2(a: &str, b: &str) -> (r: String)
    ensures
        r@ == a@ + b@,
{
    let mut out = String::new();
    out.append(a);
    out.append(b);
    assert(out@ =~= a@ + b@);
    out
}

} // verus!
