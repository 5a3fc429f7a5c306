//! Character-level helpers shared by the geometry, conversion and decoding
//! code: strings as character vectors, whitespace trimming, searching and
//! line splitting.

use vstd::prelude::*;

verus! {

/// `String::push` appends exactly one character to the end of the string.
pub assume_specification[ String::push ](s: &mut String, c: char)
    ensures
        final(s)@ == old(s)@.push(c),
;

/// The characters of `s`, in order.
pub fn chars_of(s: &str) -> (v: Vec<char>)
    ensures
        v@ == s@,
{
    let mut v: Vec<char> = Vec::new();
    for c in it: s.chars()
        invariant
            it.seq() == s@,
            v@ == s@.take(it.index() as int),
    {
        v.push(c);
    }
    v
}

/// The string made of `chars[from..to]`.
pub fn string_of(chars: &Vec<char>, from: usize, to: usize) -> (s: String)
    requires
        from <= to <= chars.len(),
    ensures
        s@ == chars@.subrange(from as int, to as int),
{
    let mut s = String::new();
    let mut i: usize = from;
    while i < to
        invariant
            from <= i <= to <= chars.len(),
            s@ == chars@.subrange(from as int, i as int),
        decreases to - i,
    {
        s.push(chars[i]);
        i += 1;
    }
    s
}

/// Unicode `White_Space` characters, the set that `char::is_whitespace`
/// recognises.
pub open spec fn is_whitespace_spec(c: char) -> bool {
    let u = c as u32;
    ||| 0x09 <= u <= 0x0D
    ||| u == 0x20
    ||| u == 0x85
    ||| u == 0xA0
    ||| u == 0x1680
    ||| 0x2000 <= u <= 0x200A
    ||| u == 0x2028
    ||| u == 0x2029
    ||| u == 0x202F
    ||| u == 0x205F
    ||| u == 0x3000
}

pub fn is_whitespace(c: char) -> (b: bool)
    ensures
        b == is_whitespace_spec(c),
{
    let u: u32 = c as u32;
    (0x09 <= u && u <= 0x0D) || u == 0x20 || u == 0x85 || u == 0xA0 || u == 0x1680 || (0x2000 <= u
        && u <= 0x200A) || u == 0x2028 || u == 0x2029 || u == 0x202F || u == 0x205F || u == 0x3000
}

/// ASCII letters, `A`–`Z` and `a`–`z`.
pub open spec fn is_ascii_alphabetic_spec(c: char) -> bool {
    ('a' <= c <= 'z') || ('A' <= c <= 'Z')
}

pub fn is_ascii_alphabetic(c: char) -> (b: bool)
    ensures
        b == is_ascii_alphabetic_spec(c),
{
    ('a' <= c && c <= 'z') || ('A' <= c && c <= 'Z')
}

/// `s` without its leading whitespace.
pub open spec fn trim_start(s: Seq<char>) -> Seq<char>
    decreases s.len(),
{
    if s.len() > 0 && is_whitespace_spec(s.first()) {
        trim_start(s.drop_first())
    } else {
        s
    }
}

/// `s` without its trailing whitespace.
pub open spec fn trim_end(s: Seq<char>) -> Seq<char>
    decreases s.len(),
{
    if s.len() > 0 && is_whitespace_spec(s.last()) {
        trim_end(s.drop_last())
    } else {
        s
    }
}

/// `s` without leading and trailing whitespace.
pub open spec fn trim(s: Seq<char>) -> Seq<char> {
    trim_end(trim_start(s))
}

/// Skipping a whitespace prefix that ends at a non-whitespace character (or at
/// the end) is `trim_start`.
pub proof fn lemma_trim_start_skips(s: Seq<char>, a: int)
    requires
        0 <= a <= s.len(),
        forall|k: int| 0 <= k < a ==> is_whitespace_spec(#[trigger] s[k]),
        a < s.len() ==> !is_whitespace_spec(s[a]),
    ensures
        trim_start(s) == s.skip(a),
    decreases a,
{
    if a == 0 {
        assert(s.skip(0) =~= s);
    } else {
        assert(is_whitespace_spec(s[0]));
        let rest = s.drop_first();
        assert forall|k: int| 0 <= k < a - 1 implies is_whitespace_spec(#[trigger] rest[k]) by {
            assert(rest[k] == s[k + 1]);
        }
        lemma_trim_start_skips(rest, a - 1);
        assert(rest.skip(a - 1) =~= s.skip(a));
    }
}

/// Cutting a whitespace suffix that starts after a non-whitespace character
/// (or at the start) is `trim_end`.
pub proof fn lemma_trim_end_takes(s: Seq<char>, b: int)
    requires
        0 <= b <= s.len(),
        forall|k: int| b <= k < s.len() ==> is_whitespace_spec(#[trigger] s[k]),
        b > 0 ==> !is_whitespace_spec(s[b - 1]),
    ensures
        trim_end(s) == s.take(b),
    decreases s.len() - b,
{
    if b == s.len() {
        assert(s.take(b) =~= s);
    } else {
        assert(is_whitespace_spec(s[s.len() - 1]));
        let rest = s.drop_last();
        lemma_trim_end_takes(rest, b);
        assert(rest.take(b) =~= s.take(b));
    }
}

/// The bounds `(a, b)` of `chars` without its leading and trailing
/// whitespace.
pub fn trim_bounds(chars: &Vec<char>) -> (bounds: (usize, usize))
    ensures
        bounds.0 <= bounds.1 <= chars.len(),
        chars@.subrange(bounds.0 as int, bounds.1 as int) == trim(chars@),
{
    let n: usize = chars.len();
    let mut a: usize = 0;
    while a < n && is_whitespace(chars[a])
        invariant
            a <= n == chars.len(),
            forall|k: int| 0 <= k < a ==> is_whitespace_spec(#[trigger] chars@[k]),
        decreases n - a,
    {
        a += 1;
    }
    let mut b: usize = n;
    while b > a && is_whitespace(chars[b - 1])
        invariant
            a <= b <= n == chars.len(),
            forall|k: int| b <= k < n ==> is_whitespace_spec(#[trigger] chars@[k]),
        decreases b,
    {
        b -= 1;
    }
    proof {
        let s = chars@;
        lemma_trim_start_skips(s, a as int);
        let t = s.skip(a as int);
        assert forall|k: int| b - a <= k < t.len() implies is_whitespace_spec(#[trigger] t[k]) by {
            assert(t[k] == s[k + a]);
        }
        lemma_trim_end_takes(t, b - a);
        assert(t.take(b - a) =~= s.subrange(a as int, b as int));
    }
    (a, b)
}

/// Index of the first `c` in `s`, or `s.len()` where there is none.
pub open spec fn find(s: Seq<char>, c: char) -> nat
    decreases s.len(),
{
    if s.len() == 0 || s.first() == c {
        0
    } else {
        1 + find(s.drop_first(), c)
    }
}

/// `find` is the first position that holds `c`.
pub proof fn lemma_find(s: Seq<char>, c: char, k: int)
    requires
        0 <= k <= s.len(),
        forall|i: int| 0 <= i < k ==> #[trigger] s[i] != c,
        k < s.len() ==> s[k] == c,
    ensures
        find(s, c) == k,
    decreases k,
{
    if k > 0 {
        let rest = s.drop_first();
        assert(s[0] != c);
        assert forall|i: int| 0 <= i < k - 1 implies #[trigger] rest[i] != c by {
            assert(rest[i] == s[i + 1]);
        }
        lemma_find(rest, c, k - 1);
    }
}

/// Nothing before `find` holds `c`, and `find` does unless it is the length.
pub proof fn lemma_find_is_first(s: Seq<char>, c: char)
    ensures
        find(s, c) <= s.len(),
        forall|i: int| 0 <= i < find(s, c) ==> #[trigger] s[i] != c,
        find(s, c) < s.len() ==> s[find(s, c) as int] == c,
    decreases s.len(),
{
    if s.len() > 0 && s.first() != c {
        let rest = s.drop_first();
        lemma_find_is_first(rest, c);
        assert forall|i: int| 0 <= i < find(s, c) implies #[trigger] s[i] != c by {
            if i > 0 {
                assert(s[i] == rest[i - 1]);
            }
        }
    }
}

/// First position at or after `from` that holds `c`, or the length.
pub fn find_from(chars: &Vec<char>, from: usize, c: char) -> (at: usize)
    requires
        from <= chars.len(),
    ensures
        from <= at <= chars.len(),
        at - from == find(chars@.skip(from as int), c),
{
    let mut at: usize = from;
    while at < chars.len() && chars[at] != c
        invariant
            from <= at <= chars.len(),
            forall|i: int| from <= i < at ==> #[trigger] chars@[i] != c,
        decreases chars.len() - at,
    {
        at += 1;
    }
    proof {
        let rest = chars@.skip(from as int);
        assert forall|i: int| 0 <= i < at - from implies #[trigger] rest[i] != c by {
            assert(rest[i] == chars@[i + from]);
        }
        lemma_find(rest, c, at - from);
    }
    at
}

/// The pieces of `s` between occurrences of `sep`. There is always at least
/// one piece; an empty `s` has one empty piece.
pub open spec fn split(s: Seq<char>, sep: char) -> Seq<Seq<char>>
    decreases s.len(),
{
    let k = find(s, sep) as int;
    if k >= s.len() {
        seq![s]
    } else {
        seq![s.take(k)] + split(s.skip(k + 1), sep)
    }
}

/// `s` without one trailing carriage return.
pub open spec fn strip_cr(s: Seq<char>) -> Seq<char> {
    if s.len() > 0 && s.last() == '\r' {
        s.drop_last()
    } else {
        s
    }
}

/// The lines of `text`. A line ends at a line feed, which is not part of it,
/// nor is a carriage return directly before that line feed. A last line
/// without a line feed counts as it stands; nothing follows a final line
/// feed.
pub open spec fn lines(text: Seq<char>) -> Seq<Seq<char>>
    decreases text.len(),
{
    let k = find(text, '\n') as int;
    if text.len() == 0 {
        Seq::empty()
    } else if k >= text.len() {
        seq![text]
    } else {
        seq![strip_cr(text.take(k))] + lines(text.skip(k + 1))
    }
}

/// No line holds a line feed.
pub proof fn lemma_lines_hold_no_line_feed(text: Seq<char>)
    ensures
        forall|r: int, i: int|
            0 <= r < lines(text).len() && 0 <= i < lines(text)[r].len() ==> #[trigger] lines(
                text,
            )[r][i] != '\n',
    decreases text.len(),
{
    let k = find(text, '\n') as int;
    lemma_find_is_first(text, '\n');
    if text.len() > 0 && k < text.len() {
        let first = strip_cr(text.take(k));
        let rest = lines(text.skip(k + 1));
        lemma_lines_hold_no_line_feed(text.skip(k + 1));
        assert forall|r: int, i: int|
            0 <= r < lines(text).len() && 0 <= i < lines(text)[r].len() implies #[trigger] lines(
            text,
        )[r][i] != '\n' by {
            if r == 0 {
                assert(lines(text)[0] == first);
                assert(first[i] == text[i]);
            } else {
                assert(lines(text)[r] == rest[r - 1]);
            }
        }
    }
}

/// The rows of `rows` as character sequences.
pub open spec fn rows_view(rows: Seq<String>) -> Seq<Seq<char>> {
    Seq::new(rows.len(), |i: int| rows[i]@)
}

/// Splits `text` into its lines.
pub fn split_lines(text: &str) -> (rows: Vec<String>)
    ensures
        rows_view(rows@) == lines(text@),
{
    let chars = chars_of(text);
    let n: usize = chars.len();
    let mut rows: Vec<String> = Vec::new();
    let mut start: usize = 0;
    proof {
        assert(chars@.skip(0) =~= chars@);
        assert(rows_view(rows@) + lines(chars@) =~= lines(chars@));
    }
    while start < n
        invariant
            start <= n == chars.len(),
            chars@ == text@,
            rows_view(rows@) + lines(chars@.skip(start as int)) == lines(chars@),
        decreases n - start,
    {
        let end: usize = find_from(&chars, start, '\n');
        let ghost rest = chars@.skip(start as int);
        let ghost before = rows_view(rows@);
        if end == n {
            let row = string_of(&chars, start, n);
            rows.push(row);
            proof {
                assert(chars@.subrange(start as int, n as int) =~= rest);
                assert(rows_view(rows@) =~= before + seq![rest]);
                assert(chars@.skip(n as int) =~= Seq::<char>::empty());
                assert(lines(chars@.skip(n as int)) =~= Seq::<Seq<char>>::empty());
                assert(rows_view(rows@) + lines(chars@.skip(n as int)) =~= before + lines(rest));
            }
            start = n;
        } else {
            let stop: usize = if end > start && chars[end - 1] == '\r' {
                end - 1
            } else {
                end
            };
            let row = string_of(&chars, start, stop);
            rows.push(row);
            proof {
                let k = end - start;
                assert(rest.take(k) =~= chars@.subrange(start as int, end as int));
                assert(chars@.subrange(start as int, stop as int) =~= strip_cr(rest.take(k)));
                assert(rest.skip(k + 1) =~= chars@.skip(end + 1));
                assert(rows_view(rows@) =~= before + seq![strip_cr(rest.take(k))]);
                assert(rows_view(rows@) + lines(chars@.skip(end + 1)) =~= before + lines(rest));
            }
            start = end + 1;
        }
    }
    proof {
        assert(chars@.skip(n as int) =~= Seq::<char>::empty());
        assert(rows_view(rows@) + lines(chars@.skip(n as int)) =~= rows_view(rows@));
    }
    rows
}

} // verus!
