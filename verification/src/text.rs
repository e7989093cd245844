//! Character-level utilities: whitespace, trimming, and splitting a text
//! into lines.

use vstd::prelude::*;

verus! {

/// The characters with the Unicode `White_Space` property, i.e. exactly the
/// characters that `char::is_whitespace` accepts.
pub open spec fn spec_is_space(c: char) -> bool {
    c == ' ' || c == '\t' || c == '\n' || c == '\u{000B}' || c == '\u{000C}' || c == '\r'
        || c == '\u{0085}' || c == '\u{00A0}' || c == '\u{1680}'
        || ('\u{2000}' <= c && c <= '\u{200A}')
        || c == '\u{2028}' || c == '\u{2029}' || c == '\u{202F}' || c == '\u{205F}'
        || c == '\u{3000}'
}

/// Whether `c` counts as whitespace when a line is trimmed.
pub fn is_space(c: char) -> (r: bool)
    ensures
        r == spec_is_space(c),
{
    c == ' ' || c == '\t' || c == '\n' || c == '\u{000B}' || c == '\u{000C}' || c == '\r'
        || c == '\u{0085}' || c == '\u{00A0}' || c == '\u{1680}'
        || ('\u{2000}' <= c && c <= '\u{200A}')
        || c == '\u{2028}' || c == '\u{2029}' || c == '\u{202F}' || c == '\u{205F}'
        || c == '\u{3000}'
}

/// `s` with its leading whitespace removed.
pub open spec fn spec_trim_front(s: Seq<char>) -> Seq<char>
    decreases s.len(),
{
    if s.len() > 0 && spec_is_space(s[0]) {
        spec_trim_front(s.subrange(1, s.len() as int))
    } else {
        s
    }
}

/// `s` with its trailing whitespace removed.
pub open spec fn spec_trim_back(s: Seq<char>) -> Seq<char>
    decreases s.len(),
{
    if s.len() > 0 && spec_is_space(s.last()) {
        spec_trim_back(s.drop_last())
    } else {
        s
    }
}

/// `s` with leading and trailing whitespace removed, as `str::trim` does.
pub open spec fn spec_trim(s: Seq<char>) -> Seq<char> {
    spec_trim_back(spec_trim_front(s))
}

proof fn lemma_trim_front_range(s: Seq<char>, i: int)
    requires
        0 <= i <= s.len(),
        forall|j: int| 0 <= j < i ==> spec_is_space(s[j]),
        i < s.len() ==> !spec_is_space(s[i]),
    ensures
        spec_trim_front(s) == s.subrange(i, s.len() as int),
    decreases s.len(),
{
    if s.len() > 0 && spec_is_space(s[0]) {
        let t = s.subrange(1, s.len() as int);
        assert(i >= 1);
        lemma_trim_front_range(t, i - 1);
        assert(t.subrange(i - 1, t.len() as int) =~= s.subrange(i, s.len() as int));
    } else {
        assert(i == 0);
        assert(s.subrange(0, s.len() as int) =~= s);
    }
}

proof fn lemma_trim_back_range(s: Seq<char>, i: int)
    requires
        0 <= i <= s.len(),
        forall|j: int| i <= j < s.len() ==> spec_is_space(s[j]),
        i > 0 ==> !spec_is_space(s[i - 1]),
    ensures
        spec_trim_back(s) == s.subrange(0, i),
    decreases s.len(),
{
    if s.len() > 0 && spec_is_space(s.last()) {
        assert(i < s.len());
        lemma_trim_back_range(s.drop_last(), i);
        assert(s.drop_last().subrange(0, i) =~= s.subrange(0, i));
    } else {
        assert(i == s.len());
        assert(s.subrange(0, s.len() as int) =~= s);
    }
}

/// Copy of `line` with leading and trailing whitespace removed.
pub fn trim(line: &Vec<char>) -> (r: Vec<char>)
    ensures
        r@ == spec_trim(line@),
{
    let n: usize = line.len();
    let mut start: usize = 0;
    while start < n && is_space(line[start])
        invariant
            0 <= start <= n,
            n == line@.len(),
            forall|j: int| 0 <= j < start ==> spec_is_space(line@[j]),
        decreases n - start,
    {
        start = start + 1;
    }
    let mut end: usize = n;
    while end > start && is_space(line[end - 1])
        invariant
            start <= end <= n,
            n == line@.len(),
            forall|j: int| end <= j < n ==> spec_is_space(line@[j]),
        decreases end,
    {
        end = end - 1;
    }
    proof {
        lemma_trim_front_range(line@, start as int);
        let f = line@.subrange(start as int, n as int);
        if end > start {
            lemma_trim_back_range(f, end - start);
        } else {
            lemma_trim_back_range(f, 0);
            assert(forall|j: int| 0 <= j < f.len() ==> spec_is_space(#[trigger] f[j]));
        }
        assert(spec_trim(line@) =~= line@.subrange(start as int, end as int));
    }
    let mut r: Vec<char> = Vec::new();
    let mut i: usize = start;
    while i < end
        invariant
            start <= i <= end <= n,
            n == line@.len(),
            r@ =~= line@.subrange(start as int, i as int),
        decreases end - i,
    {
        r.push(line[i]);
        assert(r@ =~= line@.subrange(start as int, i + 1));
        i = i + 1;
    }
    proof {
        assert(r@ =~= spec_trim(line@));
    }
    r
}

/// Copy of `v[from..to]`.
pub fn subvec(v: &Vec<char>, from: usize, to: usize) -> (r: Vec<char>)
    requires
        from <= to <= v@.len(),
    ensures
        r@ == v@.subrange(from as int, to as int),
{
    let mut r: Vec<char> = Vec::new();
    let mut i: usize = from;
    while i < to
        invariant
            from <= i <= to <= v@.len(),
            r@ =~= v@.subrange(from as int, i as int),
        decreases to - i,
    {
        r.push(v[i]);
        assert(r@ =~= v@.subrange(from as int, i + 1));
        i = i + 1;
    }
    r
}

/// Relies on `String`'s `FromIterator<char>` impl: collecting characters
/// yields the string made of exactly those characters, in order.
#[verifier::external_body]
pub(crate) fn chars_to_string(v: &Vec<char>) -> (r: String)
    ensures
        r@ == v@,
{
    v.iter().collect()
}

/// Whether `c` occurs in `s`.
pub open spec fn has_char(s: Seq<char>, c: char) -> bool {
    exists|i: int| 0 <= i < s.len() && s[i] == c
}

/// Whether `k` is the index of the first occurrence of `c` in `s`.
pub open spec fn is_first_of(s: Seq<char>, c: char, k: int) -> bool {
    0 <= k < s.len() && s[k] == c && (forall|j: int| 0 <= j < k ==> s[j] != c)
}

/// The index of the first occurrence of `c` in `s`; meaningful only when
/// `has_char(s, c)` holds.
pub open spec fn first_of(s: Seq<char>, c: char) -> int {
    choose|k: int| is_first_of(s, c, k)
}

pub proof fn lemma_first_of_exists(s: Seq<char>, c: char)
    requires
        has_char(s, c),
    ensures
        is_first_of(s, c, first_of(s, c)),
    decreases s.len(),
{
    if s[0] == c {
        assert(is_first_of(s, c, 0));
    } else {
        let t = s.subrange(1, s.len() as int);
        let w = choose|i: int| 0 <= i < s.len() && s[i] == c;
        assert(t[w - 1] == c);
        lemma_first_of_exists(t, c);
        let k = first_of(t, c);
        assert(forall|j: int| 1 <= j < k + 1 ==> s[j] == t[j - 1] && t[j - 1] != c);
        assert(is_first_of(s, c, k + 1));
    }
}

pub proof fn lemma_first_of_is(s: Seq<char>, c: char, k: int)
    requires
        is_first_of(s, c, k),
    ensures
        first_of(s, c) == k,
{
    lemma_first_of_exists(s, c);
    let k2 = first_of(s, c);
    if k2 < k {
        assert(s[k2] == c);
    } else if k2 > k {
        assert(s[k] == c);
    }
}

/// A line with a trailing carriage return removed, as `str::lines` strips it
/// before a line feed.
pub open spec fn strip_cr(l: Seq<char>) -> Seq<char> {
    if l.len() > 0 && l.last() == '\r' {
        l.drop_last()
    } else {
        l
    }
}

/// The lines of `rest` when the characters of `cur` have already been read
/// into the current line.
pub open spec fn lines_from(rest: Seq<char>, cur: Seq<char>) -> Seq<Seq<char>>
    decreases rest.len(),
{
    if rest.len() == 0 {
        if cur.len() == 0 {
            Seq::empty()
        } else {
            seq![cur]
        }
    } else if rest[0] == '\n' {
        seq![strip_cr(cur)] + lines_from(rest.subrange(1, rest.len() as int), Seq::empty())
    } else {
        lines_from(rest.subrange(1, rest.len() as int), cur.push(rest[0]))
    }
}

/// The lines of `text`, as `str::lines` splits them: lines end at `\n` or
/// `\r\n`, and the line ending after the last line is optional.
pub open spec fn spec_lines(text: Seq<char>) -> Seq<Seq<char>> {
    lines_from(text, Seq::empty())
}

/// Reading up to the first line feed in `rest` yields one line and leaves
/// the remainder after that line feed.
pub proof fn lemma_lines_step(rest: Seq<char>, cur: Seq<char>, j: int)
    requires
        0 <= j < rest.len(),
        rest[j] == '\n',
        forall|i: int| 0 <= i < j ==> rest[i] != '\n',
    ensures
        lines_from(rest, cur) == seq![strip_cr(cur + rest.subrange(0, j))] + lines_from(
            rest.subrange(j + 1, rest.len() as int),
            Seq::empty(),
        ),
    decreases j,
{
    if j == 0 {
        assert(cur + rest.subrange(0, 0) =~= cur);
    } else {
        let t = rest.subrange(1, rest.len() as int);
        lemma_lines_step(t, cur.push(rest[0]), j - 1);
        assert(cur.push(rest[0]) + t.subrange(0, j - 1) =~= cur + rest.subrange(0, j));
        assert(t.subrange(j, t.len() as int) =~= rest.subrange(j + 1, rest.len() as int));
    }
}

/// Text without a line feed is a single line, or none when it is empty.
pub proof fn lemma_lines_end(rest: Seq<char>, cur: Seq<char>)
    requires
        forall|i: int| 0 <= i < rest.len() ==> rest[i] != '\n',
    ensures
        lines_from(rest, cur) == if cur.len() + rest.len() == 0 {
            Seq::<Seq<char>>::empty()
        } else {
            seq![cur + rest]
        },
    decreases rest.len(),
{
    if rest.len() == 0 {
        assert(cur + rest =~= cur);
    } else {
        let t = rest.subrange(1, rest.len() as int);
        lemma_lines_end(t, cur.push(rest[0]));
        assert(cur.push(rest[0]) + t =~= cur + rest);
    }
}

} // verus!
