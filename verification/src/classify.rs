//! The line classifier: maps one trimmed line to a book marker, a chapter
//! marker, a verse record, or an unrecognized line.

use vstd::prelude::*;
use crate::digits::{is_u32_string, spec_u32_value, parse_u32};
use crate::text::{has_char, is_first_of, first_of, lemma_first_of_is, subvec, chars_to_string};

verus! {

/// The classification of one line, over mathematical values.
pub ghost enum LineTag {
    /// A book marker `== name ==`; the payload is the name.
    Book(Seq<char>),
    /// A chapter marker `=== label ===`; the payload is the label.
    Chapter(Seq<char>),
    /// A verse record `<number> <text>`.
    Verse(u32, Seq<char>),
    /// Any other line; it has no structural effect.
    Unknown,
}

/// The classification of one line.
#[derive(Debug, PartialEq)]
pub enum LineType {
    Book(String),
    Chapter(String),
    Verse(u32, String),
    Unknown,
}

impl View for LineType {
    type V = LineTag;

    open spec fn view(&self) -> LineTag {
        match self {
            LineType::Book(name) => LineTag::Book(name@),
            LineType::Chapter(label) => LineTag::Chapter(label@),
            LineType::Verse(num, text) => LineTag::Verse(*num, text@),
            LineType::Unknown => LineTag::Unknown,
        }
    }
}

/// Whether the line starts and ends with the three-character chapter
/// delimiter `===`. The two delimiter occurrences may overlap.
pub open spec fn chapter_shaped(s: Seq<char>) -> bool {
    &&& s.len() >= 3
    &&& s[0] == '=' && s[1] == '=' && s[2] == '='
    &&& s[s.len() - 1] == '=' && s[s.len() - 2] == '=' && s[s.len() - 3] == '='
}

/// Whether the line starts and ends with the two-character book delimiter
/// `==`. Every chapter-shaped line is also book-shaped, so the chapter test
/// must come first.
pub open spec fn book_shaped(s: Seq<char>) -> bool {
    &&& s.len() >= 2
    &&& s[0] == '=' && s[1] == '='
    &&& s[s.len() - 1] == '=' && s[s.len() - 2] == '='
}

/// Whether the line is a verse record: it has a space, and everything before
/// the first space reads as a `u32`.
pub open spec fn verse_shaped(s: Seq<char>) -> bool {
    has_char(s, ' ') && is_u32_string(s.subrange(0, first_of(s, ' ')))
}

/// The verse number of a verse-shaped line.
pub open spec fn verse_number_of(s: Seq<char>) -> u32 {
    spec_u32_value(s.subrange(0, first_of(s, ' ')))
}

/// The verse text of a verse-shaped line: everything after the first space,
/// verbatim.
pub open spec fn verse_text_of(s: Seq<char>) -> Seq<char> {
    s.subrange(first_of(s, ' ') + 1, s.len() as int)
}

/// A marker payload with its separators removed: at most one leading and one
/// trailing space character is stripped, where present, so `" 1 "`, `"1 "`,
/// `" 1"` and `"1"` all carry the payload `1`.
pub open spec fn strip_separator(inner: Seq<char>) -> Seq<char> {
    let a = if inner.len() > 0 && inner[0] == ' ' {
        inner.subrange(1, inner.len() as int)
    } else {
        inner
    };
    if a.len() > 0 && a.last() == ' ' {
        a.drop_last()
    } else {
        a
    }
}

/// The classification of one trimmed line.
///
/// A marker payload is the text strictly between the two delimiter
/// occurrences — between the three-character delimiters of a chapter marker,
/// between the two-character delimiters of a book marker — with at most one
/// separator space stripped on each side where present: `===1===` and
/// `=== 1 ===` both carry the chapter label `1`. A marker-shaped line with
/// nothing between its delimiters (under 7 characters for a chapter, under 5
/// for a book) has no payload and is unrecognized; a chapter-shaped line is
/// never read as a book marker.
pub open spec fn spec_classify(s: Seq<char>) -> LineTag {
    if chapter_shaped(s) {
        if s.len() >= 7 {
            LineTag::Chapter(strip_separator(s.subrange(3, s.len() - 3)))
        } else {
            LineTag::Unknown
        }
    } else if book_shaped(s) {
        if s.len() >= 5 {
            LineTag::Book(strip_separator(s.subrange(2, s.len() - 2)))
        } else {
            LineTag::Unknown
        }
    } else if verse_shaped(s) {
        LineTag::Verse(verse_number_of(s), verse_text_of(s))
    } else {
        LineTag::Unknown
    }
}

/// The payload of a marker line wrapped in a delimiter of `d` characters on
/// each side.
fn marker_payload(line: &Vec<char>, d: usize) -> (r: Vec<char>)
    requires
        2 * d < line@.len(),
    ensures
        r@ == strip_separator(line@.subrange(d as int, line@.len() - d)),
{
    let n: usize = line.len();
    let ghost inner = line@.subrange(d as int, n - d);
    let mut lo: usize = d;
    let mut hi: usize = n - d;
    if line[lo] == ' ' {
        lo = lo + 1;
    }
    let ghost a = if inner.len() > 0 && inner[0] == ' ' {
        inner.subrange(1, inner.len() as int)
    } else {
        inner
    };
    proof {
        assert(a =~= line@.subrange(lo as int, hi as int));
    }
    if hi > lo && line[hi - 1] == ' ' {
        hi = hi - 1;
        proof {
            assert(a.drop_last() =~= line@.subrange(lo as int, hi as int));
        }
    }
    let r = subvec(line, lo, hi);
    proof {
        assert(r@ =~= strip_separator(inner));
    }
    r
}

/// Classify one trimmed line.
pub fn classify(line: &Vec<char>) -> (r: LineType)
    ensures
        r@ == spec_classify(line@),
{
    let n: usize = line.len();
    let is_chapter = n >= 3 && line[0] == '=' && line[1] == '=' && line[2] == '='
        && line[n - 1] == '=' && line[n - 2] == '=' && line[n - 3] == '=';
    if is_chapter {
        if n >= 7 {
            let payload = marker_payload(line, 3);
            return LineType::Chapter(chars_to_string(&payload));
        } else {
            return LineType::Unknown;
        }
    }
    let is_book = n >= 2 && line[0] == '=' && line[1] == '=' && line[n - 1] == '=' && line[n
        - 2] == '=';
    if is_book {
        if n >= 5 {
            let payload = marker_payload(line, 2);
            return LineType::Book(chars_to_string(&payload));
        } else {
            return LineType::Unknown;
        }
    }
    let mut k: usize = 0;
    while k < n && line[k] != ' '
        invariant
            0 <= k <= n,
            n == line@.len(),
            forall|j: int| 0 <= j < k ==> line@[j] != ' ',
        decreases n - k,
    {
        k = k + 1;
    }
    if k == n {
        proof {
            assert(!has_char(line@, ' '));
        }
        return LineType::Unknown;
    }
    proof {
        assert(is_first_of(line@, ' ', k as int));
        lemma_first_of_is(line@, ' ', k as int);
    }
    let num_part = subvec(line, 0, k);
    match parse_u32(&num_part) {
        Some(num) => {
            let text = subvec(line, k + 1, n);
            LineType::Verse(num, chars_to_string(&text))
        },
        None => LineType::Unknown,
    }
}

} // verus!
