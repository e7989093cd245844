//! Random verse selection and citation formatting.

use vstd::prelude::*;
use vstd::string::StringExecFns;
use crate::corpus::{CorpusModel, Corpus};
use crate::digits::dec_digits;

verus! {

/// Relies on `rand::random_range` over `0..n`: it returns a uniformly drawn
/// value of the range, and panics only on an empty range, which the
/// precondition rules out. Nothing more is assumed of the draw.
#[verifier::external_body]
fn random_below(n: usize) -> (r: usize)
    requires
        0 < n,
    ensures
        r < n,
{
    rand::random_range(0..n)
}

/// Whether `(b, ch, v)` indexes one verse of the corpus.
pub open spec fn valid_path(c: CorpusModel, b: int, ch: int, v: int) -> bool {
    &&& 0 <= b < c.books.len()
    &&& 0 <= ch < c.books[b].chapters.len()
    &&& 0 <= v < c.books[b].chapters[ch].verses.len()
}

/// Every container met on the way to a verse is non-empty: there is a book,
/// every book has a chapter, and every chapter has a verse.
pub open spec fn fully_populated(c: CorpusModel) -> bool {
    &&& c.books.len() > 0
    &&& forall|b: int| 0 <= b < c.books.len() ==> #[trigger] c.books[b].chapters.len() > 0
    &&& forall|b: int, ch: int|
        0 <= b < c.books.len() && 0 <= ch < c.books[b].chapters.len()
            ==> #[trigger] c.books[b].chapters[ch].verses.len() > 0
}

/// Draw a book, a chapter within it, and a verse within that, each uniformly.
/// Returns nothing as soon as a drawn container is empty.
pub fn pick_indices(corpus: &Corpus) -> (r: Option<(usize, usize, usize)>)
    ensures
        (match r {
            Some(p) => valid_path(corpus@, p.0 as int, p.1 as int, p.2 as int),
            None => !fully_populated(corpus@),
        }),
        fully_populated(corpus@) ==> r is Some,
{
    let nb = corpus.books.len();
    if nb == 0 {
        return None;
    }
    let b = random_below(nb);
    let book = &corpus.books[b];
    let nc = book.chapters.len();
    if nc == 0 {
        proof {
            assert(corpus@.books[b as int].chapters.len() == 0);
        }
        return None;
    }
    let ch = random_below(nc);
    let chapter = &book.chapters[ch];
    let nv = chapter.verses.len();
    if nv == 0 {
        proof {
            assert(corpus@.books[b as int].chapters[ch as int].verses.len() == 0);
        }
        return None;
    }
    let v = random_below(nv);
    Some((b, ch, v))
}

/// The printed line for one verse: `<number>. <text> [<book>:<chapter>]`.
pub open spec fn spec_citation(c: CorpusModel, b: int, ch: int, v: int) -> Seq<char> {
    dec_digits(c.books[b].chapters[ch].verses[v].number as int) + ". "@
        + c.books[b].chapters[ch].verses[v].text + " ["@ + c.books[b].name + ":"@
        + c.books[b].chapters[ch].number + "]"@
}

/// Format the verse at the given path with its citation.
pub fn citation_of(corpus: &Corpus, b: usize, ch: usize, v: usize) -> (r: String)
    requires
        valid_path(corpus@, b as int, ch as int, v as int),
    ensures
        r@ == spec_citation(corpus@, b as int, ch as int, v as int),
{
    let book = &corpus.books[b];
    let chapter = &book.chapters[ch];
    let verse = &chapter.verses[v];
    let mut r = crate::digits::u32_to_string(verse.number);
    r.append(". ");
    r.append(verse.text.as_str());
    r.append(" [");
    r.append(book.name.as_str());
    r.append(":");
    r.append(chapter.number.as_str());
    r.append("]");
    proof {
        assert(r@ =~= spec_citation(corpus@, b as int, ch as int, v as int));
    }
    r
}

/// Draw one verse at random and format it with its citation. Returns nothing
/// only when a drawn container was empty, which cannot happen on a fully
/// populated corpus.
pub fn random_citation(corpus: &Corpus) -> (r: Option<String>)
    ensures
        (match r {
            Some(s) => exists|b: int, ch: int, v: int|
                valid_path(corpus@, b, ch, v) && s@ == spec_citation(corpus@, b, ch, v),
            None => !fully_populated(corpus@),
        }),
        fully_populated(corpus@) ==> r is Some,
{
    match pick_indices(corpus) {
        Some((b, ch, v)) => {
            let s = citation_of(corpus, b, ch, v);
            proof {
                assert(valid_path(corpus@, b as int, ch as int, v as int) && s@
                    == spec_citation(corpus@, b as int, ch as int, v as int));
            }
            Some(s)
        },
        None => None,
    }
}

} // verus!
