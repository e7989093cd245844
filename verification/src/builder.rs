//! The hierarchy builder: a left fold over the classified line stream that
//! assembles the corpus, holding at most one open book and one open chapter.

use vstd::prelude::*;
use crate::classify::{LineTag, LineType, spec_classify, classify};
use crate::corpus::{VerseModel, ChapterModel, BookModel, CorpusModel, Verse, Chapter, Book,
    Corpus};
use crate::text::{spec_trim, spec_lines, lines_from, strip_cr, trim, subvec, lemma_lines_step,
    lemma_lines_end};

verus! {

/// The builder's state: the books already closed, and the optional book and
/// chapter still under construction.
#[verifier::ext_equal]
pub ghost struct BuildState {
    pub books: Seq<BookModel>,
    pub cur_book: Option<BookModel>,
    pub cur_chapter: Option<ChapterModel>,
}

pub open spec fn init_state() -> BuildState {
    BuildState { books: Seq::empty(), cur_book: None, cur_chapter: None }
}

/// Close the open chapter: append it to the open book, or discard it when no
/// book is open.
pub open spec fn close_chapter(st: BuildState) -> BuildState {
    match st.cur_chapter {
        None => st,
        Some(ch) => match st.cur_book {
            None => BuildState { books: st.books, cur_book: None, cur_chapter: None },
            Some(b) => BuildState {
                books: st.books,
                cur_book: Some(BookModel { name: b.name, chapters: b.chapters.push(ch) }),
                cur_chapter: None,
            },
        },
    }
}

/// Close the open book: append it to the finished books.
pub open spec fn close_book(st: BuildState) -> BuildState {
    match st.cur_book {
        None => st,
        Some(b) => BuildState {
            books: st.books.push(b),
            cur_book: None,
            cur_chapter: st.cur_chapter,
        },
    }
}

/// One step of the fold, on one classified line.
pub open spec fn step_tag(st: BuildState, tag: LineTag) -> BuildState {
    match tag {
        LineTag::Book(name) => {
            let st1 = close_book(close_chapter(st));
            BuildState {
                books: st1.books,
                cur_book: Some(BookModel { name, chapters: Seq::empty() }),
                cur_chapter: None,
            }
        },
        LineTag::Chapter(label) => {
            let st1 = close_chapter(st);
            BuildState {
                books: st1.books,
                cur_book: st1.cur_book,
                cur_chapter: Some(ChapterModel { number: label, verses: Seq::empty() }),
            }
        },
        LineTag::Verse(num, text) => match st.cur_chapter {
            None => st,
            Some(ch) => BuildState {
                books: st.books,
                cur_book: st.cur_book,
                cur_chapter: Some(
                    ChapterModel {
                        number: ch.number,
                        verses: ch.verses.push(VerseModel { number: num, text }),
                    },
                ),
            },
        },
        LineTag::Unknown => st,
    }
}

/// The fold itself, left to right over the classified lines.
pub open spec fn run_tags(st: BuildState, tags: Seq<LineTag>) -> BuildState
    decreases tags.len(),
{
    if tags.len() == 0 {
        st
    } else {
        run_tags(step_tag(st, tags[0]), tags.subrange(1, tags.len() as int))
    }
}

/// End of stream: the open chapter and then the open book are closed, so the
/// last book and chapter of the source are not lost.
pub open spec fn finalize(st: BuildState) -> Seq<BookModel> {
    close_book(close_chapter(st)).books
}

/// The classified stream of a line sequence: each line trimmed, then
/// classified. An empty line classifies as unrecognized, so filtering empty
/// lines out before classification changes nothing.
pub open spec fn tags_of_lines(lines: Seq<Seq<char>>) -> Seq<LineTag> {
    lines.map_values(|l: Seq<char>| spec_classify(spec_trim(l)))
}

/// The corpus built from a classified line stream.
pub open spec fn spec_parse_tags(tags: Seq<LineTag>) -> CorpusModel {
    CorpusModel { books: finalize(run_tags(init_state(), tags)) }
}

/// The corpus built from a sequence of raw lines.
pub open spec fn spec_parse_lines(lines: Seq<Seq<char>>) -> CorpusModel {
    spec_parse_tags(tags_of_lines(lines))
}

/// The corpus built from a whole decoded text.
pub open spec fn spec_parse_text(text: Seq<char>) -> CorpusModel {
    spec_parse_lines(spec_lines(text))
}

pub proof fn lemma_run_tags_push(st: BuildState, tags: Seq<LineTag>, t: LineTag)
    ensures
        run_tags(st, tags.push(t)) == step_tag(run_tags(st, tags), t),
    decreases tags.len(),
{
    if tags.len() == 0 {
        assert(tags.push(t)[0] == t);
        assert(tags.push(t).subrange(1, 1) =~= Seq::<LineTag>::empty());
        assert(run_tags(st, tags.push(t)) == run_tags(step_tag(st, t), tags.push(t).subrange(
            1,
            1,
        )));
        assert(run_tags(step_tag(st, t), Seq::<LineTag>::empty()) == step_tag(st, t));
    } else {
        assert(tags.push(t)[0] == tags[0]);
        assert(tags.push(t).subrange(1, tags.len() as int + 1) =~= tags.subrange(
            1,
            tags.len() as int,
        ).push(t));
        lemma_run_tags_push(step_tag(st, tags[0]), tags.subrange(1, tags.len() as int), t);
        assert(run_tags(st, tags.push(t)) == run_tags(
            step_tag(st, tags[0]),
            tags.subrange(1, tags.len() as int).push(t),
        ));
    }
}

/// The builder, advanced one classified line at a time.
pub struct Builder {
    pub done: Vec<Book>,
    pub cur_book: Option<Book>,
    pub cur_chapter: Option<Chapter>,
}

impl View for Builder {
    type V = BuildState;

    open spec fn view(&self) -> BuildState {
        BuildState {
            books: self.done@.map_values(|b: Book| b@),
            cur_book: match self.cur_book {
                None => None,
                Some(b) => Some(b@),
            },
            cur_chapter: match self.cur_chapter {
                None => None,
                Some(c) => Some(c@),
            },
        }
    }
}

impl Builder {
    pub fn new() -> (r: Builder)
        ensures
            r@ == init_state(),
    {
        let r = Builder { done: Vec::new(), cur_book: None, cur_chapter: None };
        proof {
            assert(r@ =~= init_state());
        }
        r
    }

    fn close_chapter_now(&mut self)
        ensures
            final(self)@ == close_chapter(old(self)@),
    {
        let ch = self.cur_chapter.take();
        match ch {
            None => {},
            Some(c) => {
                let b = self.cur_book.take();
                match b {
                    None => {},
                    Some(mut bk) => {
                        bk.chapters.push(c);
                        self.cur_book = Some(bk);
                    },
                }
            },
        }
        proof {
            assert(self@ =~= close_chapter(old(self)@));
        }
    }

    fn close_book_now(&mut self)
        ensures
            final(self)@ == close_book(old(self)@),
    {
        let b = self.cur_book.take();
        match b {
            None => {},
            Some(bk) => {
                self.done.push(bk);
            },
        }
        proof {
            assert(self@ =~= close_book(old(self)@));
        }
    }

    /// Advance the builder by one classified line.
    pub fn apply(&mut self, tag: LineType)
        ensures
            final(self)@ == step_tag(old(self)@, tag@),
    {
        match tag {
            LineType::Book(name) => {
                self.close_chapter_now();
                self.close_book_now();
                self.cur_book = Some(Book { name, chapters: Vec::new() });
                proof {
                    assert(self@ =~= step_tag(old(self)@, tag@));
                }
            },
            LineType::Chapter(label) => {
                self.close_chapter_now();
                self.cur_chapter = Some(Chapter { number: label, verses: Vec::new() });
                proof {
                    assert(self@ =~= step_tag(old(self)@, tag@));
                }
            },
            LineType::Verse(num, text) => {
                let ch = self.cur_chapter.take();
                match ch {
                    None => {},
                    Some(mut c) => {
                        c.verses.push(Verse { number: num, text });
                        self.cur_chapter = Some(c);
                    },
                }
                proof {
                    assert(self@ =~= step_tag(old(self)@, tag@));
                }
            },
            LineType::Unknown => {
                proof {
                    assert(self@ =~= step_tag(old(self)@, tag@));
                }
            },
        }
    }

    /// Close what is still open and hand the corpus out.
    pub fn finish(self) -> (r: Corpus)
        ensures
            r@.books == finalize(self@),
    {
        let ghost st0 = self@;
        let mut b = self;
        b.close_chapter_now();
        b.close_book_now();
        let r = Corpus { books: b.done };
        proof {
            assert(r@.books =~= finalize(st0));
        }
        r
    }
}

/// Parse a decoded text: split it into lines, trim and classify each line,
/// and fold the classified stream into a corpus.
pub fn parse_text(text: &Vec<char>) -> (r: Corpus)
    ensures
        r@ == spec_parse_text(text@),
{
    let n: usize = text.len();
    let mut builder = Builder::new();
    let ghost mut done_lines: Seq<Seq<char>> = Seq::empty();
    let mut p: usize = 0;
    proof {
        assert(tags_of_lines(done_lines) =~= Seq::<LineTag>::empty());
        assert(text@.subrange(0, n as int) =~= text@);
        assert(spec_lines(text@) =~= done_lines + lines_from(
            text@.subrange(0, n as int),
            Seq::empty(),
        ));
    }
    while p < n
        invariant
            0 <= p <= n,
            n == text@.len(),
            spec_lines(text@) == done_lines + lines_from(
                text@.subrange(p as int, n as int),
                Seq::empty(),
            ),
            builder@ == run_tags(init_state(), tags_of_lines(done_lines)),
        decreases n - p,
    {
        let ghost rest = text@.subrange(p as int, n as int);
        let mut k: usize = p;
        while k < n && text[k] != '\n'
            invariant
                p <= k <= n,
                n == text@.len(),
                forall|j: int| p <= j < k ==> text@[j] != '\n',
            decreases n - k,
        {
            k = k + 1;
        }
        proof {
            assert(forall|i: int| 0 <= i < k - p ==> rest[i] == text@[p + i]);
        }
        let raw: Vec<char>;
        let ghost old_done = done_lines;
        if k < n {
            // a full line ends at the line feed in position k
            let line_end: usize = if k > p && text[k - 1] == '\r' {
                k - 1
            } else {
                k
            };
            raw = subvec(text, p, line_end);
            proof {
                lemma_lines_step(rest, Seq::empty(), k - p);
                assert(Seq::<char>::empty() + rest.subrange(0, k - p) =~= text@.subrange(
                    p as int,
                    k as int,
                ));
                assert(raw@ =~= strip_cr(text@.subrange(p as int, k as int)));
                assert(rest.subrange(k - p + 1, rest.len() as int) =~= text@.subrange(
                    k + 1,
                    n as int,
                ));
                done_lines = done_lines.push(raw@);
                assert(done_lines + lines_from(text@.subrange(k + 1, n as int), Seq::empty())
                    =~= old_done + lines_from(rest, Seq::empty()));
            }
            let tag = classify(&trim(&raw));
            builder.apply(tag);
            p = k + 1;
        } else {
            // the text ends without a final line feed: the remainder is the
            // last line (it is not empty, since the loop was entered)
            raw = subvec(text, p, n);
            proof {
                lemma_lines_end(rest, Seq::empty());
                assert(Seq::<char>::empty() + rest =~= raw@);
                assert(raw@.len() > 0);
                done_lines = done_lines.push(raw@);
                assert(text@.subrange(n as int, n as int) =~= Seq::<char>::empty());
                assert(done_lines + lines_from(text@.subrange(n as int, n as int), Seq::empty())
                    =~= old_done + lines_from(rest, Seq::empty()));
            }
            let tag = classify(&trim(&raw));
            builder.apply(tag);
            p = n;
        }
        proof {
            assert(tags_of_lines(done_lines) =~= tags_of_lines(old_done).push(
                spec_classify(spec_trim(raw@)),
            ));
            lemma_run_tags_push(
                init_state(),
                tags_of_lines(old_done),
                spec_classify(spec_trim(raw@)),
            );
        }
    }
    proof {
        assert(text@.subrange(n as int, n as int) =~= Seq::<char>::empty());
        assert(spec_lines(text@) =~= done_lines);
    }
    builder.finish()
}

/// What `encoding_rs::WINDOWS_1251.decode` yields on the given bytes: the
/// decoded text is a function of the input bytes alone.
pub uninterp spec fn win1251_decoded(bytes: Seq<u8>) -> Seq<char>;

/// Relies on `encoding_rs::WINDOWS_1251.decode`: it decodes the bytes with
/// BOM handling and lossy replacement of malformed sequences, and always
/// succeeds.
#[verifier::external_body]
fn decode_windows1251(bytes: &[u8]) -> (r: Vec<char>)
    ensures
        r@ == win1251_decoded(bytes@),
{
    let (cow, _, _) = encoding_rs::WINDOWS_1251.decode(bytes);
    cow.chars().collect()
}

/// Decode a raw corpus from its windows-1251 bytes and parse it.
pub fn load_corpus(data: &[u8]) -> (r: Corpus)
    ensures
        r@ == spec_parse_text(win1251_decoded(data@)),
{
    let text = decode_windows1251(data);
    parse_text(&text)
}

} // verus!
