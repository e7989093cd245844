//! The laws of the parser, proved once and for all: a well-formed marker
//! stream rebuilds exactly the corpus it describes, parsing is a pure
//! function of the input, material before the first book marker is
//! discarded, a verse before the first chapter marker is dropped, and the
//! chapter marker test takes priority over the book marker test.

use vstd::prelude::*;
use crate::classify::{LineTag, spec_classify, chapter_shaped};
use crate::corpus::{VerseModel, ChapterModel, BookModel, CorpusModel};
use crate::builder::{BuildState, init_state, close_chapter, step_tag, run_tags, finalize,
    spec_parse_tags, spec_parse_text};

verus! {

/// The verse record that writes a verse out.
pub open spec fn verse_tag(v: VerseModel) -> LineTag {
    LineTag::Verse(v.number, v.text)
}

pub open spec fn tags_of_verses(vs: Seq<VerseModel>) -> Seq<LineTag>
    decreases vs.len(),
{
    if vs.len() == 0 {
        Seq::empty()
    } else {
        seq![verse_tag(vs[0])] + tags_of_verses(vs.subrange(1, vs.len() as int))
    }
}

/// The line stream that writes a chapter out: its marker, then its verses.
pub open spec fn tags_of_chapter(ch: ChapterModel) -> Seq<LineTag> {
    seq![LineTag::Chapter(ch.number)] + tags_of_verses(ch.verses)
}

pub open spec fn tags_of_chapters(chs: Seq<ChapterModel>) -> Seq<LineTag>
    decreases chs.len(),
{
    if chs.len() == 0 {
        Seq::empty()
    } else {
        tags_of_chapter(chs[0]) + tags_of_chapters(chs.subrange(1, chs.len() as int))
    }
}

/// The line stream that writes a book out: its marker, then its chapters.
pub open spec fn tags_of_book(b: BookModel) -> Seq<LineTag> {
    seq![LineTag::Book(b.name)] + tags_of_chapters(b.chapters)
}

pub open spec fn tags_of_books(bs: Seq<BookModel>) -> Seq<LineTag>
    decreases bs.len(),
{
    if bs.len() == 0 {
        Seq::empty()
    } else {
        tags_of_book(bs[0]) + tags_of_books(bs.subrange(1, bs.len() as int))
    }
}

/// The well-formed line stream that writes a whole corpus out, in order.
pub open spec fn tags_of_corpus(c: CorpusModel) -> Seq<LineTag> {
    tags_of_books(c.books)
}

/// The fold distributes over concatenation of line streams.
pub proof fn lemma_run_concat(st: BuildState, a: Seq<LineTag>, b: Seq<LineTag>)
    ensures
        run_tags(st, a + b) == run_tags(run_tags(st, a), b),
    decreases a.len(),
{
    if a.len() == 0 {
        assert(a + b =~= b);
    } else {
        assert((a + b)[0] == a[0]);
        assert((a + b).subrange(1, (a + b).len() as int) =~= a.subrange(1, a.len() as int) + b);
        lemma_run_concat(step_tag(st, a[0]), a.subrange(1, a.len() as int), b);
    }
}

/// Running one tag is one step.
proof fn lemma_run_single(st: BuildState, t: LineTag)
    ensures
        run_tags(st, seq![t]) == step_tag(st, t),
{
    assert(seq![t].subrange(1, 1) =~= Seq::<LineTag>::empty());
    assert(run_tags(st, seq![t]) == run_tags(step_tag(st, t), seq![t].subrange(1, 1)));
}

/// Verse records run onto an open chapter append exactly those verses.
proof fn lemma_run_verses(st: BuildState, vs: Seq<VerseModel>)
    requires
        st.cur_chapter is Some,
    ensures
        run_tags(st, tags_of_verses(vs)) == (BuildState {
            books: st.books,
            cur_book: st.cur_book,
            cur_chapter: Some(
                ChapterModel {
                    number: st.cur_chapter->Some_0.number,
                    verses: st.cur_chapter->Some_0.verses + vs,
                },
            ),
        }),
    decreases vs.len(),
{
    let ch = st.cur_chapter->Some_0;
    if vs.len() == 0 {
        assert(ch.verses + vs =~= ch.verses);
        assert(st =~= (BuildState {
            books: st.books,
            cur_book: st.cur_book,
            cur_chapter: Some(ChapterModel { number: ch.number, verses: ch.verses + vs }),
        }));
    } else {
        let rest = vs.subrange(1, vs.len() as int);
        assert((seq![verse_tag(vs[0])] + tags_of_verses(rest))[0] == verse_tag(vs[0]));
        assert((seq![verse_tag(vs[0])] + tags_of_verses(rest)).subrange(
            1,
            tags_of_verses(vs).len() as int,
        ) =~= tags_of_verses(rest));
        let st1 = step_tag(st, verse_tag(vs[0]));
        assert(st1.cur_chapter->Some_0.verses =~= ch.verses.push(vs[0]));
        assert(run_tags(st, tags_of_verses(vs)) == run_tags(st1, tags_of_verses(rest)));
        lemma_run_verses(st1, rest);
        assert(ch.verses.push(vs[0]) + rest =~= ch.verses + vs);
    }
}

/// The chapter that the open chapter closes into, if one is open.
pub open spec fn closed_cur(st: BuildState) -> Seq<ChapterModel> {
    match st.cur_chapter {
        None => Seq::empty(),
        Some(ch) => seq![ch],
    }
}

/// Chapter blocks run onto an open book append those chapters, leaving the
/// last one still open.
proof fn lemma_run_chapters(st: BuildState, chs: Seq<ChapterModel>)
    requires
        st.cur_book is Some,
        chs.len() > 0,
    ensures
        run_tags(st, tags_of_chapters(chs)) == (BuildState {
            books: st.books,
            cur_book: Some(
                BookModel {
                    name: st.cur_book->Some_0.name,
                    chapters: st.cur_book->Some_0.chapters + closed_cur(st) + chs.subrange(
                        0,
                        chs.len() - 1,
                    ),
                },
            ),
            cur_chapter: Some(chs.last()),
        }),
    decreases chs.len(),
{
    let c0 = chs[0];
    let rest = chs.subrange(1, chs.len() as int);
    let t1 = seq![LineTag::Chapter(c0.number)];
    let tv = tags_of_verses(c0.verses);
    let trest = tags_of_chapters(rest);
    assert(tags_of_chapters(chs) == (t1 + tv) + trest);
    lemma_run_concat(st, t1 + tv, trest);
    lemma_run_concat(st, t1, tv);
    lemma_run_single(st, LineTag::Chapter(c0.number));
    let st1 = step_tag(st, LineTag::Chapter(c0.number));
    assert(st1.cur_book == close_chapter(st).cur_book);
    assert(st1.cur_book is Some);
    assert(st1.cur_book->Some_0.chapters =~= st.cur_book->Some_0.chapters + closed_cur(st));
    lemma_run_verses(st1, c0.verses);
    let st2 = run_tags(st1, tv);
    assert(st2.cur_chapter->Some_0 =~= c0);
    assert(st2.cur_chapter == Some(c0));
    if chs.len() == 1 {
        assert(trest =~= Seq::<LineTag>::empty());
        assert(run_tags(st2, trest) == st2);
        assert(st2.cur_book->Some_0.chapters =~= st.cur_book->Some_0.chapters + closed_cur(st)
            + chs.subrange(0, 0));
        assert(chs.last() == c0);
    } else {
        lemma_run_chapters(st2, rest);
        assert(closed_cur(st2) =~= seq![c0]);
        assert(st2.cur_book->Some_0.chapters + closed_cur(st2) + rest.subrange(
            0,
            rest.len() - 1,
        ) =~= st.cur_book->Some_0.chapters + closed_cur(st) + chs.subrange(0, chs.len() - 1));
        assert(rest.last() == chs.last());
    }
}

/// Book blocks append exactly their books once everything is closed.
proof fn lemma_run_books(st: BuildState, bs: Seq<BookModel>)
    ensures
        finalize(run_tags(st, tags_of_books(bs))) == finalize(st) + bs,
    decreases bs.len(),
{
    if bs.len() == 0 {
        assert(finalize(st) + bs =~= finalize(st));
    } else {
        let b0 = bs[0];
        let rest = bs.subrange(1, bs.len() as int);
        let tb = seq![LineTag::Book(b0.name)];
        let tch = tags_of_chapters(b0.chapters);
        let trest = tags_of_books(rest);
        assert(tags_of_books(bs) == (tb + tch) + trest);
        lemma_run_concat(st, tb + tch, trest);
        lemma_run_concat(st, tb, tch);
        lemma_run_single(st, LineTag::Book(b0.name));
        let st1 = step_tag(st, LineTag::Book(b0.name));
        assert(st1.books == finalize(st));
        let st2 = run_tags(st1, tch);
        if b0.chapters.len() == 0 {
            assert(tch =~= Seq::<LineTag>::empty());
            assert(st2 == st1);
            assert(b0.chapters =~= Seq::<ChapterModel>::empty());
            assert((BookModel { name: b0.name, chapters: Seq::empty() }) =~= b0);
            assert(finalize(st2) =~= finalize(st).push(b0));
        } else {
            lemma_run_chapters(st1, b0.chapters);
            assert(st2.cur_book->Some_0.chapters + closed_cur(st2) =~= b0.chapters.subrange(
                0,
                b0.chapters.len() - 1,
            ).push(b0.chapters.last()));
            assert(b0.chapters.subrange(0, b0.chapters.len() - 1).push(b0.chapters.last())
                =~= b0.chapters);
            assert(finalize(st2) =~= finalize(st).push(b0));
        }
        lemma_run_books(st2, rest);
        assert(finalize(st).push(b0) + rest =~= finalize(st) + bs);
    }
}

/// Parsing the marker stream written out from any corpus rebuilds exactly
/// that corpus: one book per book marker, one chapter per chapter marker
/// under the book marker before it, one verse per verse record under the
/// chapter marker before it, all in their original order.
pub proof fn lemma_corpus_round_trip(c: CorpusModel)
    ensures
        spec_parse_tags(tags_of_corpus(c)) == c,
{
    lemma_run_books(init_state(), c.books);
    assert(finalize(init_state()) + c.books =~= c.books);
    assert(spec_parse_tags(tags_of_corpus(c)) =~= c);
}

/// Parsing is a pure function of the decoded text: two parses of the same
/// input are structurally identical.
pub proof fn lemma_parse_deterministic(c1: CorpusModel, c2: CorpusModel, text: Seq<char>)
    requires
        c1 == spec_parse_text(text),
        c2 == spec_parse_text(text),
    ensures
        c1 == c2,
{
}

/// With no open book, the books already closed never change, and no book
/// opens while the stream has no book marker.
proof fn lemma_run_bookless(st: BuildState, ts: Seq<LineTag>)
    requires
        st.cur_book is None,
        forall|i: int| 0 <= i < ts.len() ==> !(ts[i] is Book),
    ensures
        run_tags(st, ts).cur_book is None,
        run_tags(st, ts).books == st.books,
    decreases ts.len(),
{
    if ts.len() > 0 {
        let rest = ts.subrange(1, ts.len() as int);
        assert(forall|i: int| 0 <= i < rest.len() ==> !(rest[i] is Book));
        lemma_run_bookless(step_tag(st, ts[0]), rest);
    }
}

/// Two bookless states that agree on the closed books end in the same corpus,
/// whatever chapter either of them still has open.
proof fn lemma_bookless_equiv(st1: BuildState, st2: BuildState, ts: Seq<LineTag>)
    requires
        st1.books == st2.books,
        st1.cur_book is None,
        st2.cur_book is None,
    ensures
        finalize(run_tags(st1, ts)) == finalize(run_tags(st2, ts)),
    decreases ts.len(),
{
    if ts.len() == 0 {
    } else {
        let rest = ts.subrange(1, ts.len() as int);
        let n1 = step_tag(st1, ts[0]);
        let n2 = step_tag(st2, ts[0]);
        match ts[0] {
            LineTag::Book(_) => {
                assert(n1 =~= n2);
                assert(run_tags(st1, ts) == run_tags(n1, rest));
                assert(run_tags(st2, ts) == run_tags(n2, rest));
            },
            LineTag::Chapter(_) => {
                lemma_bookless_equiv(n1, n2, rest);
            },
            LineTag::Verse(_, _) => {
                lemma_bookless_equiv(n1, n2, rest);
            },
            LineTag::Unknown => {
                lemma_bookless_equiv(n1, n2, rest);
            },
        }
    }
}

/// Everything before the first book marker is discarded: a stream prefix with
/// no book marker in it — stray chapter markers and verse records included —
/// leaves no trace in the final corpus.
pub proof fn lemma_prefix_before_first_book_dropped(pre: Seq<LineTag>, rest: Seq<LineTag>)
    requires
        forall|i: int| 0 <= i < pre.len() ==> !(pre[i] is Book),
    ensures
        spec_parse_tags(pre + rest) == spec_parse_tags(rest),
{
    lemma_run_concat(init_state(), pre, rest);
    lemma_run_bookless(init_state(), pre);
    lemma_bookless_equiv(run_tags(init_state(), pre), init_state(), rest);
}

/// No chapter marker seen yet: no chapter is open.
proof fn lemma_run_chapterless(st: BuildState, ts: Seq<LineTag>)
    requires
        st.cur_chapter is None,
        forall|i: int| 0 <= i < ts.len() ==> !(ts[i] is Chapter),
    ensures
        run_tags(st, ts).cur_chapter is None,
    decreases ts.len(),
{
    if ts.len() > 0 {
        let rest = ts.subrange(1, ts.len() as int);
        assert(forall|i: int| 0 <= i < rest.len() ==> !(rest[i] is Chapter));
        lemma_run_chapterless(step_tag(st, ts[0]), rest);
    }
}

/// A verse record before the first chapter marker is dropped: removing it
/// from the stream leaves the final corpus unchanged, so such a verse appears
/// nowhere.
pub proof fn lemma_verse_before_first_chapter_dropped(ts: Seq<LineTag>, i: int)
    requires
        0 <= i < ts.len(),
        ts[i] is Verse,
        forall|j: int| 0 <= j < i ==> !(ts[j] is Chapter),
    ensures
        spec_parse_tags(ts) == spec_parse_tags(ts.remove(i)),
{
    let pre = ts.subrange(0, i);
    let mid = seq![ts[i]];
    let rest = ts.subrange(i + 1, ts.len() as int);
    assert(ts =~= pre + (mid + rest));
    assert(ts.remove(i) =~= pre + rest);
    lemma_run_concat(init_state(), pre, mid + rest);
    lemma_run_concat(init_state(), pre, rest);
    let st1 = run_tags(init_state(), pre);
    assert(forall|j: int| 0 <= j < pre.len() ==> !(pre[j] is Chapter));
    lemma_run_chapterless(init_state(), pre);
    assert(st1.cur_chapter is None);
    lemma_run_concat(st1, mid, rest);
    lemma_run_single(st1, ts[i]);
    assert(step_tag(st1, ts[i]) == st1);
}

/// The chapter marker test has priority: a line wrapped in the
/// three-character delimiter is never read as a book marker, although it also
/// starts and ends with the two-character one; with anything between its
/// delimiters it is read as a chapter marker.
pub proof fn lemma_chapter_marker_priority(s: Seq<char>)
    requires
        chapter_shaped(s),
    ensures
        !(spec_classify(s) is Book),
        s.len() >= 7 ==> spec_classify(s) == LineTag::Chapter(
            crate::classify::strip_separator(s.subrange(3, s.len() - 3)),
        ),
{
}

} // verus!
