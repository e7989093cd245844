//! The parsed corpus: an ordered tree of books, chapters and verses, with
//! the mathematical models that contracts speak of.

use vstd::prelude::*;

verus! {

/// Model of a verse: its number and its text.
#[verifier::ext_equal]
pub ghost struct VerseModel {
    pub number: u32,
    pub text: Seq<char>,
}

/// Model of a chapter: its label and its verses, in appearance order.
#[verifier::ext_equal]
pub ghost struct ChapterModel {
    pub number: Seq<char>,
    pub verses: Seq<VerseModel>,
}

/// Model of a book: its name and its chapters, in appearance order.
#[verifier::ext_equal]
pub ghost struct BookModel {
    pub name: Seq<char>,
    pub chapters: Seq<ChapterModel>,
}

/// Model of the whole corpus: its books, in appearance order.
#[verifier::ext_equal]
pub ghost struct CorpusModel {
    pub books: Seq<BookModel>,
}

/// A numbered line of text within a chapter.
#[derive(Debug, PartialEq)]
pub struct Verse {
    pub number: u32,
    pub text: String,
}

/// A labeled division of a book. The label is kept as text: it need not be
/// numeric.
#[derive(Debug, PartialEq)]
pub struct Chapter {
    pub number: String,
    pub verses: Vec<Verse>,
}

/// A named top-level division of the corpus.
#[derive(Debug, PartialEq)]
pub struct Book {
    pub name: String,
    pub chapters: Vec<Chapter>,
}

/// The full parsed document.
#[derive(Debug, PartialEq)]
pub struct Corpus {
    pub books: Vec<Book>,
}

impl View for Verse {
    type V = VerseModel;

    open spec fn view(&self) -> VerseModel {
        VerseModel { number: self.number, text: self.text@ }
    }
}

impl View for Chapter {
    type V = ChapterModel;

    open spec fn view(&self) -> ChapterModel {
        ChapterModel { number: self.number@, verses: self.verses@.map_values(|v: Verse| v@) }
    }
}

impl View for Book {
    type V = BookModel;

    open spec fn view(&self) -> BookModel {
        BookModel { name: self.name@, chapters: self.chapters@.map_values(|c: Chapter| c@) }
    }
}

impl View for Corpus {
    type V = CorpusModel;

    open spec fn view(&self) -> CorpusModel {
        CorpusModel { books: self.books@.map_values(|b: Book| b@) }
    }
}

} // verus!
