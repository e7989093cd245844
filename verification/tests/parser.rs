use bible_corpus::builder::{parse_text, Builder};
use bible_corpus::classify::{classify, LineType};
use bible_corpus::corpus::Corpus;

fn chars(s: &str) -> Vec<char> {
    s.chars().collect()
}

fn parse(s: &str) -> Corpus {
    parse_text(&chars(s))
}

#[test]
fn classify_chapter_marker() {
    assert_eq!(classify(&chars("=== 1 ===")), LineType::Chapter("1".to_string()));
    assert_eq!(classify(&chars("===1===")), LineType::Chapter("1".to_string()));
    assert_eq!(classify(&chars("=== ab ===")), LineType::Chapter("ab".to_string()));
    assert_eq!(classify(&chars("===abc===")), LineType::Chapter("abc".to_string()));
}

#[test]
fn classify_book_marker() {
    assert_eq!(classify(&chars("== Genesis ==")), LineType::Book("Genesis".to_string()));
    assert_eq!(classify(&chars("==Genesis==")), LineType::Book("Genesis".to_string()));
    assert_eq!(classify(&chars("== A ==")), LineType::Book("A".to_string()));
    assert_eq!(classify(&chars("==A==")), LineType::Book("A".to_string()));
}

#[test]
fn classify_strips_at_most_one_separator_space() {
    // the payload is what stands strictly between the delimiters, with at
    // most one space removed on each side; further spaces are payload
    assert_eq!(classify(&chars("==  A  ==")), LineType::Book(" A ".to_string()));
    assert_eq!(classify(&chars("== A==")), LineType::Book("A".to_string()));
    assert_eq!(classify(&chars("==A ==")), LineType::Book("A".to_string()));
    assert_eq!(classify(&chars("=== ===")), LineType::Chapter("".to_string()));
    assert_eq!(classify(&chars("==ab==")), LineType::Book("ab".to_string()));
}

#[test]
fn classify_chapter_never_book() {
    // a chapter-shaped line must never be read as a book marker, even when
    // it has no payload between its delimiters
    assert_eq!(classify(&chars("=== X ===")), LineType::Chapter("X".to_string()));
    assert_eq!(classify(&chars("===X===")), LineType::Chapter("X".to_string()));
    assert_eq!(classify(&chars("======")), LineType::Unknown);
    assert_eq!(classify(&chars("=====")), LineType::Unknown);
    assert_eq!(classify(&chars("====")), LineType::Unknown);
    assert_eq!(classify(&chars("===")), LineType::Unknown);
}

#[test]
fn classify_verse_record() {
    assert_eq!(
        classify(&chars("3 For God so loved the world")),
        LineType::Verse(3, "For God so loved the world".to_string())
    );
    // the text after the first space is kept verbatim
    assert_eq!(classify(&chars("12  doubled")), LineType::Verse(12, " doubled".to_string()));
    assert_eq!(classify(&chars("007 x")), LineType::Verse(7, "x".to_string()));
    assert_eq!(classify(&chars("+7 plus")), LineType::Verse(7, "plus".to_string()));
    assert_eq!(classify(&chars("4294967295 max")), LineType::Verse(4294967295, "max".to_string()));
}

#[test]
fn classify_unrecognized() {
    assert_eq!(classify(&chars("")), LineType::Unknown);
    assert_eq!(classify(&chars("no leading number")), LineType::Unknown);
    assert_eq!(classify(&chars("nospace")), LineType::Unknown);
    assert_eq!(classify(&chars("4294967296 over")), LineType::Unknown);
    assert_eq!(classify(&chars("-1 negative")), LineType::Unknown);
    assert_eq!(classify(&chars("3x oops")), LineType::Unknown);
}

#[test]
fn end_to_end_genesis() {
    let c = parse(
        "==Genesis==\n===1===\n1 In the beginning God created the heaven and the earth.",
    );
    assert_eq!(c.books.len(), 1);
    assert_eq!(c.books[0].name, "Genesis");
    assert_eq!(c.books[0].chapters.len(), 1);
    assert_eq!(c.books[0].chapters[0].number, "1");
    assert_eq!(c.books[0].chapters[0].verses.len(), 1);
    assert_eq!(c.books[0].chapters[0].verses[0].number, 1);
    assert_eq!(
        c.books[0].chapters[0].verses[0].text,
        "In the beginning God created the heaven and the earth."
    );
}

#[test]
fn superseded_book_has_no_chapter() {
    let c = parse("==A==\n==B==\n===1===\n1 text");
    assert_eq!(c.books.len(), 2);
    assert_eq!(c.books[0].name, "A");
    assert_eq!(c.books[0].chapters.len(), 0);
    assert_eq!(c.books[1].name, "B");
    assert_eq!(c.books[1].chapters.len(), 1);
    assert_eq!(c.books[1].chapters[0].verses.len(), 1);
    assert_eq!(c.books[1].chapters[0].verses[0].text, "text");
}

#[test]
fn parse_twice_identical() {
    let input = "== A ==\n=== 1 ===\n1 alpha\n2 beta\n== B ==\n=== 2 ===\n3 gamma";
    assert_eq!(parse(input), parse(input));
}

#[test]
fn chapter_before_book_discarded() {
    let c = parse("=== 1 ===\n1 orphan\n== A ==\n=== 2 ===\n2 kept");
    assert_eq!(c.books.len(), 1);
    assert_eq!(c.books[0].name, "A");
    assert_eq!(c.books[0].chapters.len(), 1);
    assert_eq!(c.books[0].chapters[0].number, "2");
    assert_eq!(c.books[0].chapters[0].verses.len(), 1);
    assert_eq!(c.books[0].chapters[0].verses[0].text, "kept");
}

#[test]
fn chapter_before_book_discarded_at_end_of_stream() {
    let c = parse("=== 1 ===\n1 orphan");
    assert_eq!(c.books.len(), 0);
}

#[test]
fn verse_before_chapter_dropped() {
    let c = parse("== A ==\n5 hello\n=== 1 ===\n6 kept");
    assert_eq!(c.books.len(), 1);
    assert_eq!(c.books[0].chapters.len(), 1);
    let ch = &c.books[0].chapters[0];
    assert_eq!(ch.verses.len(), 1);
    assert_eq!(ch.verses[0].number, 6);
    assert_eq!(ch.verses[0].text, "kept");
}

#[test]
fn lines_are_trimmed_and_crlf_handled() {
    let c = parse("\t== A ==  \r\n=== 1 ===\r\n1 word\r\n");
    assert_eq!(c.books.len(), 1);
    assert_eq!(c.books[0].name, "A");
    assert_eq!(c.books[0].chapters[0].verses[0].text, "word");
}

#[test]
fn empty_and_unrecognized_lines_have_no_effect() {
    let c = parse("\n\n== A ==\n\nnoise here has no number\n=== 1 ===\n   \n1 one\n\n");
    assert_eq!(c.books.len(), 1);
    assert_eq!(c.books[0].chapters.len(), 1);
    assert_eq!(c.books[0].chapters[0].verses.len(), 1);
}

#[test]
fn empty_input_gives_empty_corpus() {
    let c = parse("");
    assert_eq!(c.books.len(), 0);
}

#[test]
fn builder_steps_match_fold() {
    let mut b = Builder::new();
    b.apply(LineType::Book("A".to_string()));
    b.apply(LineType::Chapter("1".to_string()));
    b.apply(LineType::Verse(1, "one".to_string()));
    b.apply(LineType::Unknown);
    b.apply(LineType::Verse(2, "two".to_string()));
    let c = b.finish();
    assert_eq!(c.books.len(), 1);
    assert_eq!(c.books[0].chapters[0].verses.len(), 2);
    assert_eq!(c.books[0].chapters[0].verses[1].number, 2);
}

#[test]
fn builder_drops_orphans_at_finish() {
    let mut b = Builder::new();
    b.apply(LineType::Chapter("1".to_string()));
    b.apply(LineType::Verse(1, "orphan".to_string()));
    let c = b.finish();
    assert_eq!(c.books.len(), 0);
}
