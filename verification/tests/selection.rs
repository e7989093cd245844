use bible_corpus::builder::{load_corpus, parse_text};
use bible_corpus::corpus::Corpus;
use bible_corpus::digits::{parse_u32, u32_to_string};
use bible_corpus::select::{citation_of, pick_indices, random_citation};

fn chars(s: &str) -> Vec<char> {
    s.chars().collect()
}

fn parse(s: &str) -> Corpus {
    parse_text(&chars(s))
}

#[test]
fn parse_u32_accepts_what_from_str_accepts() {
    assert_eq!(parse_u32(&chars("0")), Some(0));
    assert_eq!(parse_u32(&chars("123")), Some(123));
    assert_eq!(parse_u32(&chars("007")), Some(7));
    assert_eq!(parse_u32(&chars("+42")), Some(42));
    assert_eq!(parse_u32(&chars("4294967295")), Some(4294967295));
    assert_eq!(parse_u32(&chars("4294967296")), None);
    assert_eq!(parse_u32(&chars("999999999999")), None);
    assert_eq!(parse_u32(&chars("")), None);
    assert_eq!(parse_u32(&chars("+")), None);
    assert_eq!(parse_u32(&chars(" 1")), None);
    assert_eq!(parse_u32(&chars("1 ")), None);
    assert_eq!(parse_u32(&chars("-1")), None);
    assert_eq!(parse_u32(&chars("12a")), None);
}

#[test]
fn u32_rendering_is_plain_decimal() {
    assert_eq!(u32_to_string(0), "0");
    assert_eq!(u32_to_string(7), "7");
    assert_eq!(u32_to_string(10), "10");
    assert_eq!(u32_to_string(40210), "40210");
    assert_eq!(u32_to_string(4294967295), "4294967295");
}

#[test]
fn rendered_numbers_read_back() {
    for n in [0u32, 1, 9, 10, 99, 12345, 4294967295] {
        assert_eq!(parse_u32(&chars(&u32_to_string(n))), Some(n));
    }
}

#[test]
fn citation_formats_verse_with_book_and_chapter() {
    let c = parse("== Genesis ==\n=== 1 ===\n1 In the beginning\n2 And the earth");
    assert_eq!(citation_of(&c, 0, 0, 0), "1. In the beginning [Genesis:1]");
    assert_eq!(citation_of(&c, 0, 0, 1), "2. And the earth [Genesis:1]");
}

#[test]
fn pick_indices_stays_in_bounds() {
    let c = parse(
        "== A ==\n=== 1 ===\n1 a\n2 b\n=== 2 ===\n3 c\n== B ==\n=== 9 ===\n4 d\n5 e\n6 f",
    );
    for _ in 0..50 {
        let (b, ch, v) = pick_indices(&c).expect("populated corpus");
        let book = &c.books[b];
        let chapter = &book.chapters[ch];
        assert!(v < chapter.verses.len());
    }
}

#[test]
fn pick_indices_rejects_empty_containers() {
    assert_eq!(pick_indices(&parse("")), None);
    assert_eq!(pick_indices(&parse("== A ==")), None);
    assert_eq!(pick_indices(&parse("== A ==\n=== 1 ===")), None);
}

#[test]
fn random_citation_of_single_verse_is_that_verse() {
    let c = parse("== Genesis ==\n=== 1 ===\n1 In the beginning");
    for _ in 0..10 {
        assert_eq!(
            random_citation(&c).as_deref(),
            Some("1. In the beginning [Genesis:1]")
        );
    }
}

#[test]
fn random_citation_of_empty_corpus_is_none() {
    assert_eq!(random_citation(&parse("")), None);
    assert_eq!(random_citation(&parse("== A ==\n=== 1 ===")), None);
}

#[test]
fn load_corpus_decodes_windows_1251() {
    // "== Бытие ==", "=== 1 ===", "1 В начале" in windows-1251 bytes
    let mut data: Vec<u8> = Vec::new();
    data.extend_from_slice(b"== ");
    data.extend_from_slice(&[0xC1, 0xFB, 0xF2, 0xE8, 0xE5]);
    data.extend_from_slice(b" ==\n=== 1 ===\n1 ");
    data.extend_from_slice(&[0xC2, 0x20, 0xED, 0xE0, 0xF7, 0xE0, 0xEB, 0xE5]);
    let c = load_corpus(&data);
    assert_eq!(c.books.len(), 1);
    assert_eq!(c.books[0].name, "Бытие");
    assert_eq!(c.books[0].chapters[0].number, "1");
    assert_eq!(c.books[0].chapters[0].verses[0].number, 1);
    assert_eq!(c.books[0].chapters[0].verses[0].text, "В начале");
}

#[test]
fn load_corpus_of_ascii_bytes_matches_parse_text() {
    let data = b"== A ==\n=== 1 ===\n1 word";
    let c = load_corpus(data);
    assert_eq!(c, parse("== A ==\n=== 1 ===\n1 word"));
}
