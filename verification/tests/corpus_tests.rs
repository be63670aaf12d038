use rsb::corpus::{book_number_of, build_document, parse_book};
use rsb::document::Book;

fn lines(v: &[&str]) -> Vec<String> {
    v.iter().map(|s| String::from(*s)).collect()
}

#[test]
fn parse_book_reads_title_and_verses() {
    let b = parse_book(&lines(&[
        "== Genesis ==",
        "===",
        "1 In the beginning",
        "2 And the earth",
    ]))
    .unwrap();
    assert_eq!(b.title, "Genesis");
    assert_eq!(b.chapters.len(), 1);
    assert_eq!(b.chapters[0], vec!["In the beginning", "And the earth"]);
}

#[test]
fn parser_flushes_final_chapter_without_marker() {
    // The last chapter has verse lines but no closing marker: it is still
    // emitted at end of file.
    let b = parse_book(&lines(&[
        "== T ==",
        "===",
        "1 one",
        "===",
        "1 two",
        "2 three",
    ]))
    .unwrap();
    assert_eq!(b.chapters.len(), 2);
    assert_eq!(b.chapters[0], vec!["one"]);
    assert_eq!(b.chapters[1], vec!["two", "three"]);
}

#[test]
fn parser_first_marker_emits_nothing() {
    let b = parse_book(&lines(&["== T ==", "===", "1 a"])).unwrap();
    assert_eq!(b.chapters.len(), 1);
}

#[test]
fn parser_last_title_wins() {
    let b = parse_book(&lines(&["== First ==", "== Second ==", "1 a"])).unwrap();
    assert_eq!(b.title, "Second");
}

#[test]
fn parser_without_title_fails() {
    assert!(parse_book(&lines(&["===", "1 a"])).is_none());
}

#[test]
fn parser_skips_lines_without_separator() {
    let b = parse_book(&lines(&["== T ==", "noseparator", "1 kept"])).unwrap();
    assert_eq!(b.chapters[0], vec!["kept"]);
}

#[test]
fn parser_discards_printed_verse_number() {
    // Position is authoritative: the printed number is dropped, whatever it says.
    let b = parse_book(&lines(&["== T ==", "99 text here"])).unwrap();
    assert_eq!(b.chapters[0], vec!["text here"]);
}

#[test]
fn book_number_from_file_name() {
    assert_eq!(book_number_of("0_genesis.txt"), Some(0));
    assert_eq!(book_number_of("12_kings"), Some(12));
    assert_eq!(book_number_of("README"), None);
    assert_eq!(book_number_of("x_y"), None);
    assert_eq!(book_number_of("99999999999999999999_big"), None);
}

fn tiny_book(title: &str) -> Book {
    parse_book(&lines(&["== x ==", "1 a"]))
        .map(|mut b| {
            b.title = String::from(title);
            b
        })
        .unwrap()
}

#[test]
fn build_document_orders_books_by_number() {
    let doc = build_document(vec![
        (1, tiny_book("second")),
        (0, tiny_book("first")),
        (2, tiny_book("third")),
    ])
    .unwrap();
    assert_eq!(doc.books.len(), 3);
    assert_eq!(doc.books[0].title, "first");
    assert_eq!(doc.books[1].title, "second");
    assert_eq!(doc.books[2].title, "third");
}

#[test]
fn build_document_rejects_duplicates() {
    assert!(build_document(vec![(0, tiny_book("a")), (0, tiny_book("b"))]).is_none());
}

#[test]
fn build_document_rejects_gaps() {
    assert!(build_document(vec![(0, tiny_book("a")), (2, tiny_book("b"))]).is_none());
}

#[test]
fn document_accessors() {
    let doc = build_document(vec![(0, tiny_book("only"))]).unwrap();
    assert_eq!(doc.book_count(), 1);
    assert_eq!(doc.title(0), "only");
    let b = doc.book(0);
    assert_eq!(b.chapter_count(), 1);
    assert_eq!(b.verse_count(0), 1);
    assert_eq!(b.verse(0, 0), "a");
    assert_eq!(b.chapter_verses(0), &vec![String::from("a")]);
}
