use rsb::address::{Chapter, Error, Verses};
use rsb::document::Book;
use rsb::render::{query, render};

fn book(title: &str, chapters: &[&[&str]]) -> Book {
    Book {
        title: String::from(title),
        chapters: chapters
            .iter()
            .map(|ch| ch.iter().map(|v| String::from(*v)).collect())
            .collect(),
    }
}

#[test]
fn single_verse_exact_output() {
    let b = book("Genesis", &[&["In the beginning..."]]);
    let out = query("Gen", &b, Some("1:1")).unwrap();
    assert_eq!(out, "[Gen 1:1]   In the beginning...\n");
}

#[test]
fn single_verse_round_trip_text() {
    // Resolving then rendering a valid chapter:verse yields exactly one
    // line, tagged with those numbers, carrying the source text unchanged.
    let b = book("T", &[&["alpha", "beta"], &["gamma", "delta", "epsilon"]]);
    let out = query("T", &b, Some("2:3")).unwrap();
    let lines: Vec<&str> = out.lines().collect();
    assert_eq!(lines.len(), 1);
    assert!(lines[0].starts_with("[T 2:3]"));
    assert!(lines[0].ends_with("epsilon"));
}

#[test]
fn verse_range_inclusive_ascending() {
    let b = book("T", &[&["v1", "v2", "v3", "v4", "v5"]]);
    let out = query("T", &b, Some("1:2-4")).unwrap();
    let lines: Vec<&str> = out.lines().collect();
    assert_eq!(lines.len(), 3);
    assert!(lines[0].starts_with("[T 1:2]"));
    assert!(lines[1].starts_with("[T 1:3]"));
    assert!(lines[2].starts_with("[T 1:4]"));
    assert!(out.ends_with('\n'));
}

#[test]
fn whole_book_renders_every_verse_in_order() {
    let b = book("T", &[&["a", "b"], &["c"], &["d", "e", "f"]]);
    let out = query("T", &b, None).unwrap();
    let lines: Vec<&str> = out.lines().collect();
    assert_eq!(lines.len(), 6);
    let tags = ["1:1", "1:2", "2:1", "3:1", "3:2", "3:3"];
    for (line, tag) in lines.iter().zip(tags.iter()) {
        assert!(line.starts_with(&format!("[T {}]", tag)));
    }
}

#[test]
fn chapter_range_covers_exactly_three_to_five() {
    let b = book(
        "B",
        &[&["c1"], &["c2"], &["c3"], &["c4"], &["c5"], &["c6"]],
    );
    let out = query("B", &b, Some("3-5")).unwrap();
    let lines: Vec<&str> = out.lines().collect();
    assert_eq!(lines.len(), 3);
    assert!(lines[0].starts_with("[B 3:1]") && lines[0].ends_with("c3"));
    assert!(lines[1].starts_with("[B 4:1]") && lines[1].ends_with("c4"));
    assert!(lines[2].starts_with("[B 5:1]") && lines[2].ends_with("c5"));
    assert!(!out.contains("c2") && !out.contains("c6"));
}

#[test]
fn single_chapter_renders_all_its_verses() {
    let b = book("B", &[&["a"], &["x", "y"]]);
    let out = query("B", &b, Some("2")).unwrap();
    let lines: Vec<&str> = out.lines().collect();
    assert_eq!(lines.len(), 2);
    assert!(lines[0].starts_with("[B 2:1]"));
    assert!(lines[1].starts_with("[B 2:2]"));
}

#[test]
fn verse_beyond_count_fails_with_invalid_verse() {
    let verses: Vec<String> = (1..=40).map(|i| format!("verse {}", i)).collect();
    let b = Book { title: String::from("T"), chapters: vec![verses] };
    let err = query("T", &b, Some("1:50")).unwrap_err();
    assert_eq!(
        err,
        Error::InvalidVerse { num: 49, title: String::from("T"), chapter: 0, verses: 40 }
    );
}

#[test]
fn verse_range_end_beyond_count_fails() {
    let b = book("T", &[&["a", "b"]]);
    let err = query("T", &b, Some("1:2-5")).unwrap_err();
    assert_eq!(
        err,
        Error::InvalidVerse { num: 4, title: String::from("T"), chapter: 0, verses: 2 }
    );
}

#[test]
fn chapter_beyond_count_fails_with_invalid_chapter() {
    let b = book("T", &[&["a"], &["b"]]);
    let err = query("T", &b, Some("7")).unwrap_err();
    assert_eq!(
        err,
        Error::InvalidChapter { num: 6, title: String::from("T"), chapters: 2 }
    );
    let err2 = query("T", &b, Some("1-9")).unwrap_err();
    assert_eq!(
        err2,
        Error::InvalidChapter { num: 8, title: String::from("T"), chapters: 2 }
    );
}

#[test]
fn descending_chapter_range_renders_nothing() {
    let b = book("T", &[&["a"], &["b"]]);
    let out = query("T", &b, Some("2-1")).unwrap();
    assert_eq!(out, "");
}

#[test]
fn bad_token_propagates_parse_error() {
    let b = book("T", &[&["a"]]);
    assert_eq!(
        query("T", &b, Some("zero")).unwrap_err(),
        Error::InvalidInput(String::from("zero"))
    );
    assert_eq!(
        query("T", &b, Some("1:3-3")).unwrap_err(),
        Error::InvalidVerseRange(String::from("3-3"))
    );
}

#[test]
fn long_verse_wraps_with_indent() {
    // One long verse must be wrapped at 80 columns, with continuation lines
    // indented under the text column; unwrapping restores the line.
    let words: Vec<String> = (0..30).map(|i| format!("word{}", i)).collect();
    let text = words.join(" ");
    let b = Book { title: String::from("T"), chapters: vec![vec![text.clone()]] };
    let out = query("Gen", &b, Some("1:1")).unwrap();
    let lines: Vec<&str> = out.lines().collect();
    assert!(lines.len() > 1, "a long verse must be split over lines");
    for line in &lines {
        assert!(line.chars().count() <= 80);
    }
    let indent = " ".repeat(12);
    for cont in &lines[1..] {
        assert!(cont.starts_with(&indent));
    }
    let rejoined = out
        .trim_end_matches('\n')
        .replace(&format!("\n{}", indent), " ");
    assert_eq!(rejoined, format!("[Gen 1:1]   {}", text));
}

#[test]
fn render_accepts_resolved_addresses() {
    let b = book("B", &[&["a", "b", "c"]]);
    let out = render(
        "B",
        &b,
        Some(Chapter::Single { chapter: 0, verses: Some(Verses::Range(0, 1)) }),
    )
    .unwrap();
    let lines: Vec<&str> = out.lines().collect();
    assert_eq!(lines.len(), 2);
    assert!(lines[0].starts_with("[B 1:1]"));
    assert!(lines[1].starts_with("[B 1:2]"));
}

#[test]
fn render_selection_uses_numbered_book() {
    let doc = rsb::document::Document {
        books: vec![book("Genesis", &[&["first"]]), book("Exodus", &[&["second"]])],
    };
    let sel = rsb::address::BookArg {
        num: 1,
        alias: String::from("Ex"),
        arg: rsb::address::ChapterVerseArg { help: false, chapter_verse: None },
    };
    let out = rsb::render::render_selection(&doc, &sel).unwrap();
    assert_eq!(out, "[Ex 1:1]   second\n");
}

#[test]
fn alias_num_and_chapter_accessors() {
    let arg = rsb::address::BookArg {
        num: 4,
        alias: String::from("Deut"),
        arg: rsb::address::ChapterVerseArg {
            help: false,
            chapter_verse: Some(Chapter::Single { chapter: 0, verses: None }),
        },
    };
    let (alias, num) = arg.alias_num();
    assert_eq!(alias, "Deut");
    assert_eq!(num, 4);
    assert_eq!(
        arg.chapter(),
        &Some(Chapter::Single { chapter: 0, verses: None })
    );
}
