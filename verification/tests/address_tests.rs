use rsb::address::{Chapter, Error, Verses};

#[test]
fn parse_number_decrements_to_zero_based() {
    assert_eq!(rsb::address::parse_number("5"), Ok(4));
    assert_eq!(rsb::address::parse_number("1"), Ok(0));
}

#[test]
fn parse_number_accepts_plus_sign() {
    assert_eq!(rsb::address::parse_number("+7"), Ok(6));
}

#[test]
fn parse_number_rejects_garbage() {
    assert_eq!(
        rsb::address::parse_number("abc"),
        Err(Error::InvalidInput(String::from("abc")))
    );
    assert_eq!(
        rsb::address::parse_number(""),
        Err(Error::InvalidInput(String::from("")))
    );
    assert_eq!(
        rsb::address::parse_number("1x"),
        Err(Error::InvalidInput(String::from("1x")))
    );
}

#[test]
fn parse_number_rejects_zero_with_canonical_text() {
    assert_eq!(
        rsb::address::parse_number("0"),
        Err(Error::InvalidInput(String::from("0")))
    );
    // The canonical spelling of the parsed value is reported, as the
    // original number formats itself.
    assert_eq!(
        rsb::address::parse_number("00"),
        Err(Error::InvalidInput(String::from("0")))
    );
}

#[test]
fn parse_number_rejects_overflow() {
    let big = "99999999999999999999999999";
    assert_eq!(
        rsb::address::parse_number(big),
        Err(Error::InvalidInput(String::from(big)))
    );
}

#[test]
fn verses_descending_range_fails() {
    assert_eq!(
        Verses::from_str("5-3"),
        Err(Error::InvalidVerseRange(String::from("5-3")))
    );
}

#[test]
fn verses_equal_range_fails() {
    assert_eq!(
        Verses::from_str("5-5"),
        Err(Error::InvalidVerseRange(String::from("5-5")))
    );
}

#[test]
fn verses_zero_fails_as_invalid_input() {
    assert_eq!(
        Verses::from_str("0"),
        Err(Error::InvalidInput(String::from("0")))
    );
}

#[test]
fn verses_single_and_range() {
    assert_eq!(Verses::from_str("7"), Ok(Verses::Single(6)));
    assert_eq!(Verses::from_str("3-8"), Ok(Verses::Range(2, 7)));
}

#[test]
fn chapter_single_form() {
    assert_eq!(
        Chapter::from_str("3"),
        Ok(Chapter::Single { chapter: 2, verses: None })
    );
}

#[test]
fn chapter_with_single_verse() {
    assert_eq!(
        Chapter::from_str("3:4"),
        Ok(Chapter::Single { chapter: 2, verses: Some(Verses::Single(3)) })
    );
}

#[test]
fn chapter_with_verse_range() {
    assert_eq!(
        Chapter::from_str("3:4-6"),
        Ok(Chapter::Single { chapter: 2, verses: Some(Verses::Range(3, 5)) })
    );
}

#[test]
fn chapter_range_form() {
    assert_eq!(Chapter::from_str("2-5"), Ok(Chapter::Range(1, 4)));
}

#[test]
fn chapter_range_does_not_check_order_at_parse_time() {
    assert_eq!(Chapter::from_str("5-3"), Ok(Chapter::Range(4, 2)));
}

#[test]
fn chapter_colon_takes_precedence_over_dash() {
    // "2-3:4" splits at the colon first: chapter token "2-3" is not a number.
    assert_eq!(
        Chapter::from_str("2-3:4"),
        Err(Error::InvalidInput(String::from("2-3")))
    );
}

#[test]
fn error_messages() {
    let e = Error::InvalidChapter { num: 6, title: String::from("T"), chapters: 2 };
    assert_eq!(e.message(), "Invalid chapter 7 of book T (2 chapters).");
    let e = Error::InvalidVerse { num: 49, title: String::from("T"), chapter: 0, verses: 40 };
    assert_eq!(e.message(), "Invalid verse 50 of book T, chapter 1 (40 verses).");
    let e = Error::InvalidInput(String::from("x"));
    assert_eq!(e.message(), "Chapter or verse provided is not valid: x");
    let e = Error::InvalidVerseRange(String::from("5-3"));
    assert_eq!(e.message(), "Invalid verse range: 5-3");
    assert_eq!(Error::Fmt.message(), "Formatting error");
}

#[test]
fn chapter_bad_verse_part_propagates() {
    assert_eq!(
        Chapter::from_str("2:x"),
        Err(Error::InvalidInput(String::from("x")))
    );
    assert_eq!(
        Chapter::from_str("2:9-4"),
        Err(Error::InvalidVerseRange(String::from("9-4")))
    );
}
