//! The address resolver: parses a free-form address token
//! (`chapter[:verse[-verse]]` or `chapter-chapter`) into a structured
//! address. Every human-facing number is one-based and is decremented to a
//! zero-based index; validation against a real book happens at render time.

use vstd::prelude::*;

use crate::text::{
    digits_val, find_char, is_digit_char, is_number_token, lemma_digits_val_prefix_le,
    lemma_find_char_props, num_body, number_value,
};

verus! {

/// A verse selection inside one chapter: one verse or an inclusive range,
/// both zero-based.
#[derive(Debug, Clone, Copy, PartialEq, Eq)]
pub enum Verses {
    Single(usize),
    Range(usize, usize),
}

/// A chapter selection inside one book: one chapter (with an optional verse
/// selection) or an inclusive range of chapters, all zero-based.
#[derive(Debug, Clone, Copy, PartialEq, Eq)]
pub enum Chapter {
    Single { chapter: usize, verses: Option<Verses> },
    Range(usize, usize),
}

/// A query-level failure, carried to the caller and never across a panic.
#[derive(Debug, PartialEq, Eq)]
pub enum Error {
    /// The requested chapter (zero-based) exceeds the book's chapter count.
    InvalidChapter { num: usize, title: String, chapters: usize },
    /// The requested verse (zero-based) exceeds the chapter's verse count.
    InvalidVerse { num: usize, title: String, chapter: usize, verses: usize },
    /// A chapter or verse token failed numeric parsing or was zero.
    InvalidInput(String),
    /// A verse range whose bounds do not strictly increase.
    InvalidVerseRange(String),
    /// An internal text-formatting failure; defensive, never produced here.
    Fmt,
}

/// The mathematical shape of an [`Error`], with text as character sequences.
pub enum SpecError {
    InvalidChapter { num: int, title: Seq<char>, chapters: int },
    InvalidVerse { num: int, title: Seq<char>, chapter: int, verses: int },
    InvalidInput(Seq<char>),
    InvalidVerseRange(Seq<char>),
    Fmt,
}

impl View for Error {
    type V = SpecError;

    open spec fn view(&self) -> SpecError {
        match self {
            Error::InvalidChapter { num, title, chapters } => SpecError::InvalidChapter {
                num: *num as int,
                title: title@,
                chapters: *chapters as int,
            },
            Error::InvalidVerse { num, title, chapter, verses } => SpecError::InvalidVerse {
                num: *num as int,
                title: title@,
                chapter: *chapter as int,
                verses: *verses as int,
            },
            Error::InvalidInput(t) => SpecError::InvalidInput(t@),
            Error::InvalidVerseRange(t) => SpecError::InvalidVerseRange(t@),
            Error::Fmt => SpecError::Fmt,
        }
    }
}

/// The display message of each error kind. The stored indices are
/// zero-based; every number a user sees — the chapter, and the requested
/// verse — is reported one-based.
pub open spec fn message_of(e: SpecError) -> Seq<char> {
    match e {
        SpecError::InvalidChapter { num, title, chapters } => "Invalid chapter "@ + crate::text::dec_of(
            (num + 1) as nat,
        ) + " of book "@ + title + " ("@ + crate::text::dec_of(chapters as nat) + " chapters)."@,
        SpecError::InvalidVerse { num, title, chapter, verses } => "Invalid verse "@
            + crate::text::dec_of((num + 1) as nat) + " of book "@ + title + ", chapter "@
            + crate::text::dec_of((chapter + 1) as nat) + " ("@ + crate::text::dec_of(
            verses as nat,
        ) + " verses)."@,
        SpecError::InvalidInput(t) => "Chapter or verse provided is not valid: "@ + t,
        SpecError::InvalidVerseRange(t) => "Invalid verse range: "@ + t,
        SpecError::Fmt => "Formatting error"@,
    }
}

impl Error {
    /// The human-readable message of this error.
    pub fn message(&self) -> (r: String)
        requires
            self matches Error::InvalidChapter { num, .. } ==> num < usize::MAX,
            self matches Error::InvalidVerse { num, .. } ==> num < usize::MAX,
            self matches Error::InvalidVerse { chapter, .. } ==> chapter < usize::MAX,
        ensures
            r@ == message_of(self@),
    {
        match self {
            Error::InvalidChapter { num, title, chapters } => {
                let mut s = String::from_str("Invalid chapter ");
                let n1 = crate::text::dec_string(*num + 1);
                s.append(n1.as_str());
                s.append(" of book ");
                s.append(title.as_str());
                s.append(" (");
                let n2 = crate::text::dec_string(*chapters);
                s.append(n2.as_str());
                s.append(" chapters).");
                s
            },
            Error::InvalidVerse { num, title, chapter, verses } => {
                let mut s = String::from_str("Invalid verse ");
                let n1 = crate::text::dec_string(*num + 1);
                s.append(n1.as_str());
                s.append(" of book ");
                s.append(title.as_str());
                s.append(", chapter ");
                let n2 = crate::text::dec_string(*chapter + 1);
                s.append(n2.as_str());
                s.append(" (");
                let n3 = crate::text::dec_string(*verses);
                s.append(n3.as_str());
                s.append(" verses).");
                s
            },
            Error::InvalidInput(t) => {
                let mut s = String::from_str("Chapter or verse provided is not valid: ");
                s.append(t.as_str());
                s
            },
            Error::InvalidVerseRange(t) => {
                let mut s = String::from_str("Invalid verse range: ");
                s.append(t.as_str());
                s
            },
            Error::Fmt => String::from_str("Formatting error"),
        }
    }
}

/// What `parse_number` returns: the token's value decremented to zero-based,
/// or `InvalidInput` carrying the offending text (the canonical `"0"` for a
/// zero, as the original number formats itself).
pub open spec fn parse_number_spec(s: Seq<char>) -> Result<usize, SpecError> {
    if !is_number_token(s) {
        Err(SpecError::InvalidInput(s))
    } else if number_value(s) == 0 {
        Err(SpecError::InvalidInput(seq!['0']))
    } else if number_value(s) > usize::MAX {
        Err(SpecError::InvalidInput(s))
    } else {
        Ok((number_value(s) - 1) as usize)
    }
}

/// Split at the first occurrence of `c`, which is dropped.
pub open spec fn split_once_spec(s: Seq<char>, c: char) -> Option<(Seq<char>, Seq<char>)> {
    match find_char(s, c) {
        None => None,
        Some(i) => Some((s.subrange(0, i), s.subrange(i + 1, s.len() as int))),
    }
}

/// What `Verses::from_str` returns. A token with `-` must be a strictly
/// increasing range; any failure inside it is reported as an invalid range.
pub open spec fn verses_from_str_spec(s: Seq<char>) -> Result<Verses, SpecError> {
    match split_once_spec(s, '-') {
        Some((lo, hi)) => {
            if parse_number_spec(lo) is Ok && parse_number_spec(hi) is Ok && parse_number_spec(
                lo,
            )->Ok_0 < parse_number_spec(hi)->Ok_0 {
                Ok(Verses::Range(parse_number_spec(lo)->Ok_0, parse_number_spec(hi)->Ok_0))
            } else {
                Err(SpecError::InvalidVerseRange(s))
            }
        },
        None => match parse_number_spec(s) {
            Ok(n) => Ok(Verses::Single(n)),
            Err(e) => Err(e),
        },
    }
}

/// What `Chapter::from_str` returns: `:` takes precedence, else `-` makes a
/// chapter range, else the token is a single chapter number.
pub open spec fn chapter_from_str_spec(s: Seq<char>) -> Result<Chapter, SpecError> {
    match split_once_spec(s, ':') {
        Some((ch, rest)) => match parse_number_spec(ch) {
            Err(e) => Err(e),
            Ok(c) => match verses_from_str_spec(rest) {
                Err(e) => Err(e),
                Ok(v) => Ok(Chapter::Single { chapter: c, verses: Some(v) }),
            },
        },
        None => match split_once_spec(s, '-') {
            Some((lo, hi)) => match parse_number_spec(lo) {
                Err(e) => Err(e),
                Ok(l) => match parse_number_spec(hi) {
                    Err(e) => Err(e),
                    Ok(h) => Ok(Chapter::Range(l, h)),
                },
            },
            None => match parse_number_spec(s) {
                Ok(c) => Ok(Chapter::Single { chapter: c, verses: None }),
                Err(e) => Err(e),
            },
        },
    }
}

/// An executable result agrees with its specification-level counterpart.
pub open spec fn num_result_matches(r: Result<usize, Error>, s: Result<usize, SpecError>) -> bool {
    match r {
        Ok(a) => s is Ok && a == s->Ok_0,
        Err(e) => s is Err && e@ == s->Err_0,
    }
}

pub open spec fn verses_result_matches(r: Result<Verses, Error>, s: Result<Verses, SpecError>) -> bool {
    match r {
        Ok(a) => s is Ok && a == s->Ok_0,
        Err(e) => s is Err && e@ == s->Err_0,
    }
}

pub open spec fn chapter_result_matches(r: Result<Chapter, Error>, s: Result<Chapter, SpecError>) -> bool {
    match r {
        Ok(a) => s is Ok && a == s->Ok_0,
        Err(e) => s is Err && e@ == s->Err_0,
    }
}

/// Parse a one-based number token and decrement it to a zero-based index.
pub fn parse_number(input: &str) -> (r: Result<usize, Error>)
    ensures
        num_result_matches(r, parse_number_spec(input@)),
{
    let n = input.unicode_len();
    let start: usize = if n > 0 && input.get_char(0) == '+' {
        1
    } else {
        0
    };
    let ghost body = num_body(input@);
    proof {
        assert(body =~= input@.subrange(start as int, n as int));
    }
    if start == n {
        return Err(Error::InvalidInput(String::from_str(input)));
    }
    let mut acc: usize = 0;
    let mut i: usize = start;
    while i < n
        invariant
            n == input@.len(),
            start <= i <= n,
            start < n,
            body == num_body(input@),
            body =~= input@.subrange(start as int, n as int),
            forall|k: int| 0 <= k < i - start ==> is_digit_char(body[k]),
            acc == digits_val(body.subrange(0, i - start)),
        decreases n - i,
    {
        let c = input.get_char(i);
        let u = c as u32;
        if !(48 <= u && u <= 57) {
            proof {
                assert(!is_digit_char(body[i - start]));
            }
            return Err(Error::InvalidInput(String::from_str(input)));
        }
        let d: usize = (u - 48) as usize;
        proof {
            assert(body.subrange(0, i - start + 1).drop_last() =~= body.subrange(0, i - start));
            assert(body.subrange(0, i - start + 1).last() == body[i - start]);
        }
        if acc > usize::MAX / 10 || (acc == usize::MAX / 10 && d > usize::MAX % 10) {
            proof {
                let full = digits_val(body.subrange(0, i - start + 1));
                assert(full == acc * 10 + d);
                assert(full > usize::MAX);
                lemma_digits_val_prefix_le(body, i - start + 1);
                if is_number_token(input@) {
                    assert(number_value(input@) > usize::MAX);
                }
            }
            return Err(Error::InvalidInput(String::from_str(input)));
        }
        acc = acc * 10 + d;
        i += 1;
    }
    proof {
        assert(body.subrange(0, n - start) =~= body);
        assert(is_number_token(input@));
    }
    if acc == 0 {
        let z = String::from_str("0");
        proof {
            reveal_strlit("0");
            assert(z@ =~= seq!['0']);
        }
        Err(Error::InvalidInput(z))
    } else {
        Ok(acc - 1)
    }
}

impl Verses {
    /// Parse a verse selection token: `v` or `low-high` with `low < high`.
    pub fn from_str(s: &str) -> (r: Result<Verses, Error>)
        ensures
            verses_result_matches(r, verses_from_str_spec(s@)),
    {
        let n = s.unicode_len();
        match crate::text::find_char_in(s, '-') {
            Some(i) => {
                proof {
                    lemma_find_char_props(s@, '-');
                }
                let lo = s.substring_char(0, i);
                let hi = s.substring_char(i + 1, n);
                let rl = parse_number(lo);
                let rh = parse_number(hi);
                match (rl, rh) {
                    (Ok(l), Ok(h)) => {
                        if l < h {
                            Ok(Verses::Range(l, h))
                        } else {
                            Err(Error::InvalidVerseRange(String::from_str(s)))
                        }
                    },
                    _ => Err(Error::InvalidVerseRange(String::from_str(s))),
                }
            },
            None => match parse_number(s) {
                Ok(v) => Ok(Verses::Single(v)),
                Err(e) => Err(e),
            },
        }
    }
}

impl Chapter {
    /// Parse an address token: `c`, `c:v`, `c:low-high`, or `low-high`.
    pub fn from_str(s: &str) -> (r: Result<Chapter, Error>)
        ensures
            chapter_result_matches(r, chapter_from_str_spec(s@)),
    {
        let n = s.unicode_len();
        match crate::text::find_char_in(s, ':') {
            Some(i) => {
                proof {
                    lemma_find_char_props(s@, ':');
                }
                let ch = s.substring_char(0, i);
                let rest = s.substring_char(i + 1, n);
                match parse_number(ch) {
                    Err(e) => Err(e),
                    Ok(c) => match Verses::from_str(rest) {
                        Err(e) => Err(e),
                        Ok(v) => Ok(Chapter::Single { chapter: c, verses: Some(v) }),
                    },
                }
            },
            None => match crate::text::find_char_in(s, '-') {
                Some(i) => {
                    proof {
                        lemma_find_char_props(s@, '-');
                    }
                    let lo = s.substring_char(0, i);
                    let hi = s.substring_char(i + 1, n);
                    match parse_number(lo) {
                        Err(e) => Err(e),
                        Ok(l) => match parse_number(hi) {
                            Err(e) => Err(e),
                            Ok(h) => Ok(Chapter::Range(l, h)),
                        },
                    }
                },
                None => match parse_number(s) {
                    Ok(c) => Ok(Chapter::Single { chapter: c, verses: None }),
                    Err(e) => Err(e),
                },
            },
        }
    }
}

/// The per-book command-line arguments: an optional chapter/verse address.
pub struct ChapterVerseArg {
    pub help: bool,
    pub chapter_verse: Option<Chapter>,
}

/// A selected book: its zero-based number, its alias label, and the
/// per-book arguments.
pub struct BookArg {
    pub num: usize,
    pub alias: String,
    pub arg: ChapterVerseArg,
}

/// The parsed command line: an optional book selection.
pub struct Args {
    pub help: bool,
    pub book: Option<BookArg>,
}

impl BookArg {
    /// The alias label and number of the selected book.
    pub fn alias_num(&self) -> (r: (&str, usize))
        ensures
            r.0@ == self.alias@,
            r.1 == self.num,
    {
        (self.alias.as_str(), self.num)
    }

    /// The optional address argument of the selected book.
    pub fn chapter(&self) -> (r: &Option<Chapter>)
        ensures
            r == &self.arg.chapter_verse,
    {
        &self.arg.chapter_verse
    }
}

} // verus!
