//! The renderer: walks a resolved address against a book and produces
//! word-wrapped, verse-tagged text, or a validation error. Each verse yields
//! the line `[<alias> <chapter>:<verse>] <text>` (numbers one-based, the tag
//! padded to the alias width), wrapped at 80 columns with continuation lines
//! indented under the text column, and a final newline.

use vstd::prelude::*;

use crate::address::{
    chapter_from_str_spec, parse_number_spec, verses_from_str_spec, Chapter, Error, SpecError,
    Verses,
};
use crate::document::Book;
use crate::text::{
    dec_of, dec_string, is_digit_char, is_number_token, lemma_dec_of_round_trip,
    lemma_find_char_none, lemma_find_char_some, num_body, number_value, space_string, spaces,
};

verus! {

/// The column width at which verse lines are wrapped.
pub const WRAP_WIDTH: usize = 80;

/// What `textwrap::fill` returns for `s` at `width` columns with
/// `indent` before every continuation line.
pub uninterp spec fn wrap_of(s: Seq<char>, width: int, indent: Seq<char>) -> Seq<char>;

/// Relies on textwrap::fill (with textwrap::Options::new(width)
/// .subsequent_indent(indent)): fills a line of text at the given width; the
/// result is a function of the text, the width and the indent alone.
#[verifier::external_body]
fn fill_wrapped(s: &str, width: usize, indent: &str) -> (r: String)
    ensures
        r@ == wrap_of(s@, width as int, indent@),
{
    let opts = textwrap::Options::new(width).subsequent_indent(indent);
    textwrap::fill(s, opts)
}

/// The verse tag, `[<alias> <chapter>:<verse>]`, with one-based numbers.
pub open spec fn tag_of(alias: Seq<char>, c: int, v: int) -> Seq<char> {
    seq!['['] + alias + seq![' '] + dec_of((c + 1) as nat) + seq![':'] + dec_of((v + 1) as nat)
        + seq![']']
}

/// The unwrapped verse line: the tag left-padded to the alias width plus
/// eight columns, a space, and the verse text.
pub open spec fn line_of(alias: Seq<char>, c: int, v: int, text: Seq<char>) -> Seq<char> {
    let tag = tag_of(alias, c, v);
    let w = alias.len() + 8;
    (if tag.len() < w {
        tag + spaces((w - tag.len()) as nat)
    } else {
        tag
    }) + seq![' '] + text
}

/// The indent under which continuation lines align: alias width plus nine.
pub open spec fn indent_of(alias: Seq<char>) -> Seq<char> {
    spaces(alias.len() + 9)
}

/// One rendered verse: its line wrapped at the fixed width, plus a newline.
pub open spec fn block_of(alias: Seq<char>, c: int, v: int, text: Seq<char>) -> Seq<char> {
    wrap_of(line_of(alias, c, v, text), WRAP_WIDTH as int, indent_of(alias)) + seq!['\n']
}

/// The rendered blocks of verses `lo..hi` (zero-based, `hi` exclusive) of
/// chapter `c`, in ascending verse order.
pub open spec fn verses_blocks(
    alias: Seq<char>,
    c: int,
    verses: Seq<Seq<char>>,
    lo: int,
    hi: int,
) -> Seq<char>
    decreases hi - lo,
{
    if lo >= hi {
        Seq::empty()
    } else {
        block_of(alias, c, lo, verses[lo]) + verses_blocks(alias, c, verses, lo + 1, hi)
    }
}

/// The rendered blocks of whole chapters `lo..hi` (zero-based, `hi`
/// exclusive), in ascending chapter order.
pub open spec fn chapters_blocks(
    alias: Seq<char>,
    chapters: Seq<Seq<Seq<char>>>,
    lo: int,
    hi: int,
) -> Seq<char>
    decreases hi - lo,
{
    if lo >= hi {
        Seq::empty()
    } else {
        verses_blocks(alias, lo, chapters[lo], 0, chapters[lo].len() as int) + chapters_blocks(
            alias,
            chapters,
            lo + 1,
            hi,
        )
    }
}

pub proof fn lemma_verses_blocks_snoc(
    alias: Seq<char>,
    c: int,
    verses: Seq<Seq<char>>,
    lo: int,
    hi: int,
)
    requires
        lo <= hi,
    ensures
        verses_blocks(alias, c, verses, lo, hi + 1) == verses_blocks(alias, c, verses, lo, hi)
            + block_of(alias, c, hi, verses[hi]),
    decreases hi - lo,
{
    let b = block_of(alias, c, hi, verses[hi]);
    if lo < hi {
        lemma_verses_blocks_snoc(alias, c, verses, lo + 1, hi);
        assert(verses_blocks(alias, c, verses, lo, hi + 1) == block_of(alias, c, lo, verses[lo])
            + verses_blocks(alias, c, verses, lo + 1, hi + 1));
        assert(verses_blocks(alias, c, verses, lo, hi) == block_of(alias, c, lo, verses[lo])
            + verses_blocks(alias, c, verses, lo + 1, hi));
        assert(verses_blocks(alias, c, verses, lo, hi + 1) =~= verses_blocks(
            alias,
            c,
            verses,
            lo,
            hi,
        ) + b);
    } else {
        assert(verses_blocks(alias, c, verses, hi + 1, hi + 1) == Seq::<char>::empty());
        assert(verses_blocks(alias, c, verses, lo, hi) == Seq::<char>::empty());
        assert(verses_blocks(alias, c, verses, lo, hi + 1) == b + verses_blocks(
            alias,
            c,
            verses,
            hi + 1,
            hi + 1,
        ));
        assert(verses_blocks(alias, c, verses, lo, hi + 1) =~= verses_blocks(
            alias,
            c,
            verses,
            lo,
            hi,
        ) + b);
    }
}

pub proof fn lemma_chapters_blocks_snoc(
    alias: Seq<char>,
    chapters: Seq<Seq<Seq<char>>>,
    lo: int,
    hi: int,
)
    requires
        lo <= hi,
    ensures
        chapters_blocks(alias, chapters, lo, hi + 1) == chapters_blocks(alias, chapters, lo, hi)
            + verses_blocks(alias, hi, chapters[hi], 0, chapters[hi].len() as int),
    decreases hi - lo,
{
    let b = verses_blocks(alias, hi, chapters[hi], 0, chapters[hi].len() as int);
    let first = verses_blocks(alias, lo, chapters[lo], 0, chapters[lo].len() as int);
    if lo < hi {
        lemma_chapters_blocks_snoc(alias, chapters, lo + 1, hi);
        assert(chapters_blocks(alias, chapters, lo, hi + 1) == first + chapters_blocks(
            alias,
            chapters,
            lo + 1,
            hi + 1,
        ));
        assert(chapters_blocks(alias, chapters, lo, hi) == first + chapters_blocks(
            alias,
            chapters,
            lo + 1,
            hi,
        ));
        assert(chapters_blocks(alias, chapters, lo, hi + 1) =~= chapters_blocks(
            alias,
            chapters,
            lo,
            hi,
        ) + b);
    } else {
        assert(chapters_blocks(alias, chapters, hi + 1, hi + 1) == Seq::<char>::empty());
        assert(chapters_blocks(alias, chapters, lo, hi) == Seq::<char>::empty());
        assert(chapters_blocks(alias, chapters, lo, hi + 1) == b + chapters_blocks(
            alias,
            chapters,
            hi + 1,
            hi + 1,
        ));
        assert(chapters_blocks(alias, chapters, lo, hi + 1) =~= chapters_blocks(
            alias,
            chapters,
            lo,
            hi,
        ) + b);
    }
}

/// What rendering returns for a resolved address against a book's chapters:
/// the blocks of exactly the addressed verses in ascending order, or the
/// validation error for the out-of-bounds index it references — the range
/// end, or the single referenced index. Every referenced chapter index is
/// validated uniformly; an empty (descending) range renders nothing.
pub open spec fn render_spec(
    alias: Seq<char>,
    title: Seq<char>,
    chapters: Seq<Seq<Seq<char>>>,
    addr: Option<Chapter>,
) -> Result<Seq<char>, SpecError> {
    let n = chapters.len() as int;
    match addr {
        None => Ok(chapters_blocks(alias, chapters, 0, n)),
        Some(Chapter::Single { chapter, verses }) => {
            if chapter as int >= n {
                Err(SpecError::InvalidChapter { num: chapter as int, title, chapters: n })
            } else {
                let vs = chapters[chapter as int];
                match verses {
                    None => Ok(verses_blocks(alias, chapter as int, vs, 0, vs.len() as int)),
                    Some(Verses::Single(v)) => {
                        if v as int >= vs.len() {
                            Err(
                                SpecError::InvalidVerse {
                                    num: v as int,
                                    title,
                                    chapter: chapter as int,
                                    verses: vs.len() as int,
                                },
                            )
                        } else {
                            Ok(block_of(alias, chapter as int, v as int, vs[v as int]))
                        }
                    },
                    Some(Verses::Range(l, h)) => {
                        if l > h {
                            Ok(Seq::empty())
                        } else if h as int >= vs.len() {
                            Err(
                                SpecError::InvalidVerse {
                                    num: h as int,
                                    title,
                                    chapter: chapter as int,
                                    verses: vs.len() as int,
                                },
                            )
                        } else {
                            Ok(verses_blocks(alias, chapter as int, vs, l as int, h as int + 1))
                        }
                    },
                }
            }
        },
        Some(Chapter::Range(l, h)) => {
            if l > h {
                Ok(Seq::empty())
            } else if h as int >= n {
                Err(SpecError::InvalidChapter { num: h as int, title, chapters: n })
            } else {
                Ok(chapters_blocks(alias, chapters, l as int, h as int + 1))
            }
        },
    }
}

/// An executable rendering result agrees with its specification-level
/// counterpart.
pub open spec fn string_result_matches(
    r: Result<String, Error>,
    s: Result<Seq<char>, SpecError>,
) -> bool {
    match r {
        Ok(t) => s is Ok && t@ == s->Ok_0,
        Err(e) => s is Err && e@ == s->Err_0,
    }
}

/// Append one rendered verse block to `out`.
fn push_block(out: &mut String, alias: &str, c: usize, v: usize, text: &str)
    requires
        alias@.len() + 9 <= usize::MAX,
        c < usize::MAX,
        v < usize::MAX,
    ensures
        final(out)@ == old(out)@ + block_of(alias@, c as int, v as int, text@),
{
    let mut tag = String::from_str("[");
    tag.append(alias);
    tag.append(" ");
    let cs = dec_string(c + 1);
    tag.append(cs.as_str());
    tag.append(":");
    let vs = dec_string(v + 1);
    tag.append(vs.as_str());
    tag.append("]");
    proof {
        reveal_strlit("[");
        reveal_strlit(" ");
        reveal_strlit(":");
        reveal_strlit("]");
        assert(tag@ =~= tag_of(alias@, c as int, v as int));
    }
    let alias_len = alias.unicode_len();
    let w = alias_len + 8;
    let tag_len = tag.as_str().unicode_len();
    if tag_len < w {
        let pad = space_string(w - tag_len);
        tag.append(pad.as_str());
    }
    tag.append(" ");
    tag.append(text);
    proof {
        reveal_strlit(" ");
        assert(tag@ =~= line_of(alias@, c as int, v as int, text@));
    }
    let indent = space_string(alias_len + 9);
    let wrapped = fill_wrapped(tag.as_str(), WRAP_WIDTH, indent.as_str());
    out.append(wrapped.as_str());
    out.append("\n");
    proof {
        reveal_strlit("\n");
        assert(out@ =~= old(out)@ + block_of(alias@, c as int, v as int, text@));
    }
}

/// Render the verses `lo..hi` (exclusive) of chapter `c`, in order.
fn render_verses(alias: &str, c: usize, verses: &Vec<String>, lo: usize, hi: usize) -> (r: String)
    requires
        alias@.len() + 9 <= usize::MAX,
        c < usize::MAX,
        lo <= hi,
        hi <= verses.deep_view().len(),
    ensures
        r@ == verses_blocks(alias@, c as int, verses.deep_view(), lo as int, hi as int),
{
    let mut out = String::new();
    let mut v = lo;
    while v < hi
        invariant
            alias@.len() + 9 <= usize::MAX,
            c < usize::MAX,
            lo <= v <= hi,
            hi <= verses.deep_view().len(),
            verses.deep_view().len() == verses@.len(),
            out@ == verses_blocks(alias@, c as int, verses.deep_view(), lo as int, v as int),
        decreases hi - v,
    {
        push_block(&mut out, alias, c, v, verses[v].as_str());
        proof {
            assert(verses.deep_view()[v as int] == verses@[v as int]@);
            lemma_verses_blocks_snoc(alias@, c as int, verses.deep_view(), lo as int, v as int);
        }
        v += 1;
    }
    out
}

/// Render the whole chapters `lo..hi` (exclusive) of a book, in order.
fn render_chapters(alias: &str, book: &Book, lo: usize, hi: usize) -> (r: String)
    requires
        alias@.len() + 9 <= usize::MAX,
        lo <= hi,
        hi <= book.spec_chapters().len(),
    ensures
        r@ == chapters_blocks(alias@, book.spec_chapters(), lo as int, hi as int),
{
    let mut out = String::new();
    let mut c = lo;
    while c < hi
        invariant
            alias@.len() + 9 <= usize::MAX,
            lo <= c <= hi,
            hi <= book.spec_chapters().len(),
            book.spec_chapters().len() == book.chapters@.len(),
            out@ == chapters_blocks(alias@, book.spec_chapters(), lo as int, c as int),
        decreases hi - c,
    {
        let vs = &book.chapters[c];
        proof {
            assert(vs.deep_view() == book.spec_chapters()[c as int]);
        }
        let part = render_verses(alias, c, vs, 0, vs.len());
        out.append(part.as_str());
        proof {
            lemma_chapters_blocks_snoc(alias@, book.spec_chapters(), lo as int, c as int);
        }
        c += 1;
    }
    out
}

/// Render a resolved address against one book. Bounds are validated here,
/// for exactly the indices the address references.
pub fn render(alias: &str, book: &Book, addr: Option<Chapter>) -> (r: Result<String, Error>)
    requires
        alias@.len() + 9 <= usize::MAX,
    ensures
        string_result_matches(r, render_spec(alias@, book.title@, book.spec_chapters(), addr)),
{
    let nch = book.chapter_count();
    match addr {
        None => Ok(render_chapters(alias, book, 0, nch)),
        Some(Chapter::Single { chapter, verses }) => {
            if chapter >= nch {
                return Err(
                    Error::InvalidChapter {
                        num: chapter,
                        title: book.title.clone(),
                        chapters: nch,
                    },
                );
            }
            let vs = &book.chapters[chapter];
            proof {
                assert(vs.deep_view() == book.spec_chapters()[chapter as int]);
            }
            match verses {
                None => Ok(render_verses(alias, chapter, vs, 0, vs.len())),
                Some(Verses::Single(v)) => {
                    if v >= vs.len() {
                        Err(
                            Error::InvalidVerse {
                                num: v,
                                title: book.title.clone(),
                                chapter,
                                verses: vs.len(),
                            },
                        )
                    } else {
                        let out = render_verses(alias, chapter, vs, v, v + 1);
                        proof {
                            lemma_verses_blocks_snoc(
                                alias@,
                                chapter as int,
                                vs.deep_view(),
                                v as int,
                                v as int,
                            );
                            assert(verses_blocks(
                                alias@,
                                chapter as int,
                                vs.deep_view(),
                                v as int,
                                v as int,
                            ) =~= Seq::<char>::empty());
                            assert(out@ =~= block_of(
                                alias@,
                                chapter as int,
                                v as int,
                                vs.deep_view()[v as int],
                            ));
                        }
                        Ok(out)
                    }
                },
                Some(Verses::Range(l, h)) => {
                    if l > h {
                        Ok(String::new())
                    } else if h >= vs.len() {
                        Err(
                            Error::InvalidVerse {
                                num: h,
                                title: book.title.clone(),
                                chapter,
                                verses: vs.len(),
                            },
                        )
                    } else {
                        Ok(render_verses(alias, chapter, vs, l, h + 1))
                    }
                },
            }
        },
        Some(Chapter::Range(l, h)) => {
            if l > h {
                Ok(String::new())
            } else if h >= nch {
                Err(Error::InvalidChapter { num: h, title: book.title.clone(), chapters: nch })
            } else {
                Ok(render_chapters(alias, book, l, h + 1))
            }
        },
    }
}

/// Render a command-line book selection against the document: the book the
/// selection numbers, under its alias label, at its optional address.
pub fn render_selection(doc: &crate::document::Document, sel: &crate::address::BookArg) -> (r:
    Result<String, Error>)
    requires
        sel.num < doc.books@.len(),
        sel.alias@.len() + 9 <= usize::MAX,
    ensures
        string_result_matches(
            r,
            render_spec(
                sel.alias@,
                doc.books@[sel.num as int].title@,
                doc.books@[sel.num as int].spec_chapters(),
                sel.arg.chapter_verse,
            ),
        ),
{
    let (alias, num) = sel.alias_num();
    let addr = *sel.chapter();
    render(alias, doc.book(num), addr)
}

/// What a full query returns: the token (if any) resolved by the address
/// grammar, then rendered against the book.
pub open spec fn query_spec(
    alias: Seq<char>,
    title: Seq<char>,
    chapters: Seq<Seq<Seq<char>>>,
    token: Option<Seq<char>>,
) -> Result<Seq<char>, SpecError> {
    match token {
        None => render_spec(alias, title, chapters, None),
        Some(t) => match chapter_from_str_spec(t) {
            Err(e) => Err(e),
            Ok(a) => render_spec(alias, title, chapters, Some(a)),
        },
    }
}

/// Resolve an optional address token against a book and render it: the query
/// interface handed to the command-line collaborator.
pub fn query(alias: &str, book: &Book, token: Option<&str>) -> (r: Result<String, Error>)
    requires
        alias@.len() + 9 <= usize::MAX,
    ensures
        string_result_matches(
            r,
            query_spec(
                alias@,
                book.title@,
                book.spec_chapters(),
                match token {
                    None => None,
                    Some(t) => Some(t@),
                },
            ),
        ),
{
    match token {
        None => render(alias, book, None),
        Some(t) => match Chapter::from_str(t) {
            Err(e) => Err(e),
            Ok(a) => render(alias, book, Some(a)),
        },
    }
}

/// One block per verse of `lo..hi` (exclusive) of chapter `c`, in ascending
/// verse order.
pub open spec fn verse_blocks_list(
    alias: Seq<char>,
    c: int,
    vs: Seq<Seq<char>>,
    lo: int,
    hi: int,
) -> Seq<Seq<char>> {
    Seq::new((hi - lo) as nat, |k: int| block_of(alias, c, lo + k, vs[lo + k]))
}

/// Rendering verses `lo..hi` concatenates their individual blocks, one per
/// verse.
pub proof fn lemma_verses_blocks_is_flatten(
    alias: Seq<char>,
    c: int,
    vs: Seq<Seq<char>>,
    lo: int,
    hi: int,
)
    requires
        0 <= lo <= hi,
    ensures
        verses_blocks(alias, c, vs, lo, hi) == verse_blocks_list(alias, c, vs, lo, hi).flatten(),
    decreases hi - lo,
{
    let bl = verse_blocks_list(alias, c, vs, lo, hi);
    if lo == hi {
        assert(bl.len() == 0);
        assert(verses_blocks(alias, c, vs, lo, hi) =~= bl.flatten());
    } else {
        lemma_verses_blocks_is_flatten(alias, c, vs, lo + 1, hi);
        assert(bl.first() == block_of(alias, c, lo, vs[lo]));
        assert(bl.drop_first() =~= verse_blocks_list(alias, c, vs, lo + 1, hi));
        assert(bl.flatten() == bl.first() + bl.drop_first().flatten());
        assert(verses_blocks(alias, c, vs, lo, hi) == block_of(alias, c, lo, vs[lo])
            + verses_blocks(alias, c, vs, lo + 1, hi));
    }
}

/// For a verse range `low < high` within bounds, rendering yields exactly
/// `high - low + 1` blocks, one per verse of `low..=high`, in ascending
/// verse order.
pub proof fn lemma_verse_range_law(
    alias: Seq<char>,
    title: Seq<char>,
    chapters: Seq<Seq<Seq<char>>>,
    c: usize,
    l: usize,
    h: usize,
)
    requires
        (c as int) < chapters.len(),
        l < h,
        (h as int) < chapters[c as int].len(),
    ensures
        ({
            let vs = chapters[c as int];
            let bl = verse_blocks_list(alias, c as int, vs, l as int, h as int + 1);
            &&& bl.len() == h - l + 1
            &&& (forall|k: int|
                0 <= k <= h - l ==> #[trigger] bl[k] == block_of(alias, c as int, l + k, vs[l + k]))
            &&& render_spec(
                alias,
                title,
                chapters,
                Some(Chapter::Single { chapter: c, verses: Some(Verses::Range(l, h)) }),
            ) == Ok::<Seq<char>, SpecError>(bl.flatten())
        }),
{
    lemma_verses_blocks_is_flatten(alias, c as int, chapters[c as int], l as int, h as int + 1);
}

/// The blocks of every verse of chapters `c..`, chapter by chapter, in
/// ascending order.
pub open spec fn book_blocks_from(
    alias: Seq<char>,
    chapters: Seq<Seq<Seq<char>>>,
    c: int,
) -> Seq<Seq<char>>
    decreases chapters.len() - c,
{
    if c < 0 || c >= chapters.len() {
        Seq::empty()
    } else {
        verse_blocks_list(alias, c, chapters[c], 0, chapters[c].len() as int) + book_blocks_from(
            alias,
            chapters,
            c + 1,
        )
    }
}

/// The number of verses in chapters `c..`.
pub open spec fn total_verses_from(chapters: Seq<Seq<Seq<char>>>, c: int) -> int
    decreases chapters.len() - c,
{
    if c < 0 || c >= chapters.len() {
        0
    } else {
        chapters[c].len() + total_verses_from(chapters, c + 1)
    }
}

/// The number of verses in a book: the sum of all its chapter lengths.
pub open spec fn total_verses(chapters: Seq<Seq<Seq<char>>>) -> int {
    total_verses_from(chapters, 0)
}

proof fn lemma_book_blocks_from(alias: Seq<char>, chapters: Seq<Seq<Seq<char>>>, c: int)
    requires
        0 <= c <= chapters.len(),
    ensures
        chapters_blocks(alias, chapters, c, chapters.len() as int) == book_blocks_from(
            alias,
            chapters,
            c,
        ).flatten(),
        book_blocks_from(alias, chapters, c).len() == total_verses_from(chapters, c),
    decreases chapters.len() - c,
{
    let n = chapters.len() as int;
    if c == n {
        assert(chapters_blocks(alias, chapters, c, n) =~= book_blocks_from(
            alias,
            chapters,
            c,
        ).flatten());
    } else {
        lemma_book_blocks_from(alias, chapters, c + 1);
        let first = verse_blocks_list(alias, c, chapters[c], 0, chapters[c].len() as int);
        lemma_verses_blocks_is_flatten(alias, c, chapters[c], 0, chapters[c].len() as int);
        vstd::seq_lib::lemma_flatten_concat(first, book_blocks_from(alias, chapters, c + 1));
        assert(chapters_blocks(alias, chapters, c, n) == verses_blocks(
            alias,
            c,
            chapters[c],
            0,
            chapters[c].len() as int,
        ) + chapters_blocks(alias, chapters, c + 1, n));
    }
}

/// With no chapter specified, rendering a book yields every chapter's every
/// verse, chapter by chapter in ascending order: one block per verse, their
/// count the sum of all chapter lengths.
pub proof fn lemma_whole_book_law(alias: Seq<char>, title: Seq<char>, chapters: Seq<Seq<Seq<char>>>)
    ensures
        ({
            let bl = book_blocks_from(alias, chapters, 0);
            &&& bl.len() == total_verses(chapters)
            &&& render_spec(alias, title, chapters, None) == Ok::<Seq<char>, SpecError>(
                bl.flatten(),
            )
        }),
{
    lemma_book_blocks_from(alias, chapters, 0);
}

/// Resolving the token `"<c>:<v>"` (both numbers one-based, in canonical
/// decimal) against a book whose bounds admit them, then rendering, yields
/// exactly the one block of that verse, built from the source verse text.
pub proof fn lemma_resolve_render_verse(
    alias: Seq<char>,
    title: Seq<char>,
    chapters: Seq<Seq<Seq<char>>>,
    c: int,
    v: int,
)
    requires
        1 <= c <= chapters.len(),
        1 <= v <= chapters[c - 1].len(),
        chapters.len() <= usize::MAX,
        chapters[c - 1].len() <= usize::MAX,
    ensures
        query_spec(alias, title, chapters, Some(dec_of(c as nat) + seq![':'] + dec_of(v as nat)))
            == Ok::<Seq<char>, SpecError>(block_of(alias, c - 1, v - 1, chapters[c - 1][v - 1])),
{
    let cs = dec_of(c as nat);
    let vs = dec_of(v as nat);
    let token = cs + seq![':'] + vs;
    lemma_dec_of_round_trip(c as nat);
    lemma_dec_of_round_trip(v as nat);
    let i = cs.len() as int;
    assert(token[i] == ':');
    assert forall|k: int| 0 <= k < i implies token[k] != ':' by {
        assert(is_digit_char(cs[k]));
        assert(token[k] == cs[k]);
    }
    lemma_find_char_some(token, ':', i);
    assert(token.subrange(0, i) =~= cs);
    assert(token.subrange(i + 1, token.len() as int) =~= vs);
    // The chapter token reads back as the number c.
    assert(num_body(cs) == cs) by {
        assert(is_digit_char(cs[0]));
    }
    assert(is_number_token(cs) && number_value(cs) == c);
    assert(parse_number_spec(cs) == Ok::<usize, SpecError>((c - 1) as usize));
    // The verse token holds no dash, so it is a single verse.
    assert forall|k: int| 0 <= k < vs.len() implies vs[k] != '-' by {
        assert(is_digit_char(vs[k]));
    }
    lemma_find_char_none(vs, '-');
    assert(num_body(vs) == vs) by {
        assert(is_digit_char(vs[0]));
    }
    assert(is_number_token(vs) && number_value(vs) == v);
    assert(parse_number_spec(vs) == Ok::<usize, SpecError>((v - 1) as usize));
    assert(verses_from_str_spec(vs) == Ok::<Verses, SpecError>(Verses::Single((v - 1) as usize)));
    let addr = Chapter::Single {
        chapter: (c - 1) as usize,
        verses: Some(Verses::Single((v - 1) as usize)),
    };
    assert(chapter_from_str_spec(token) == Ok::<Chapter, SpecError>(addr));
    assert(render_spec(alias, title, chapters, Some(addr)) == Ok::<Seq<char>, SpecError>(
        block_of(alias, c - 1, v - 1, chapters[c - 1][v - 1]),
    ));
}

} // verus!
