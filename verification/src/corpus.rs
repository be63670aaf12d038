//! The corpus parser: turns the raw line-oriented source of one book into a
//! [`Book`], reads a book's number out of its file name, and assembles the
//! numbered books into a [`Document`]. A line starting with `===` closes the
//! open chapter, a line starting with `==` sets the title, and any other line
//! containing a space is `"<number> <text>"`, of which only the text after
//! the first space is kept — position in the chapter is authoritative.

use vstd::prelude::*;

use crate::document::{Book, Document};
use crate::text::{
    find_char, is_number_token, is_space_char, lemma_digits_val_prefix_le, lemma_find_char_props,
    number_value, starts_with_eqs, trim_spec,
};

verus! {

/// The parser's running state: the title seen so far, the chapters already
/// closed by a `===` marker, and the open chapter buffer.
pub struct ScanState {
    pub title: Option<Seq<char>>,
    pub closed: Seq<Seq<Seq<char>>>,
    pub open: Seq<Seq<char>>,
}

pub open spec fn scan_init() -> ScanState {
    ScanState { title: None, closed: Seq::empty(), open: Seq::empty() }
}

/// The title text of a `==...==` line: the line with its equals signs and
/// then its surrounding white space trimmed away.
pub open spec fn title_text_of(line: Seq<char>) -> Seq<char> {
    trim_spec(trim_spec(line, |c: char| c == '='), |c: char| is_space_char(c))
}

/// The verse text of a line whose first space sits at `i`: what follows the
/// space, trimmed.
pub open spec fn verse_text_of(line: Seq<char>, i: int) -> Seq<char> {
    trim_spec(line.subrange(i + 1, line.len() as int), |c: char| is_space_char(c))
}

/// One parser step, for one source line.
pub open spec fn scan_step(st: ScanState, line: Seq<char>) -> ScanState {
    if starts_with_eqs(line, 3) {
        if st.open.len() > 0 {
            ScanState { title: st.title, closed: st.closed.push(st.open), open: Seq::empty() }
        } else {
            st
        }
    } else if starts_with_eqs(line, 2) {
        ScanState { title: Some(title_text_of(line)), closed: st.closed, open: st.open }
    } else {
        match find_char(line, ' ') {
            Some(i) => ScanState {
                title: st.title,
                closed: st.closed,
                open: st.open.push(verse_text_of(line, i)),
            },
            None => st,
        }
    }
}

/// The parser state after consuming all of `lines`, in order.
pub open spec fn scan_lines(lines: Seq<Seq<char>>) -> ScanState
    decreases lines.len(),
{
    if lines.len() == 0 {
        scan_init()
    } else {
        scan_step(scan_lines(lines.drop_last()), lines.last())
    }
}

/// What parsing one book's lines yields: at end of input the open chapter
/// buffer is always emitted as the last chapter; a book whose title was
/// never set is malformed and yields nothing.
pub open spec fn parse_book_spec(lines: Seq<Seq<char>>) -> Option<(Seq<char>, Seq<Seq<Seq<char>>>)> {
    let st = scan_lines(lines);
    match st.title {
        None => None,
        Some(t) => Some((t, st.closed.push(st.open))),
    }
}

/// The end-of-input flush: whatever state the scan of a book's lines
/// reaches, its open chapter buffer is emitted as the last chapter — a
/// trailing chapter with verse lines but no closing marker is never lost.
pub proof fn lemma_eof_flush(lines: Seq<Seq<char>>)
    requires
        parse_book_spec(lines) is Some,
    ensures
        parse_book_spec(lines)->Some_0.1.len() == scan_lines(lines).closed.len() + 1,
        parse_book_spec(lines)->Some_0.1.last() == scan_lines(lines).open,
{
}

/// Parse the source lines of one book.
pub fn parse_book(lines: &Vec<String>) -> (r: Option<Book>)
    ensures
        ({
            let sp = parse_book_spec(lines.deep_view());
            match r {
                None => sp is None,
                Some(b) => {
                    &&& sp is Some
                    &&& b.title@ == sp->Some_0.0
                    &&& b.spec_chapters() == sp->Some_0.1
                    &&& b.wf()
                },
            }
        }),
{
    let ghost all = lines.deep_view();
    let n = lines.len();
    let mut title: Option<String> = None;
    let mut closed: Vec<Vec<String>> = Vec::new();
    let mut open: Vec<String> = Vec::new();
    let mut i: usize = 0;
    proof {
        assert(all.subrange(0, 0) =~= Seq::<Seq<char>>::empty());
    }
    while i < n
        invariant
            n == lines@.len(),
            all == lines.deep_view(),
            all.len() == n,
            0 <= i <= n,
            ({
                let st = scan_lines(all.subrange(0, i as int));
                &&& match title {
                    None => st.title is None,
                    Some(t) => st.title == Some(t@),
                }
                &&& closed.deep_view() == st.closed
                &&& open.deep_view() == st.open
            }),
        decreases n - i,
    {
        let ghost st = scan_lines(all.subrange(0, i as int));
        proof {
            assert(all.subrange(0, i + 1).drop_last() =~= all.subrange(0, i as int));
            assert(all.subrange(0, i + 1).last() == all[i as int]);
            assert(all[i as int] == lines@[i as int]@);
        }
        let line = &lines[i];
        let s = line.as_str();
        if crate::text::has_eq_prefix(s, 3) {
            if open.len() > 0 {
                let ch = open;
                open = Vec::new();
                closed.push(ch);
                proof {
                    assert(closed.deep_view() =~= st.closed.push(ch.deep_view()));
                    assert(open.deep_view() =~= Seq::<Seq<char>>::empty());
                }
            }
        } else if crate::text::has_eq_prefix(s, 2) {
            let t = crate::text::trim_eq_str(s);
            let t2 = crate::text::trim_space_str(t.as_str());
            title = Some(t2);
        } else {
            match crate::text::find_char_in(s, ' ') {
                Some(idx) => {
                    let slen = s.unicode_len();
                    proof {
                        lemma_find_char_props(s@, ' ');
                    }
                    let rest = s.substring_char(idx + 1, slen);
                    let text = crate::text::trim_space_str(rest);
                    open.push(text);
                    proof {
                        assert(open.deep_view() =~= st.open.push(verse_text_of(all[i as int], idx as int)));
                    }
                },
                None => {},
            }
        }
        i += 1;
    }
    proof {
        assert(all.subrange(0, n as int) =~= all);
    }
    match title {
        None => None,
        Some(t) => {
            closed.push(open);
            let b = Book { title: t, chapters: closed };
            proof {
                assert(b.spec_chapters() =~= scan_lines(all).closed.push(scan_lines(all).open));
            }
            Some(b)
        },
    }
}

/// The book number declared by a corpus file name: the text before the first
/// underscore, read as a number if it is one (files without such a prefix
/// are not book files).
pub open spec fn book_number_spec(name: Seq<char>) -> Option<u32> {
    match find_char(name, '_') {
        None => None,
        Some(i) => {
            let pre = name.subrange(0, i);
            if is_number_token(pre) && number_value(pre) <= u32::MAX {
                Some(number_value(pre) as u32)
            } else {
                None
            }
        },
    }
}

/// Read a book number out of a corpus file name.
pub fn book_number_of(name: &str) -> (r: Option<u32>)
    ensures
        r == book_number_spec(name@),
{
    let idx = match crate::text::find_char_in(name, '_') {
        None => {
            return None;
        },
        Some(i) => i,
    };
    proof {
        lemma_find_char_props(name@, '_');
    }
    let pre = name.substring_char(0, idx);
    let ghost body = crate::text::num_body(pre@);
    let m = pre.unicode_len();
    let start: usize = if m > 0 && pre.get_char(0) == '+' {
        1
    } else {
        0
    };
    proof {
        assert(body =~= pre@.subrange(start as int, m as int));
    }
    if start == m {
        return None;
    }
    let mut acc: u32 = 0;
    let mut k: usize = start;
    while k < m
        invariant
            m == pre@.len(),
            start <= k <= m,
            start < m,
            find_char(name@, '_') == Some(idx as int),
            pre@ == name@.subrange(0, idx as int),
            body == crate::text::num_body(pre@),
            body =~= pre@.subrange(start as int, m as int),
            forall|j: int| 0 <= j < k - start ==> crate::text::is_digit_char(body[j]),
            acc == crate::text::digits_val(body.subrange(0, k - start)),
        decreases m - k,
    {
        let c = pre.get_char(k);
        let u = c as u32;
        if !(48 <= u && u <= 57) {
            proof {
                assert(!crate::text::is_digit_char(body[k - start]));
            }
            return None;
        }
        let d: u32 = u - 48;
        proof {
            assert(body.subrange(0, k - start + 1).drop_last() =~= body.subrange(0, k - start));
            assert(body.subrange(0, k - start + 1).last() == body[k - start]);
        }
        if acc > u32::MAX / 10 || (acc == u32::MAX / 10 && d > u32::MAX % 10) {
            proof {
                let full = crate::text::digits_val(body.subrange(0, k - start + 1));
                assert(full == acc * 10 + d);
                assert(full > u32::MAX);
                lemma_digits_val_prefix_le(body, k - start + 1);
            }
            return None;
        }
        acc = acc * 10 + d;
        k += 1;
    }
    proof {
        assert(body.subrange(0, m - start) =~= body);
        assert(is_number_token(pre@));
    }
    Some(acc)
}

/// Some entry of `ps` carries the number `j`.
pub open spec fn covers(ps: Seq<(usize, Book)>, j: int) -> bool {
    exists|i: int| 0 <= i < ps.len() && (#[trigger] ps[i]).0 as int == j
}

/// The numbers of `pairs` are exactly `0 .. pairs.len()`, each once: the
/// well-formedness that document assembly demands of a corpus.
pub open spec fn numbering_valid(ps: Seq<(usize, Book)>) -> bool {
    &&& (forall|i: int, j: int| 0 <= i < j < ps.len() ==> (#[trigger] ps[i]).0 != (#[trigger] ps[j]).0)
    &&& (forall|j: int| 0 <= j < ps.len() ==> #[trigger] covers(ps, j))
}

/// Assemble numbered books into a document, ordered by their numbers.
/// Succeeds exactly when the numbers are gapless and duplicate-free.
pub fn build_document(pairs: Vec<(usize, Book)>) -> (r: Option<Document>)
    ensures
        ({
            let ps = pairs@;
            match r {
                None => !numbering_valid(ps),
                Some(d) => {
                    &&& numbering_valid(ps)
                    &&& d.books@.len() == ps.len()
                    &&& forall|i: int|
                        0 <= i < ps.len() ==> (#[trigger] ps[i]).0 < ps.len() && d.books@[ps[i].0 as int]
                            == ps[i].1
                },
            }
        }),
{
    let ghost ps = pairs@;
    let n = pairs.len();
    // Reject duplicate numbers.
    let mut a: usize = 0;
    while a < n
        invariant
            n == pairs@.len(),
            ps == pairs@,
            0 <= a <= n,
            forall|i: int, j: int| 0 <= i < j < n && i < a ==> (#[trigger] ps[i]).0 != (#[trigger] ps[j]).0,
        decreases n - a,
    {
        let mut b: usize = a + 1;
        while b < n
            invariant
                n == pairs@.len(),
                ps == pairs@,
                0 <= a < n,
                a < b <= n,
                forall|j: int| a < j < b ==> (#[trigger] ps[j]).0 != ps[a as int].0,
            decreases n - b,
        {
            if pairs[a].0 == pairs[b].0 {
                proof {
                    assert(!numbering_valid(ps));
                }
                return None;
            }
            b += 1;
        }
        a += 1;
    }
    // Place each book at its number.
    let mut slots: Vec<Option<Book>> = Vec::new();
    let mut f: usize = 0;
    while f < n
        invariant
            0 <= f <= n,
            slots@.len() == f,
            forall|j: int| 0 <= j < f ==> slots@[j] is None,
        decreases n - f,
    {
        slots.push(None);
        f += 1;
    }
    let mut rest = pairs;
    while rest.len() > 0
        invariant
            n == ps.len(),
            rest@.len() <= n,
            rest@ =~= ps.subrange(0, rest@.len() as int),
            slots@.len() == n,
            forall|i: int, j: int| 0 <= i < j < n ==> (#[trigger] ps[i]).0 != (#[trigger] ps[j]).0,
            forall|i: int|
                rest@.len() <= i < n && (#[trigger] ps[i]).0 < n ==> slots@[ps[i].0 as int] == Some(
                    ps[i].1,
                ),
            forall|j: int| 0 <= j < n && (#[trigger] slots@[j]) is Some ==> covers(ps, j),
        decreases rest@.len(),
    {
        let ghost m = rest@.len() as int;
        let p = match rest.pop() {
            Some(p) => p,
            None => {
                return None;
            },
        };
        proof {
            assert(p == ps[m - 1]);
            assert(rest@ =~= ps.subrange(0, m - 1));
        }
        let (num, book) = p;
        if num < n {
            slots[num] = Some(book);
            proof {
                assert(slots@[num as int] == Some(ps[m - 1].1));
                assert forall|i: int|
                    m - 1 <= i < n && (#[trigger] ps[i]).0 < n implies slots@[ps[i].0 as int]
                    == Some(ps[i].1) by {
                    if i > m - 1 {
                        assert(ps[i].0 != ps[m - 1].0);
                    }
                }
            }
        }
    }
    // Every number below the count must now be occupied; collect in order.
    let mut rev: Vec<Book> = Vec::new();
    while slots.len() > 0
        invariant
            ps == pairs@,
            n == ps.len(),
            forall|i: int, j: int| 0 <= i < j < n ==> (#[trigger] ps[i]).0 != (#[trigger] ps[j]).0,
            slots@.len() + rev@.len() == n,
            forall|i: int|
                0 <= i < n && (#[trigger] ps[i]).0 < n ==> slots@.len() <= ps[i].0 as int
                    ==> rev@[n - 1 - ps[i].0 as int] == ps[i].1,
            forall|i: int|
                0 <= i < n && (#[trigger] ps[i]).0 < n ==> (ps[i].0 as int) < slots@.len()
                    ==> slots@[ps[i].0 as int] == Some(ps[i].1),
            forall|j: int| 0 <= j < slots@.len() && (#[trigger] slots@[j]) is Some ==> covers(ps, j),
            forall|j: int| slots@.len() <= j < n ==> #[trigger] covers(ps, j),
        decreases slots@.len(),
    {
        let ghost sl = slots@;
        let top = match slots.pop() {
            Some(t) => t,
            None => {
                return None;
            },
        };
        match top {
            None => {
                proof {
                    let j = sl.len() - 1;
                    if numbering_valid(ps) {
                        assert(covers(ps, j));
                        let i = choose|i: int|
                            0 <= i < ps.len() && (#[trigger] ps[i]).0 as int == j;
                        assert(sl[j] == Some(ps[i].1));
                    }
                    assert(!numbering_valid(ps));
                }
                return None;
            },
            Some(bk) => {
                rev.push(bk);
                proof {
                    let j = sl.len() - 1;
                    assert(sl[j] is Some);
                    assert(covers(ps, j));
                }
            },
        }
    }
    let mut books: Vec<Book> = Vec::new();
    while rev.len() > 0
        invariant
            ps == pairs@,
            n == ps.len(),
            books@.len() + rev@.len() == n,
            forall|i: int, j: int| 0 <= i < j < n ==> (#[trigger] ps[i]).0 != (#[trigger] ps[j]).0,
            forall|j: int| 0 <= j < n ==> #[trigger] covers(ps, j),
            forall|i: int|
                0 <= i < n && (#[trigger] ps[i]).0 < n ==> ({
                    let v = ps[i].0 as int;
                    if v < books@.len() {
                        books@[v] == ps[i].1
                    } else {
                        rev@[n - 1 - v] == ps[i].1
                    }
                }),
        decreases rev@.len(),
    {
        match rev.pop() {
            Some(bk) => {
                books.push(bk);
            },
            None => {
                return None;
            },
        }
    }
    proof {
        assert(numbering_valid(ps));
        assert forall|i: int| 0 <= i < n implies (#[trigger] ps[i]).0 < n by {
            lemma_numbers_in_range(ps, i);
        }
    }
    Some(Document { books })
}

/// With all numbers distinct and every value `0..len` taken by some entry,
/// every entry's number lies below `len`: `len` distinct values among `len`
/// entries leave no room for one out of range.
proof fn lemma_numbers_in_range(ps: Seq<(usize, Book)>, x: int)
    requires
        numbering_valid(ps),
        0 <= x < ps.len(),
    ensures
        ps[x].0 < ps.len(),
{
    let n = ps.len() as int;
    if ps[x].0 as int >= n {
        let f = |j: int| choose|i: int| 0 <= i < n && (#[trigger] ps[i]).0 as int == j;
        let s = vstd::set_lib::set_int_range(0, n);
        let y = s.map(f);
        vstd::set_lib::lemma_int_range(0, n);
        assert forall|j: int| s.contains(j) implies 0 <= #[trigger] f(j) < n && ps[f(j)].0 as int
            == j && f(j) != x by {
            assert(covers(ps, j));
            assert(exists|i: int| 0 <= i < n && (#[trigger] ps[i]).0 as int == j);
        }
        assert(vstd::relations::injective_on(f, s));
        vstd::set_lib::lemma_map_size(s, y, f);
        let t = s.remove(x);
        assert forall|b: int| y.contains(b) implies t.contains(b) by {
            let j = choose|a: int| s.contains(a) && f(a) == b;
            assert(0 <= f(j) < n && f(j) != x);
        }
        assert(s.contains(x));
        vstd::set_lib::lemma_len_subset(y, t);
        assert(t.len() == n - 1);
        assert(false);
    }
}

} // verus!
