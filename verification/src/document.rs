//! The document table: an immutable book/chapter/verse hierarchy, built once
//! by the corpus parser and only read afterwards. Counts are always queried
//! from the structure itself, never stored separately.

use vstd::prelude::*;

verus! {

/// One book: a title and its chapters, each chapter an ordered sequence of
/// verse texts.
pub struct Book {
    pub title: String,
    pub chapters: Vec<Vec<String>>,
}

impl Book {
    /// The chapters as a mathematical sequence of sequences of verse texts.
    pub open spec fn spec_chapters(&self) -> Seq<Seq<Seq<char>>> {
        self.chapters.deep_view()
    }

    /// A structurally sound book has at least one chapter (the parser always
    /// flushes its final chapter buffer).
    pub open spec fn wf(&self) -> bool {
        self.spec_chapters().len() >= 1
    }

    pub fn chapter_count(&self) -> (n: usize)
        ensures
            n == self.spec_chapters().len(),
    {
        self.chapters.len()
    }

    pub fn verse_count(&self, chapter: usize) -> (n: usize)
        requires
            chapter < self.spec_chapters().len(),
        ensures
            n == self.spec_chapters()[chapter as int].len(),
    {
        self.chapters[chapter].len()
    }

    /// The verses of one chapter.
    pub fn chapter_verses(&self, chapter: usize) -> (vs: &Vec<String>)
        requires
            chapter < self.spec_chapters().len(),
        ensures
            vs.deep_view() == self.spec_chapters()[chapter as int],
    {
        &self.chapters[chapter]
    }

    /// Point lookup of one verse's text.
    pub fn verse(&self, chapter: usize, verse: usize) -> (t: &String)
        requires
            chapter < self.spec_chapters().len(),
            verse < self.spec_chapters()[chapter as int].len(),
        ensures
            t@ == self.spec_chapters()[chapter as int][verse as int],
    {
        &self.chapters[chapter][verse]
    }
}

/// The compiled document: books in the order of their externally assigned
/// zero-based numbers.
pub struct Document {
    pub books: Vec<Book>,
}

impl Document {
    pub fn book_count(&self) -> (n: usize)
        ensures
            n == self.books@.len(),
    {
        self.books.len()
    }

    pub fn book(&self, num: usize) -> (b: &Book)
        requires
            num < self.books@.len(),
        ensures
            *b == self.books@[num as int],
    {
        &self.books[num]
    }

    pub fn title(&self, num: usize) -> (t: &String)
        requires
            num < self.books@.len(),
        ensures
            t@ == self.books@[num as int].title@,
    {
        &self.books[num].title
    }
}

} // verus!
