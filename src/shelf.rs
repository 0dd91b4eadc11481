use vstd::prelude::*;
use crate::error::ExportError;
use crate::json::{Json, field, str_field, array_field, get_field, get_str, get_array, parsed_json, parse_json};
use crate::text::{i32_of_text, parse_i32, text_less, text_lt};

verus! {

/// A book on the shelf or in the notebook collection.
pub struct Book {
    pub book_id: String,
    pub title: String,
    pub author: String,
    pub cover: String,
}

/// What a book holds, as plain values.
pub struct BookView {
    pub book_id: Seq<char>,
    pub title: Seq<char>,
    pub author: Seq<char>,
    pub cover: Seq<char>,
}

impl View for Book {
    type V = BookView;

    open spec fn view(&self) -> BookView {
        BookView { book_id: self.book_id@, title: self.title@, author: self.author@, cover: self.cover@ }
    }
}

/// What a list of books holds, in order.
pub open spec fn books_view(v: Seq<Book>) -> Seq<BookView> {
    v.map_values(|b: Book| b@)
}

/// Whether a book identifier spells a positive integer.
pub open spec fn numeric_id(id: Seq<char>) -> bool {
    match i32_of_text(id) {
        Some(n) => n > 0,
        None => false,
    }
}

/// A book record: `bookId`, `title`, `author` and `cover`, all texts.
pub open spec fn book_of(b: Json) -> Option<BookView> {
    match (str_field(b, "bookId"@), str_field(b, "title"@), str_field(b, "author"@), str_field(b, "cover"@)) {
        (Some(i), Some(t), Some(a), Some(c)) => Some(BookView { book_id: i, title: t, author: a, cover: c }),
        _ => None,
    }
}

/// The books of a shelf array: an entry without a numeric `bookId` text is
/// passed over; one with it must be a whole book record.
pub open spec fn shelf_books(entries: Seq<Json>) -> Option<Seq<BookView>>
    decreases entries.len(),
{
    if entries.len() == 0 {
        Some(Seq::empty())
    } else {
        let e = entries.last();
        match shelf_books(entries.drop_last()) {
            None => None,
            Some(prev) => match str_field(e, "bookId"@) {
                Some(id) => if numeric_id(id) {
                    match book_of(e) {
                        Some(b) => Some(prev.push(b)),
                        None => None,
                    }
                } else {
                    Some(prev)
                },
                None => Some(prev),
            },
        }
    }
}

/// The books of a notebook array: each entry holds a book record under `book`.
pub open spec fn notebook_books(entries: Seq<Json>) -> Option<Seq<BookView>>
    decreases entries.len(),
{
    if entries.len() == 0 {
        Some(Seq::empty())
    } else {
        match (notebook_books(entries.drop_last()), field(entries.last(), "book"@)) {
            (Some(prev), Some(inner)) => match book_of(inner) {
                Some(b) => Some(prev.push(b)),
                None => None,
            },
            _ => None,
        }
    }
}

/// Where a book goes in a list ordered by title: after every book whose
/// title is not greater.
pub open spec fn title_pos(s: Seq<BookView>, title: Seq<char>) -> int
    decreases s.len(),
{
    if s.len() == 0 {
        0
    } else if text_less(title, s.last().title) {
        title_pos(s.drop_last(), title)
    } else {
        s.len() as int
    }
}

/// The books ordered by title; books with equal titles keep their order.
pub open spec fn sort_by_title(s: Seq<BookView>) -> Seq<BookView>
    decreases s.len(),
{
    if s.len() == 0 {
        s
    } else {
        let t = sort_by_title(s.drop_last());
        t.insert(title_pos(t, s.last().title), s.last())
    }
}

/// The books of a shelf response: those of `finishReadBooks`, then those of
/// `recentBooks` (a book in both is listed twice), ordered by title.
pub open spec fn shelf_of(doc: Json) -> Option<Seq<BookView>> {
    match (array_field(doc, "finishReadBooks"@), array_field(doc, "recentBooks"@)) {
        (Some(f), Some(r)) => match (shelf_books(f), shelf_books(r)) {
            (Some(a), Some(b)) => Some(sort_by_title(a + b)),
            _ => None,
        },
        _ => None,
    }
}

/// The books of a notebook response, ordered by title.
pub open spec fn notebooks_of(doc: Json) -> Option<Seq<BookView>> {
    match array_field(doc, "books"@) {
        Some(bs) => match notebook_books(bs) {
            Some(s) => Some(sort_by_title(s)),
            None => None,
        },
        None => None,
    }
}

proof fn lemma_title_pos_bounds(s: Seq<BookView>, title: Seq<char>)
    ensures
        0 <= title_pos(s, title) <= s.len(),
    decreases s.len(),
{
    if s.len() > 0 {
        lemma_title_pos_bounds(s.drop_last(), title);
    }
}

fn copy_book(b: &Book) -> (r: Book)
    ensures
        r@ == b@,
{
    Book { book_id: b.book_id.clone(), title: b.title.clone(), author: b.author.clone(), cover: b.cover.clone() }
}

fn insert_by_title(sorted: &mut Vec<Book>, b: Book)
    ensures
        books_view(final(sorted)@) == books_view(old(sorted)@).insert(
            title_pos(books_view(old(sorted)@), b.title@),
            b@,
        ),
{
    let ghost v = books_view(sorted@);
    let mut p: usize = sorted.len();
    assert(v.take(p as int) == v);
    while p > 0 && text_lt(b.title.as_str(), sorted[p - 1].title.as_str())
        invariant
            0 <= p <= sorted@.len(),
            v == books_view(sorted@),
            title_pos(v, b.title@) == title_pos(v.take(p as int), b.title@),
        decreases p,
    {
        assert(v.take(p as int).drop_last() == v.take(p - 1));
        p = p - 1;
    }
    if p > 0 {
        assert(v.take(p as int).last() == v[p - 1]);
    }
    proof {
        lemma_title_pos_bounds(v.take(p as int), b.title@);
    }
    let ghost bv = b@;
    sorted.insert(p, b);
    assert(books_view(sorted@) =~= v.insert(p as int, bv));
}

/// Orders books by title, keeping the order of books with equal titles.
pub fn sort_books(books: Vec<Book>) -> (r: Vec<Book>)
    ensures
        books_view(r@) == sort_by_title(books_view(books@)),
{
    let ghost v = books_view(books@);
    let mut sorted: Vec<Book> = Vec::new();
    let mut i: usize = 0;
    assert(v.take(0) == Seq::<BookView>::empty());
    assert(books_view(sorted@) == Seq::<BookView>::empty());
    while i < books.len()
        invariant
            0 <= i <= books@.len(),
            v == books_view(books@),
            books_view(sorted@) == sort_by_title(v.take(i as int)),
        decreases books@.len() - i,
    {
        assert(v.take(i + 1).drop_last() == v.take(i as int));
        assert(v.take(i + 1).last() == books@[i as int]@);
        insert_by_title(&mut sorted, copy_book(&books[i]));
        i = i + 1;
    }
    assert(v.take(i as int) == v);
    sorted
}

fn read_book(b: &Json) -> (r: Option<Book>)
    ensures
        match book_of(*b) {
            Some(v) => r is Some && r->Some_0@ == v,
            None => r is None,
        },
{
    match (get_str(b, "bookId"), get_str(b, "title"), get_str(b, "author"), get_str(b, "cover")) {
        (Some(i), Some(t), Some(a), Some(c)) => Some(
            Book { book_id: i.clone(), title: t.clone(), author: a.clone(), cover: c.clone() },
        ),
        _ => None,
    }
}

proof fn lemma_shelf_fails(entries: Seq<Json>, i: int)
    requires
        0 <= i < entries.len(),
        shelf_books(entries.take(i + 1)) is None,
    ensures
        shelf_books(entries) is None,
    decreases entries.len(),
{
    if i < entries.len() - 1 {
        assert(entries.drop_last().take(i + 1) == entries.take(i + 1));
        lemma_shelf_fails(entries.drop_last(), i);
    } else {
        assert(entries.take(i + 1) == entries);
    }
}

fn push_shelf_books(out: &mut Vec<Book>, entries: &Vec<Json>) -> (ok: bool)
    ensures
        match shelf_books(entries@) {
            Some(s) => ok && books_view(final(out)@) == books_view(old(out)@) + s,
            None => !ok,
        },
{
    let ghost start = books_view(out@);
    let mut i: usize = 0;
    assert(entries@.take(0) == Seq::<Json>::empty());
    assert(start + Seq::<BookView>::empty() == start);
    while i < entries.len()
        invariant
            0 <= i <= entries@.len(),
            shelf_books(entries@.take(i as int)) is Some,
            books_view(out@) == start + shelf_books(entries@.take(i as int))->Some_0,
        decreases entries@.len() - i,
    {
        assert(entries@.take(i + 1).drop_last() == entries@.take(i as int));
        assert(entries@.take(i + 1).last() == entries@[i as int]);
        let e = &entries[i];
        if let Some(id) = get_str(e, "bookId") {
            let n = parse_i32(id.as_str());
            if n.is_some() && n.unwrap() > 0 {
                match read_book(e) {
                    Some(b) => {
                        let ghost before = out@;
                        let ghost bv = b@;
                        out.push(b);
                        assert(books_view(out@) =~= books_view(before).push(bv));
                    },
                    None => {
                        proof {
                            lemma_shelf_fails(entries@, i as int);
                        }
                        return false;
                    },
                }
            }
        }
        i = i + 1;
    }
    assert(entries@.take(i as int) == entries@);
    true
}

/// Lists the books of a shelf response: the finished books, then the recent
/// ones, each kept only where its identifier is a positive integer, ordered
/// by title.
pub fn shelf_books_of(doc: &Json) -> (r: Result<Vec<Book>, ExportError>)
    ensures
        match shelf_of(*doc) {
            Some(s) => r is Ok && books_view(r->Ok_0@) == s,
            None => r == Err::<Vec<Book>, ExportError>(ExportError::MissingField),
        },
{
    let finished = match get_array(doc, "finishReadBooks") {
        Some(a) => a,
        None => return Err(ExportError::MissingField),
    };
    let recent = match get_array(doc, "recentBooks") {
        Some(a) => a,
        None => return Err(ExportError::MissingField),
    };
    let mut books: Vec<Book> = Vec::new();
    assert(books_view(books@) == Seq::<BookView>::empty());
    if !push_shelf_books(&mut books, finished) {
        return Err(ExportError::MissingField);
    }
    if !push_shelf_books(&mut books, recent) {
        return Err(ExportError::MissingField);
    }
    Ok(sort_books(books))
}

proof fn lemma_notebooks_fail(entries: Seq<Json>, i: int)
    requires
        0 <= i < entries.len(),
        notebook_books(entries.take(i + 1)) is None,
    ensures
        notebook_books(entries) is None,
    decreases entries.len(),
{
    if i < entries.len() - 1 {
        assert(entries.drop_last().take(i + 1) == entries.take(i + 1));
        lemma_notebooks_fail(entries.drop_last(), i);
    } else {
        assert(entries.take(i + 1) == entries);
    }
}

/// Lists the books of a notebook response, ordered by title.
pub fn notebook_books_of(doc: &Json) -> (r: Result<Vec<Book>, ExportError>)
    ensures
        match notebooks_of(*doc) {
            Some(s) => r is Ok && books_view(r->Ok_0@) == s,
            None => r == Err::<Vec<Book>, ExportError>(ExportError::MissingField),
        },
{
    let entries = match get_array(doc, "books") {
        Some(a) => a,
        None => return Err(ExportError::MissingField),
    };
    let mut books: Vec<Book> = Vec::new();
    let mut i: usize = 0;
    assert(entries@.take(0) == Seq::<Json>::empty());
    assert(books_view(books@) == Seq::<BookView>::empty());
    while i < entries.len()
        invariant
            0 <= i <= entries@.len(),
            array_field(*doc, "books"@) == Some(entries@),
            notebook_books(entries@.take(i as int)) is Some,
            books_view(books@) == notebook_books(entries@.take(i as int))->Some_0,
        decreases entries@.len() - i,
    {
        assert(entries@.take(i + 1).drop_last() == entries@.take(i as int));
        assert(entries@.take(i + 1).last() == entries@[i as int]);
        let book = match get_field(&entries[i], "book") {
            Some(inner) => read_book(inner),
            None => None,
        };
        match book {
            Some(b) => {
                let ghost before = books@;
                let ghost bv = b@;
                books.push(b);
                assert(books_view(books@) =~= books_view(before).push(bv));
            },
            None => {
                proof {
                    lemma_notebooks_fail(entries@, i as int);
                }
                return Err(ExportError::MissingField);
            },
        }
        i = i + 1;
    }
    assert(entries@.take(i as int) == entries@);
    Ok(sort_books(books))
}

/// The books that a shelf response body lists; `Decode` where it is not JSON.
pub open spec fn shelf_listing(body: Seq<char>) -> Result<Seq<BookView>, ExportError> {
    match parsed_json(body) {
        None => Err(ExportError::Decode),
        Some(doc) => match shelf_of(doc) {
            Some(s) => Ok(s),
            None => Err(ExportError::MissingField),
        },
    }
}

/// The books that a notebook response body lists; `Decode` where it is not JSON.
pub open spec fn notebook_listing(body: Seq<char>) -> Result<Seq<BookView>, ExportError> {
    match parsed_json(body) {
        None => Err(ExportError::Decode),
        Some(doc) => match notebooks_of(doc) {
            Some(s) => Ok(s),
            None => Err(ExportError::MissingField),
        },
    }
}

/// What a listing result holds, as plain values.
pub open spec fn books_result(r: Result<Vec<Book>, ExportError>) -> Result<Seq<BookView>, ExportError> {
    match r {
        Ok(v) => Ok(books_view(v@)),
        Err(e) => Err(e),
    }
}

/// Lists the books on the shelf from the body of a shelf response.
pub fn list_shelf(body: &str) -> (r: Result<Vec<Book>, ExportError>)
    ensures
        books_result(r) == shelf_listing(body@),
{
    match parse_json(body) {
        Some(doc) => shelf_books_of(&doc),
        None => Err(ExportError::Decode),
    }
}

/// Lists the books in the notebook collection from the body of a notebook response.
pub fn list_notebooks(body: &str) -> (r: Result<Vec<Book>, ExportError>)
    ensures
        books_result(r) == notebook_listing(body@),
{
    match parse_json(body) {
        Some(doc) => notebook_books_of(&doc),
        None => Err(ExportError::Decode),
    }
}

} // verus!
