//! The catalog: the lendable books and how many of each remain.
use vstd::prelude::*;

verus! {

/// One lendable book.
pub struct Book {
    pub book_name: String,
    pub book_id: String,
    pub book_author: String,
    pub book_quantity: i32,
}

impl Book {
    pub fn new(book_name: &str, book_author: &str, book_id: &str, book_quantity: i32) -> (r: Book)
        ensures
            r.book_name@ == book_name@,
            r.book_author@ == book_author@,
            r.book_id@ == book_id@,
            r.book_quantity == book_quantity,
    {
        Book {
            book_name: String::from_str(book_name),
            book_id: String::from_str(book_id),
            book_author: String::from_str(book_author),
            book_quantity,
        }
    }

    /// This book with `q` copies remaining.
    pub open spec fn with_quantity(self, q: i32) -> Book {
        Book {
            book_name: self.book_name,
            book_id: self.book_id,
            book_author: self.book_author,
            book_quantity: q,
        }
    }
}

/// The books on offer, in the order they were seeded.
pub struct Catalog {
    books: Vec<Book>,
}

/// Every identifier in `books` is distinct and no count is negative.
pub open spec fn books_wf(books: Seq<Book>) -> bool {
    &&& forall|i: int, j: int|
        0 <= i < books.len() && 0 <= j < books.len() && i != j ==> #[trigger] books[i].book_id@
            != #[trigger] books[j].book_id@
    &&& forall|i: int| 0 <= i < books.len() ==> #[trigger] books[i].book_quantity >= 0
}

impl Catalog {
    pub closed spec fn books_view(&self) -> Seq<Book> {
        self.books@
    }

    pub open spec fn wf(&self) -> bool {
        books_wf(self.books_view())
    }

    /// Whether book `i` carries the identifier `id`.
    pub open spec fn id_at(&self, i: int, id: Seq<char>) -> bool {
        0 <= i < self.books_view().len() && self.books_view()[i].book_id@ == id
    }

    /// The position of the book with identifier `id`, if there is one.
    pub open spec fn lookup(&self, id: Seq<char>) -> Option<int> {
        if exists|i: int| self.id_at(i, id) {
            Some(choose|i: int| self.id_at(i, id))
        } else {
            None
        }
    }

    /// Builds a catalog of `books`, which carry distinct identifiers and no negative count.
    pub fn seed(books: Vec<Book>) -> (r: Catalog)
        requires
            books_wf(books@),
        ensures
            r.wf(),
            r.books_view() == books@,
    {
        Catalog { books }
    }

    /// The two books every session starts with.
    pub fn starter() -> (r: Catalog)
        ensures
            r.wf(),
            r.books_view().len() == 2,
            r.books_view()[0].book_id@ == "1"@,
            r.books_view()[0].book_quantity == 10,
            r.books_view()[1].book_id@ == "2"@,
            r.books_view()[1].book_quantity == 10,
    {
        let mut books: Vec<Book> = Vec::new();
        books.push(Book::new("Book A", "Author A", "1", 10));
        books.push(Book::new("Book B", "Author B", "2", 10));
        proof {
            reveal_strlit("1");
            reveal_strlit("2");
            assert("1"@[0] == '1' && "2"@[0] == '2');
            assert(books@[0].book_id@[0] != books@[1].book_id@[0]);
        }
        Catalog::seed(books)
    }

    /// The books, in seed order.
    pub fn books(&self) -> (r: &Vec<Book>)
        ensures
            r@ == self.books_view(),
    {
        &self.books
    }

    /// The position of the first book whose identifier is `id`.
    pub fn find(&self, id: &String) -> (r: Option<usize>)
        requires
            self.wf(),
        ensures
            r matches Some(i) ==> self.id_at(i as int, id@) && self.lookup(id@) == Some(i as int),
            r is None ==> self.lookup(id@) is None,
    {
        let mut i: usize = 0;
        while i < self.books.len()
            invariant
                self.wf(),
                i <= self.books@.len(),
                forall|k: int| 0 <= k < i ==> !self.id_at(k, id@),
            decreases self.books@.len() - i,
        {
            if self.books[i].book_id == *id {
                proof {
                    self.lemma_lookup_at(i as int, id@);
                }
                return Some(i);
            }
            i = i + 1;
        }
        None
    }

    /// In a well-formed catalog the book at `i` is the one that `lookup` finds.
    pub proof fn lemma_lookup_at(&self, i: int, id: Seq<char>)
        requires
            self.wf(),
            self.id_at(i, id),
        ensures
            self.lookup(id) == Some(i),
    {
        let j = choose|j: int| self.id_at(j, id);
        assert(self.books_view()[i].book_id@ == self.books_view()[j].book_id@);
    }

    /// Takes one copy of book `i` off the shelf.
    pub fn take_one(&mut self, i: usize)
        requires
            old(self).wf(),
            i < old(self).books_view().len(),
            old(self).books_view()[i as int].book_quantity > 0,
        ensures
            final(self).wf(),
            final(self).books_view() == old(self).books_view().update(
                i as int,
                old(self).books_view()[i as int].with_quantity(
                    (old(self).books_view()[i as int].book_quantity - 1) as i32,
                ),
            ),
    {
        let b = &self.books[i];
        let updated = Book {
            book_name: b.book_name.clone(),
            book_id: b.book_id.clone(),
            book_author: b.book_author.clone(),
            book_quantity: b.book_quantity - 1,
        };
        self.books.set(i, updated);
        proof {
            let s = self.books@;
            assert forall|x: int, y: int|
                0 <= x < s.len() && 0 <= y < s.len() && x != y implies #[trigger] s[x].book_id@
                != #[trigger] s[y].book_id@ by {
                assert(old(self).books@[x].book_id@ != old(self).books@[y].book_id@);
            }
        }
    }
}

} // verus!
