//! The lending ledger: validates checkout requests against the catalog,
//! mints record identifiers and keeps the records in the order they were made.
use vstd::prelude::*;
use crate::catalog::{Book, Catalog};
use crate::record_id::{draw_ulid, next_id_after, next_record_id, ulid_text, ulid_to_text};
use crate::text::{
    decimal_text, int_text, integer_value, lemma_trimmed_empty_iff_blank, parse_i32, parsed_i32,
    trim_text, trimmed, white_space,
};

verus! {

/// Why a checkout was refused.
#[derive(Debug, Clone, Copy, PartialEq, Eq, Structural)]
pub enum CheckoutError {
    /// The identifier is empty once trimmed.
    InvalidItemId,
    /// The quantity is not a non-negative `i32`.
    InvalidQuantity,
    /// No book carries the identifier.
    ItemNotFound,
    /// The book has no copy left.
    OutOfStock,
    /// Every identifier above the last record's has been used.
    RecordIdsExhausted,
}

/// One completed checkout.
pub struct BorrowedBook {
    pub book_id: String,
    pub user_id: i32,
    pub borrow_quantity: i32,
    /// The text of `borrow_ulid`.
    pub borrow_id: String,
    pub borrow_ulid: u128,
}

impl BorrowedBook {
    /// Whether this record lends `quantity` of book `book_id` to `user_id`
    /// under the identifier `ulid`.
    pub open spec fn records(self, book_id: Seq<char>, user_id: i32, quantity: int, ulid: u128) -> bool {
        &&& self.book_id@ == book_id
        &&& self.user_id == user_id
        &&& self.borrow_quantity == quantity
        &&& self.borrow_ulid == ulid
        &&& self.borrow_id@ == ulid_text(ulid)
    }

    /// The line that logs this record: a line break, then the book, the
    /// borrower, the quantity and the record identifier, separated by commas.
    pub open spec fn log_line_view(self) -> Seq<char> {
        seq!['\n'] + self.book_id@ + seq![','] + int_text(self.user_id as int) + seq![',']
            + int_text(self.borrow_quantity as int) + seq![','] + self.borrow_id@
    }

    pub fn log_line(&self) -> (r: String)
        ensures
            r@ == self.log_line_view(),
    {
        proof {
            reveal_strlit("\n");
            reveal_strlit(",");
        }
        let mut line = String::from_str("\n");
        line.append(self.book_id.as_str());
        line.append(",");
        line.append(decimal_text(self.user_id).as_str());
        line.append(",");
        line.append(decimal_text(self.borrow_quantity).as_str());
        line.append(",");
        line.append(self.borrow_id.as_str());
        assert(line@ =~= self.log_line_view());
        line
    }

    /// The record as four labelled lines, for display.
    pub open spec fn describe_view(self) -> Seq<char> {
        "Book ID "@ + self.book_id@ + "\nBorrowed by User ID "@ + int_text(self.user_id as int)
            + "\nWith Borrow Quantity "@ + int_text(self.borrow_quantity as int)
            + "\nWith Borrow ULID "@ + self.borrow_id@
    }

    pub fn describe(&self) -> (r: String)
        ensures
            r@ == self.describe_view(),
    {
        let mut text = String::from_str("Book ID ");
        text.append(self.book_id.as_str());
        text.append("\nBorrowed by User ID ");
        text.append(decimal_text(self.user_id).as_str());
        text.append("\nWith Borrow Quantity ");
        text.append(decimal_text(self.borrow_quantity).as_str());
        text.append("\nWith Borrow ULID ");
        text.append(self.borrow_id.as_str());
        text
    }

    /// An equal record.
    pub fn duplicate(&self) -> (r: BorrowedBook)
        ensures
            r == *self,
    {
        BorrowedBook {
            book_id: self.book_id.clone(),
            user_id: self.user_id,
            borrow_quantity: self.borrow_quantity,
            borrow_id: self.borrow_id.clone(),
            borrow_ulid: self.borrow_ulid,
        }
    }
}

/// The quantity that `q` asks for: a non-negative `i32`, white space aside.
pub open spec fn requested_quantity(q: Seq<char>) -> Option<int> {
    match parsed_i32(trimmed(q)) {
        Some(v) => if v >= 0 {
            Some(v)
        } else {
            None
        },
        None => None,
    }
}

/// The catalog and the records of one session.
pub struct Ledger {
    catalog: Catalog,
    records: Vec<BorrowedBook>,
}

impl Ledger {
    pub closed spec fn catalog_view(&self) -> Catalog {
        self.catalog
    }

    pub open spec fn books_view(&self) -> Seq<Book> {
        self.catalog_view().books_view()
    }

    pub closed spec fn records_view(&self) -> Seq<BorrowedBook> {
        self.records@
    }

    /// The identifier of the latest record, if any.
    pub open spec fn last_id(&self) -> Option<u128> {
        if self.records_view().len() == 0 {
            None
        } else {
            Some(self.records_view().last().borrow_ulid)
        }
    }

    /// The catalog is well formed, record identifiers rise strictly in
    /// insertion order, and each record's text matches its identifier.
    pub open spec fn wf(&self) -> bool {
        &&& self.catalog_view().wf()
        &&& forall|i: int, j: int|
            0 <= i < j < self.records_view().len() ==> #[trigger] self.records_view()[i].borrow_ulid
                < #[trigger] self.records_view()[j].borrow_ulid
        &&& forall|i: int|
            0 <= i < self.records_view().len() ==> #[trigger] self.records_view()[i].borrow_id@
                == ulid_text(self.records_view()[i].borrow_ulid)
    }

    /// What a checkout of `item` and `quantity` for `borrower` does to `pre`,
    /// giving `post` and `r`, when `drawn` is the identifier drawn for it.
    pub open spec fn checkout_effect(
        pre: Ledger,
        post: Ledger,
        item: Seq<char>,
        quantity: Seq<char>,
        borrower: i32,
        drawn: u128,
        r: Result<BorrowedBook, CheckoutError>,
    ) -> bool {
        let key = trimmed(item);
        if key.len() == 0 {
            r == Err::<BorrowedBook, CheckoutError>(CheckoutError::InvalidItemId) && post == pre
        } else if requested_quantity(quantity) is None {
            r == Err::<BorrowedBook, CheckoutError>(CheckoutError::InvalidQuantity) && post == pre
        } else {
            match pre.catalog_view().lookup(key) {
                None => r == Err::<BorrowedBook, CheckoutError>(CheckoutError::ItemNotFound) && post
                    == pre,
                Some(i) => if pre.books_view()[i].book_quantity <= 0 {
                    r == Err::<BorrowedBook, CheckoutError>(CheckoutError::OutOfStock) && post == pre
                } else {
                    match next_id_after(pre.last_id(), drawn) {
                        None => r == Err::<BorrowedBook, CheckoutError>(
                            CheckoutError::RecordIdsExhausted,
                        ) && post == pre,
                        Some(id) => {
                            &&& r matches Ok(rec)
                            &&& rec.records(key, borrower, requested_quantity(quantity)->0, id)
                            &&& post.records_view() == pre.records_view().push(rec)
                            &&& post.books_view() == pre.books_view().update(
                                i,
                                pre.books_view()[i].with_quantity(
                                    (pre.books_view()[i].book_quantity - 1) as i32,
                                ),
                            )
                        },
                    }
                },
            }
        }
    }

    /// A ledger over `catalog` with no records yet.
    pub fn new(catalog: Catalog) -> (r: Ledger)
        requires
            catalog.wf(),
        ensures
            r.wf(),
            r.catalog_view() == catalog,
            r.records_view().len() == 0,
    {
        Ledger { catalog, records: Vec::new() }
    }

    /// The catalog as it stands.
    pub fn catalog(&self) -> (r: &Catalog)
        ensures
            *r == self.catalog_view(),
    {
        &self.catalog
    }

    /// The records, oldest first.
    pub fn records(&self) -> (r: &Vec<BorrowedBook>)
        ensures
            r@ == self.records_view(),
    {
        &self.records
    }

    fn last_record_id(&self) -> (r: Option<u128>)
        ensures
            r == self.last_id(),
    {
        if self.records.len() == 0 {
            None
        } else {
            Some(self.records[self.records.len() - 1].borrow_ulid)
        }
    }

    /// Checks out `requested_quantity` of the book `item_id` for `borrower_id`,
    /// with `drawn` as the freshly drawn identifier. One copy leaves the shelf,
    /// whatever the quantity asked for, while the record keeps the quantity
    /// asked for; a quantity of zero is accepted and recorded as it stands.
    /// The checks run in a fixed order: identifier, quantity, lookup, stock.
    pub fn checkout_with_ulid(
        &mut self,
        item_id: &str,
        requested_quantity: &str,
        borrower_id: i32,
        drawn: u128,
    ) -> (r: Result<BorrowedBook, CheckoutError>)
        requires
            old(self).wf(),
        ensures
            final(self).wf(),
            Ledger::checkout_effect(
                *old(self),
                *final(self),
                item_id@,
                requested_quantity@,
                borrower_id,
                drawn,
                r,
            ),
    {
        let key = trim_text(item_id);
        if key.as_str().unicode_len() == 0 {
            return Err(CheckoutError::InvalidItemId);
        }
        let qtext = trim_text(requested_quantity);
        let quantity = match parse_i32(qtext.as_str()) {
            Some(v) => if v >= 0 {
                v
            } else {
                return Err(CheckoutError::InvalidQuantity);
            },
            None => return Err(CheckoutError::InvalidQuantity),
        };
        let i = match self.catalog.find(&key) {
            Some(i) => i,
            None => return Err(CheckoutError::ItemNotFound),
        };
        if self.catalog.books()[i].book_quantity <= 0 {
            return Err(CheckoutError::OutOfStock);
        }
        let id = match next_record_id(self.last_record_id(), drawn) {
            Some(id) => id,
            None => return Err(CheckoutError::RecordIdsExhausted),
        };
        let record = BorrowedBook {
            book_id: self.catalog.books()[i].book_id.clone(),
            user_id: borrower_id,
            borrow_quantity: quantity,
            borrow_id: ulid_to_text(id),
            borrow_ulid: id,
        };
        let out = record.duplicate();
        let ghost pre = self.records@;
        self.records.push(record);
        self.catalog.take_one(i);
        proof {
            let s = self.records@;
            assert forall|a: int, b: int| 0 <= a < b < s.len() implies #[trigger] s[a].borrow_ulid
                < #[trigger] s[b].borrow_ulid by {
                if b == s.len() - 1 && a < b {
                    assert(pre[a].borrow_ulid <= pre.last().borrow_ulid);
                }
            }
        }
        Ok(out)
    }

    /// Checks out `requested_quantity` of the book `item_id` for `borrower_id`,
    /// drawing a new ULID for the record.
    pub fn checkout(&mut self, item_id: &str, requested_quantity: &str, borrower_id: i32) -> (r:
        Result<BorrowedBook, CheckoutError>)
        requires
            old(self).wf(),
        ensures
            final(self).wf(),
            exists|drawn: u128|
                Ledger::checkout_effect(
                    *old(self),
                    *final(self),
                    item_id@,
                    requested_quantity@,
                    borrower_id,
                    drawn,
                    r,
                ),
    {
        let drawn = draw_ulid();
        self.checkout_with_ulid(item_id, requested_quantity, borrower_id, drawn)
    }
}

/// A checkout keeps a well-formed ledger well formed; in particular no
/// book's remaining count ever goes negative, whatever checkouts follow.
pub proof fn lemma_checkout_keeps_stock_non_negative(
    pre: Ledger,
    post: Ledger,
    item: Seq<char>,
    quantity: Seq<char>,
    borrower: i32,
    drawn: u128,
    r: Result<BorrowedBook, CheckoutError>,
)
    requires
        pre.wf(),
        Ledger::checkout_effect(pre, post, item, quantity, borrower, drawn, r),
    ensures
        post.wf(),
        forall|i: int| 0 <= i < post.books_view().len() ==> #[trigger] post.books_view()[i].book_quantity >= 0,
{
    let key = trimmed(item);
    if key.len() > 0 && requested_quantity(quantity) is Some {
        if let Some(i) = pre.catalog_view().lookup(key) {
            if pre.books_view()[i].book_quantity > 0 {
                if let Some(id) = next_id_after(pre.last_id(), drawn) {
                    let b = post.books_view();
                    let a = pre.books_view();
                    assert forall|x: int, y: int|
                        0 <= x < b.len() && 0 <= y < b.len() && x != y implies #[trigger] b[x].book_id@
                        != #[trigger] b[y].book_id@ by {
                        assert(a[x].book_id@ != a[y].book_id@);
                    }
                    assert forall|x: int| 0 <= x < b.len() implies #[trigger] b[x].book_quantity >= 0 by {
                        assert(a[x].book_quantity >= 0);
                    }
                    let s = post.records_view();
                    let p = pre.records_view();
                    assert forall|x: int, y: int| 0 <= x < y < s.len() implies #[trigger] s[x].borrow_ulid
                        < #[trigger] s[y].borrow_ulid by {
                        if y == s.len() - 1 {
                            assert(p[x].borrow_ulid <= p.last().borrow_ulid);
                        }
                    }
                    assert forall|x: int| 0 <= x < s.len() implies #[trigger] s[x].borrow_id@ == ulid_text(
                        s[x].borrow_ulid,
                    ) by {
                        if x < p.len() {
                            assert(s[x] == p[x]);
                        }
                    }
                }
            }
        }
    }
}

/// A checkout whose identifier is empty or white space alone fails with
/// `InvalidItemId` and changes nothing.
pub proof fn lemma_blank_id_rejected(
    pre: Ledger,
    post: Ledger,
    item: Seq<char>,
    quantity: Seq<char>,
    borrower: i32,
    drawn: u128,
    r: Result<BorrowedBook, CheckoutError>,
)
    requires
        forall|i: int| 0 <= i < item.len() ==> white_space(#[trigger] item[i]),
        Ledger::checkout_effect(pre, post, item, quantity, borrower, drawn, r),
    ensures
        r == Err::<BorrowedBook, CheckoutError>(CheckoutError::InvalidItemId),
        post == pre,
{
    lemma_trimmed_empty_iff_blank(item);
}

/// With a usable identifier, a quantity that is no integer, or a negative
/// one, fails with `InvalidQuantity` and changes nothing.
pub proof fn lemma_bad_quantity_rejected(
    pre: Ledger,
    post: Ledger,
    item: Seq<char>,
    quantity: Seq<char>,
    borrower: i32,
    drawn: u128,
    r: Result<BorrowedBook, CheckoutError>,
)
    requires
        trimmed(item).len() > 0,
        integer_value(trimmed(quantity)) is None || integer_value(trimmed(quantity))->0 < 0,
        Ledger::checkout_effect(pre, post, item, quantity, borrower, drawn, r),
    ensures
        r == Err::<BorrowedBook, CheckoutError>(CheckoutError::InvalidQuantity),
        post == pre,
{
}

/// A valid request for an identifier that no book carries fails with
/// `ItemNotFound` and changes nothing.
pub proof fn lemma_unknown_id_rejected(
    pre: Ledger,
    post: Ledger,
    item: Seq<char>,
    quantity: Seq<char>,
    borrower: i32,
    drawn: u128,
    r: Result<BorrowedBook, CheckoutError>,
)
    requires
        trimmed(item).len() > 0,
        requested_quantity(quantity) is Some,
        forall|i: int| 0 <= i < pre.books_view().len() ==> #[trigger] pre.books_view()[i].book_id@ != trimmed(item),
        Ledger::checkout_effect(pre, post, item, quantity, borrower, drawn, r),
    ensures
        r == Err::<BorrowedBook, CheckoutError>(CheckoutError::ItemNotFound),
        post == pre,
{
    assert(!exists|i: int| pre.catalog_view().id_at(i, trimmed(item)));
}

/// A valid request for a book with no copy left fails with `OutOfStock`
/// and changes nothing.
pub proof fn lemma_exhausted_book_rejected(
    pre: Ledger,
    post: Ledger,
    item: Seq<char>,
    quantity: Seq<char>,
    borrower: i32,
    drawn: u128,
    r: Result<BorrowedBook, CheckoutError>,
    i: int,
)
    requires
        pre.wf(),
        trimmed(item).len() > 0,
        requested_quantity(quantity) is Some,
        0 <= i < pre.books_view().len(),
        pre.books_view()[i].book_id@ == trimmed(item),
        pre.books_view()[i].book_quantity == 0,
        Ledger::checkout_effect(pre, post, item, quantity, borrower, drawn, r),
    ensures
        r == Err::<BorrowedBook, CheckoutError>(CheckoutError::OutOfStock),
        post == pre,
{
    pre.catalog_view().lemma_lookup_at(i, trimmed(item));
}

/// A successful checkout appends exactly the returned record, takes exactly
/// one copy off that book's count, leaves every other book alone, and the
/// record's log line holds its book, borrower, quantity and identifier in
/// that order.
pub proof fn lemma_success_appends_one_record(
    pre: Ledger,
    post: Ledger,
    item: Seq<char>,
    quantity: Seq<char>,
    borrower: i32,
    drawn: u128,
    r: Result<BorrowedBook, CheckoutError>,
)
    requires
        Ledger::checkout_effect(pre, post, item, quantity, borrower, drawn, r),
        r is Ok,
    ensures
        post.records_view() == pre.records_view().push(r->Ok_0),
        post.books_view().len() == pre.books_view().len(),
        exists|i: int|
            0 <= i < pre.books_view().len() && pre.books_view()[i].book_id@ == trimmed(item)
                && #[trigger] post.books_view()[i].book_quantity == pre.books_view()[i].book_quantity - 1
                && forall|j: int|
                0 <= j < pre.books_view().len() && j != i ==> #[trigger] post.books_view()[j]
                    == pre.books_view()[j],
        r->Ok_0.log_line_view() == seq!['\n'] + trimmed(item) + seq![','] + int_text(borrower as int)
            + seq![','] + int_text(requested_quantity(quantity)->0) + seq![','] + r->Ok_0.borrow_id@,
{
    let i = pre.catalog_view().lookup(trimmed(item))->0;
    assert(pre.catalog_view().id_at(i, trimmed(item)));
    assert(post.books_view()[i].book_quantity == pre.books_view()[i].book_quantity - 1);
}

/// The records of a well-formed ledger carry pairwise distinct identifiers,
/// rising in the order the records were made.
pub proof fn lemma_record_ids_distinct_and_sorted(l: Ledger)
    requires
        l.wf(),
    ensures
        forall|i: int, j: int|
            0 <= i < l.records_view().len() && 0 <= j < l.records_view().len() && i != j
                ==> #[trigger] l.records_view()[i].borrow_ulid != #[trigger] l.records_view()[j].borrow_ulid,
        forall|i: int, j: int|
            0 <= i <= j < l.records_view().len() ==> #[trigger] l.records_view()[i].borrow_ulid
                <= #[trigger] l.records_view()[j].borrow_ulid,
{
    assert forall|i: int, j: int|
        0 <= i < l.records_view().len() && 0 <= j < l.records_view().len() && i != j
            implies #[trigger] l.records_view()[i].borrow_ulid != #[trigger] l.records_view()[j].borrow_ulid by {
        if i < j {
            assert(l.records_view()[i].borrow_ulid < l.records_view()[j].borrow_ulid);
        } else {
            assert(l.records_view()[j].borrow_ulid < l.records_view()[i].borrow_ulid);
        }
    }
    assert forall|i: int, j: int|
        0 <= i <= j < l.records_view().len() implies #[trigger] l.records_view()[i].borrow_ulid
            <= #[trigger] l.records_view()[j].borrow_ulid by {
        if i < j {
            assert(l.records_view()[i].borrow_ulid < l.records_view()[j].borrow_ulid);
        }
    }
}

} // verus!
