use yet_another_library::catalog::{Book, Catalog};
use yet_another_library::ledger::{CheckoutError, Ledger};
use yet_another_library::record_id::next_record_id;
use yet_another_library::text::{parse_i32, trim_text};

fn starter_ledger() -> Ledger {
    Ledger::new(Catalog::starter())
}

fn quantities(l: &Ledger) -> Vec<i32> {
    l.catalog().books().iter().map(|b| b.book_quantity).collect()
}

fn single_book_ledger(quantity: i32) -> Ledger {
    let books = vec![Book::new("Only", "Someone", "7", quantity)];
    Ledger::new(Catalog::seed(books))
}

#[test]
fn checkout_records_quantity_and_takes_one_copy() {
    let mut l = starter_ledger();
    let rec = l.checkout("1", "3", 1).unwrap();
    assert_eq!(rec.book_id, "1");
    assert_eq!(rec.user_id, 1);
    assert_eq!(rec.borrow_quantity, 3);
    assert_eq!(quantities(&l), vec![9, 10]);
    assert_eq!(l.records().len(), 1);
    assert_eq!(rec.log_line(), format!("\n1,1,3,{}", rec.borrow_id));
    assert_eq!(l.records()[0].borrow_id, rec.borrow_id);
}

#[test]
fn blank_id_is_rejected_without_change() {
    let mut l = starter_ledger();
    assert_eq!(l.checkout(" ", "1", 1).err(), Some(CheckoutError::InvalidItemId));
    assert_eq!(l.checkout("", "1", 1).err(), Some(CheckoutError::InvalidItemId));
    assert_eq!(l.checkout(" \t\n\u{3000}", "1", 1).err(), Some(CheckoutError::InvalidItemId));
    assert_eq!(quantities(&l), vec![10, 10]);
    assert_eq!(l.records().len(), 0);
}

#[test]
fn unknown_id_is_rejected() {
    let mut l = starter_ledger();
    assert_eq!(l.checkout("9", "1", 1).err(), Some(CheckoutError::ItemNotFound));
    assert_eq!(quantities(&l), vec![10, 10]);
    assert_eq!(l.records().len(), 0);
}

#[test]
fn bad_quantities_are_rejected() {
    let mut l = starter_ledger();
    for q in ["abc", "-1", "", "  ", "1.5", "+", "-", "3x", "99999999999", "2147483648"] {
        assert_eq!(l.checkout("1", q, 1).err(), Some(CheckoutError::InvalidQuantity), "{q:?}");
    }
    assert_eq!(quantities(&l), vec![10, 10]);
    assert_eq!(l.records().len(), 0);
}

#[test]
fn blank_id_takes_precedence_over_bad_quantity() {
    let mut l = starter_ledger();
    assert_eq!(l.checkout("  ", "abc", 1).err(), Some(CheckoutError::InvalidItemId));
    assert_eq!(l.checkout("9", "abc", 1).err(), Some(CheckoutError::InvalidQuantity));
}

#[test]
fn empty_shelf_gives_out_of_stock() {
    let mut l = single_book_ledger(0);
    assert_eq!(l.checkout("7", "1", 1).err(), Some(CheckoutError::OutOfStock));
    assert_eq!(quantities(&l), vec![0]);
    assert_eq!(l.records().len(), 0);
}

#[test]
fn stock_never_goes_below_zero() {
    let mut l = single_book_ledger(2);
    assert!(l.checkout("7", "5", 1).is_ok());
    assert!(l.checkout("7", "5", 1).is_ok());
    for _ in 0..3 {
        assert_eq!(l.checkout("7", "1", 1).err(), Some(CheckoutError::OutOfStock));
    }
    assert_eq!(quantities(&l), vec![0]);
    assert_eq!(l.records().len(), 2);
}

#[test]
fn padded_input_is_trimmed() {
    let mut l = starter_ledger();
    let rec = l.checkout("  2\t", " 4 \n", 1).unwrap();
    assert_eq!(rec.book_id, "2");
    assert_eq!(rec.borrow_quantity, 4);
    assert_eq!(quantities(&l), vec![10, 9]);
}

#[test]
fn zero_quantity_passes_through() {
    let mut l = starter_ledger();
    let rec = l.checkout("1", "0", 1).unwrap();
    assert_eq!(rec.borrow_quantity, 0);
    assert_eq!(quantities(&l), vec![9, 10]);
}

#[test]
fn record_ids_are_distinct_and_sorted() {
    let mut l = Ledger::new(Catalog::seed(vec![Book::new("Many", "Someone", "m", 1000)]));
    for _ in 0..200 {
        l.checkout("m", "1", 1).unwrap();
    }
    let recs = l.records();
    for w in recs.windows(2) {
        assert!(w[0].borrow_ulid < w[1].borrow_ulid);
        assert!(w[0].borrow_id < w[1].borrow_id);
    }
    for r in recs.iter() {
        assert_eq!(r.borrow_id.len(), 26);
    }
}

#[test]
fn drawn_id_below_last_is_bumped() {
    let mut l = starter_ledger();
    let a = l.checkout_with_ulid("1", "1", 1, 100).unwrap();
    let b = l.checkout_with_ulid("1", "1", 1, 50).unwrap();
    let c = l.checkout_with_ulid("1", "1", 1, 500).unwrap();
    assert_eq!(a.borrow_ulid, 100);
    assert_eq!(b.borrow_ulid, 101);
    assert_eq!(c.borrow_ulid, 500);
    assert_eq!(quantities(&l), vec![7, 10]);
}

#[test]
fn record_text_is_the_ulid_encoding() {
    let mut l = starter_ledger();
    let a = l.checkout_with_ulid("1", "1", 1, 5).unwrap();
    assert_eq!(a.borrow_id, "00000000000000000000000005");
    let b = l.checkout_with_ulid("1", "1", 1, u128::MAX).unwrap();
    assert_eq!(b.borrow_id, "7ZZZZZZZZZZZZZZZZZZZZZZZZZ");
    assert_eq!(b.log_line(), "\n1,1,1,7ZZZZZZZZZZZZZZZZZZZZZZZZZ");
}

#[test]
fn identifiers_run_out_after_the_largest() {
    let mut l = starter_ledger();
    assert!(l.checkout_with_ulid("1", "1", 1, u128::MAX).is_ok());
    assert_eq!(
        l.checkout_with_ulid("1", "1", 1, 3).err(),
        Some(CheckoutError::RecordIdsExhausted)
    );
    assert_eq!(quantities(&l), vec![9, 10]);
    assert_eq!(l.records().len(), 1);
}

#[test]
fn next_record_id_cases() {
    assert_eq!(next_record_id(None, 0), Some(0));
    assert_eq!(next_record_id(Some(10), 11), Some(11));
    assert_eq!(next_record_id(Some(10), 10), Some(11));
    assert_eq!(next_record_id(Some(10), 3), Some(11));
    assert_eq!(next_record_id(Some(u128::MAX), 3), None);
}

#[test]
fn describe_lists_four_fields() {
    let mut l = starter_ledger();
    let rec = l.checkout_with_ulid("2", "12", -7, 5).unwrap();
    assert_eq!(
        rec.describe(),
        "Book ID 2\nBorrowed by User ID -7\nWith Borrow Quantity 12\nWith Borrow ULID 00000000000000000000000005"
    );
    assert_eq!(rec.log_line(), "\n2,-7,12,00000000000000000000000005");
}

#[test]
fn parse_i32_cases() {
    assert_eq!(parse_i32("0"), Some(0));
    assert_eq!(parse_i32("+5"), Some(5));
    assert_eq!(parse_i32("-0"), Some(0));
    assert_eq!(parse_i32("007"), Some(7));
    assert_eq!(parse_i32("2147483647"), Some(i32::MAX));
    assert_eq!(parse_i32("-2147483648"), Some(i32::MIN));
    assert_eq!(parse_i32("2147483648"), None);
    assert_eq!(parse_i32("-2147483649"), None);
    assert_eq!(parse_i32("18446744073709551616"), None);
    assert_eq!(parse_i32(""), None);
    assert_eq!(parse_i32("+"), None);
    assert_eq!(parse_i32("--1"), None);
    assert_eq!(parse_i32(" 1"), None);
    assert_eq!(parse_i32("١"), None);
}

#[test]
fn trim_text_cases() {
    assert_eq!(trim_text("  a b \t"), "a b");
    assert_eq!(trim_text("\u{3000}x\u{2028}"), "x");
    assert_eq!(trim_text("   "), "");
    assert_eq!(trim_text(""), "");
    assert_eq!(trim_text("x"), "x");
}

#[test]
fn starter_catalog_holds_two_books() {
    let c = Catalog::starter();
    let books = c.books();
    assert_eq!(books.len(), 2);
    assert_eq!(books[0].book_name, "Book A");
    assert_eq!(books[0].book_author, "Author A");
    assert_eq!(books[0].book_id, "1");
    assert_eq!(books[1].book_id, "2");
    assert_eq!(books[1].book_quantity, 10);
    assert_eq!(c.find(&String::from("2")), Some(1));
    assert_eq!(c.find(&String::from("3")), None);
}
