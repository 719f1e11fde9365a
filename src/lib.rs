//! An in-memory lending tracker: a catalog of lendable books and a ledger
//! that checks them out, one quantity-bounded request at a time.
pub mod text;
pub mod record_id;
pub mod catalog;
pub mod ledger;
