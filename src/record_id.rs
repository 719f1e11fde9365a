//! Record identifiers: 128-bit ULIDs (a millisecond timestamp above random
//! bits), kept strictly increasing within one ledger.
use vstd::prelude::*;

verus! {

/// The Crockford base-32 text of the ULID whose bits are `bits`.
pub uninterp spec fn ulid_text(bits: u128) -> Seq<char>;

/// Relies on `ulid::Ulid::new`: a ULID from the clock and a random source.
/// Nothing is promised of its value.
#[verifier::external_body]
pub(crate) fn draw_ulid() -> (r: u128) {
    ulid::Ulid::new().0
}

/// Relies on `ulid::Ulid::to_string`: the 26-character base-32 text of the bits.
#[verifier::external_body]
pub(crate) fn ulid_to_text(bits: u128) -> (r: String)
    ensures
        r@ == ulid_text(bits),
        r@.len() == 26,
{
    ulid::Ulid(bits).to_string()
}

/// The identifier that follows `last` when `drawn` was just drawn: `drawn` if
/// it lies above `last`, else the next value after `last`; none when `last` is
/// already the largest value.
pub open spec fn next_id_after(last: Option<u128>, drawn: u128) -> Option<u128> {
    match last {
        None => Some(drawn),
        Some(l) => if drawn > l {
            Some(drawn)
        } else if l < u128::MAX {
            Some((l + 1) as u128)
        } else {
            None
        },
    }
}

/// Picks the next record identifier after `last` from a freshly drawn one.
pub fn next_record_id(last: Option<u128>, drawn: u128) -> (r: Option<u128>)
    ensures
        r == next_id_after(last, drawn),
        r matches Some(id) ==> (last matches Some(l) ==> l < id),
{
    match last {
        None => Some(drawn),
        Some(l) => if drawn > l {
            Some(drawn)
        } else if l < u128::MAX {
            Some(l + 1)
        } else {
            None
        },
    }
}

} // verus!
