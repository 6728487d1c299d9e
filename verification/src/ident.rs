//! Identifiers: 128-bit UUIDs, their text and how they are drawn.

use vstd::arithmetic::power::pow;
use vstd::prelude::*;

verus! {

/// The identifier that a text stands for, as `uuid::Uuid::parse_str` reads
/// it (hyphenated, simple, braced or URN form), or `None` where it stands
/// for none.
pub uninterp spec fn parsed_uuid(s: Seq<char>) -> Option<u128>;

/// The lower-case hexadecimal digit for `n`, where `0 <= n < 16`.
pub open spec fn hex_digit(n: int) -> char {
    seq!['0', '1', '2', '3', '4', '5', '6', '7', '8', '9', 'a', 'b', 'c', 'd', 'e', 'f'][n]
}

/// The `k`-th of the 32 hexadecimal digits of `id`, counted from the most
/// significant one.
pub open spec fn nibble(id: u128, k: int) -> int {
    (id as int / pow(16, (31 - k) as nat)) % 16
}

/// How many hyphens stand before index `i` of the hyphenated form.
pub open spec fn hyphens_before(i: int) -> int {
    if i < 8 {
        0
    } else if i < 13 {
        1
    } else if i < 18 {
        2
    } else if i < 23 {
        3
    } else {
        4
    }
}

/// The hyphenated form of `id`: 32 lower-case hexadecimal digits in groups
/// of 8, 4, 4, 4 and 12, with a hyphen between two groups.
pub open spec fn hyphenated(id: u128) -> Seq<char> {
    Seq::new(
        36,
        |i: int|
            if i == 8 || i == 13 || i == 18 || i == 23 {
                '-'
            } else {
                hex_digit(nibble(id, i - hyphens_before(i)))
            },
    )
}

/// Calls `uuid::Uuid::new_v4`, which draws a random identifier. Of every
/// outcome the contract states the version digit, 4, and the variant bits
/// that the crate sets.
#[verifier::external_body]
pub(crate) fn new_v4() -> (id: u128)
    ensures
        nibble(id, 12) == 4,
        8 <= nibble(id, 16) <= 11,
{
    uuid::Uuid::new_v4().as_u128()
}

/// Calls `uuid::Uuid::to_string` on the identifier `id`. The result is its
/// hyphenated lower-case form, which `parse_str` reads back as `id`.
#[verifier::external_body]
pub(crate) fn to_hyphenated(id: u128) -> (s: String)
    ensures
        s@ == hyphenated(id),
        parsed_uuid(s@) == Some(id),
{
    uuid::Uuid::from_u128(id).to_string()
}

/// Calls `uuid::Uuid::parse_str`; the result is given the name
/// [`parsed_uuid`].
#[verifier::external_body]
pub(crate) fn parse_str(s: &str) -> (r: Option<u128>)
    ensures
        r == parsed_uuid(s@),
{
    match uuid::Uuid::parse_str(s) {
        Ok(id) => Some(id.as_u128()),
        Err(_) => None,
    }
}

} // verus!
