//! Identities of players, teams and games.  An identity is a UUID, held as
//! its 128-bit value.

use vstd::arithmetic::power::pow;
use vstd::prelude::*;

verus! {

/// The version and variant bits of an identity.
pub const ID_KIND_MASK: u128 = 0xF000_C000_0000_0000_0000;

/// What the version and variant bits of a freshly made identity hold:
/// version 4, variant 1.
pub const ID_KIND_RANDOM: u128 = 0x4000_8000_0000_0000_0000;

/// The sixteen hexadecimal digits, in lower case.
pub open spec fn hex_digits() -> Seq<char> {
    seq!['0', '1', '2', '3', '4', '5', '6', '7', '8', '9', 'a', 'b', 'c', 'd', 'e', 'f']
}

/// The `k`-th of the 32 hexadecimal digits of `id`, the most significant
/// first.
pub open spec fn hex_digit_at(id: u128, k: int) -> char {
    hex_digits()[(id as int / pow(16, (31 - k) as nat)) % 16]
}

/// How many hyphens stand before position `i` of the hyphenated form.
pub open spec fn hyphens_before(i: int) -> int {
    (if i > 8 { 1int } else { 0 }) + (if i > 13 { 1int } else { 0 }) + (if i > 18 { 1int } else { 0 })
        + (if i > 23 { 1int } else { 0 })
}

/// The hyphenated form of an identity: its 32 hexadecimal digits in lower
/// case, in groups of 8, 4, 4, 4 and 12 with a hyphen between two groups.
pub open spec fn hyphenated(id: u128) -> Seq<char> {
    Seq::new(
        36,
        |i: int|
            if i == 8 || i == 13 || i == 18 || i == 23 {
                '-'
            } else {
                hex_digit_at(id, i - hyphens_before(i))
            },
    )
}

/// A new random identity, from `uuid::Uuid::new_v4`.  Nothing is known of
/// the value but its version and variant bits, which the call sets.
#[verifier::external_body]
pub(crate) fn fresh_id() -> (id: u128)
    ensures
        id & ID_KIND_MASK == ID_KIND_RANDOM,
{
    uuid::Uuid::new_v4().as_u128()
}

/// The text of an identity, from the `Display` of `uuid::Uuid`, which writes
/// the hyphenated form in lower case.
#[verifier::external_body]
pub(crate) fn id_text(id: u128) -> (text: String)
    ensures
        text@ == hyphenated(id),
{
    uuid::Uuid::from_u128(id).to_string()
}

} // verus!
