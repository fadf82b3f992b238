//! Identifiers of connections and of players: 128-bit numbers, drawn at
//! random, and their text form.

use vstd::arithmetic::power2::pow2;
use vstd::prelude::*;

verus! {

/// The four version bits of an identifier.
pub open spec fn version_of(id: u128) -> int {
    (id as int / 0x1000_0000_0000_0000_0000) % 16
}

/// The two variant bits of an identifier.
pub open spec fn variant_of(id: u128) -> int {
    (id as int / 0x4000_0000_0000_0000) % 4
}

/// The identifier was drawn at random: it has version 4 and the variant
/// that goes with it.
pub open spec fn is_random_id(id: u128) -> bool {
    version_of(id) == 4 && variant_of(id) == 2
}

/// The lower-case digit of a value below 16.
pub open spec fn hex_digit(n: int) -> char {
    if n < 10 {
        (48 + n) as char
    } else {
        (87 + n) as char
    }
}

/// The number of hyphens before position `p` of the text form.
pub open spec fn hyphens_before(p: int) -> int {
    if p < 8 {
        0
    } else if p < 13 {
        1
    } else if p < 18 {
        2
    } else if p < 23 {
        3
    } else {
        4
    }
}

/// The text form of an identifier: its 32 hexadecimal digits in lower
/// case, most significant first, in groups of 8, 4, 4, 4 and 12 with a
/// hyphen between two groups.
pub open spec fn hyphenated(id: u128) -> Seq<char> {
    Seq::new(
        36,
        |p: int|
            if p == 8 || p == 13 || p == 18 || p == 23 {
                '-'
            } else {
                hex_digit(
                    (id as int / (pow2((4 * (31 - (p - hyphens_before(p)))) as nat) as int)) % 16,
                )
            },
    )
}

/// `Uuid::new_v4`, as a number: a fresh identifier, drawn from the random
/// numbers of the operating system. All that is known of it is its version
/// and its variant. The call panics where the operating system hands out no
/// random numbers.
#[verifier::external_body]
pub(crate) fn fresh_id() -> (id: u128)
    ensures
        is_random_id(id),
{
    uuid::Uuid::new_v4().as_u128()
}

/// `Uuid::to_hyphenated` with `to_string`, of the identifier with this
/// number: its text form.
#[verifier::external_body]
pub(crate) fn hyphenated_text(id: u128) -> (text: String)
    ensures
        text@ == hyphenated(id),
{
    uuid::Uuid::from_u128(id).to_hyphenated().to_string()
}

} // verus!
