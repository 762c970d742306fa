//! Identifiers. A UUID is held as its 128-bit value, most significant byte
//! first (the value uuid's `Uuid::as_u128` gives); the all-zero value is the
//! nil UUID.
use vstd::prelude::*;
use vstd::arithmetic::power::pow;

verus! {

/// A UUID, as its 128-bit value.
pub type Uuid = u128;

/// The nil UUID (all bits zero), as uuid's `Uuid::nil` gives it.
pub const NIL_UUID: u128 = 0u128;

/// A random (version 4, RFC 4122 variant) UUID: version nibble 4 and variant bits `10`.
pub open spec fn is_random_uuid(u: u128) -> bool {
    (u >> 76u128) & 0xfu128 == 4u128 && (u >> 62u128) & 0x3u128 == 2u128
}

/// A random UUID is never the nil UUID.
pub proof fn lemma_random_uuid_not_nil(u: u128)
    requires
        is_random_uuid(u),
    ensures
        u != NIL_UUID,
{
    assert(((u >> 76u128) & 0xfu128 == 4u128) ==> u != 0u128) by (bit_vector);
}

/// uuid's `Uuid::new_v4`, read back with `Uuid::as_u128`. The crate draws 128
/// random bits and then sets the version nibble to 4 and the variant bits to
/// `10`; that is all this contract claims: which random bits come back is left open.
#[verifier::external_body]
pub(crate) fn new_random_uuid() -> (u: u128)
    ensures
        is_random_uuid(u),
{
    uuid::Uuid::new_v4().as_u128()
}

/// The lower-case hexadecimal digit for `d < 16`.
pub open spec fn hex_digit(d: int) -> char {
    if d < 10 {
        (d + '0' as int) as char
    } else {
        (d - 10 + 'a' as int) as char
    }
}

/// The `k`-th of the 32 hexadecimal digits of `u`, most significant first.
pub open spec fn hex_digit_at(u: u128, k: int) -> char {
    hex_digit((u as int / pow(16, (31 - k) as nat)) % 16)
}

/// The 32 lower-case hexadecimal digits of `u`, most significant first.
pub open spec fn hex_digits(u: u128) -> Seq<char> {
    Seq::new(32, |k: int| hex_digit_at(u, k))
}

/// The hyphenated form of a UUID: its 32 lower-case hexadecimal digits in
/// groups of 8, 4, 4, 4 and 12, joined by `-`.
pub open spec fn hyphenated(u: u128) -> Seq<char> {
    let h = hex_digits(u);
    h.subrange(0, 8) + seq!['-'] + h.subrange(8, 12) + seq!['-'] + h.subrange(12, 16)
        + seq!['-'] + h.subrange(16, 20) + seq!['-'] + h.subrange(20, 32)
}

/// uuid's `Display` for `Uuid` (`to_string`), on the UUID whose value is `u`
/// (`Uuid::from_u128`). The crate's documentation and source render it
/// hyphenated in lower case, which the contract states.
#[verifier::external_body]
pub(crate) fn uuid_string(u: u128) -> (s: String)
    ensures
        s@ == hyphenated(u),
{
    uuid::Uuid::from_u128(u).to_string()
}

} // verus!
