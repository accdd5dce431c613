use vstd::prelude::*;

verus! {

/// Lower-case hexadecimal digit of `d` (`0 <= d < 16`).
pub open spec fn hex_char(d: nat) -> char {
    seq!['0', '1', '2', '3', '4', '5', '6', '7', '8', '9', 'a', 'b', 'c', 'd', 'e', 'f'][d as int]
}

/// The `i`-th hexadecimal digit of `v`, counted from the most significant.
pub open spec fn nibble(v: u128, i: int) -> nat {
    ((v as nat) / (vstd::arithmetic::power::pow(16, (31 - i) as nat) as nat)) % 16
}

/// Which hex digit stands at position `p` of the 36-character text.
pub open spec fn digit_at(p: int) -> int {
    if p < 8 {
        p
    } else if p < 13 {
        p - 1
    } else if p < 18 {
        p - 2
    } else if p < 23 {
        p - 3
    } else {
        p - 4
    }
}

/// The hyphenated text of an identifier: 32 lower-case hex digits of its
/// big-endian value, grouped 8-4-4-4-12.
pub open spec fn id_text(v: u128) -> Seq<char> {
    Seq::new(
        36,
        |p: int|
            if p == 8 || p == 13 || p == 18 || p == 23 {
                '-'
            } else {
                hex_char(nibble(v, digit_at(p)))
            },
    )
}

/// Relies on uuid's `Uuid::now_v7`: a fresh time-ordered identifier, taken
/// as its 128-bit value. Nothing is promised of the value. (uuid panics only
/// when the system clock reads earlier than 1970 or the operating system's
/// random source fails.)
#[verifier::external_body]
pub(crate) fn new_id() -> (r: u128) {
    uuid::Uuid::now_v7().as_u128()
}

/// Relies on uuid's `Uuid::from_u128` and its `Hyphenated` formatter, which
/// writes the big-endian bytes as lower-case hex grouped 8-4-4-4-12.
#[verifier::external_body]
pub(crate) fn hyphenated(id: u128) -> (r: String)
    ensures
        r@ == id_text(id),
{
    uuid::Uuid::from_u128(id).hyphenated().to_string()
}

} // verus!
