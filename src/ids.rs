//! Identifiers: 128-bit values, written in the hyphenated lower-case form.
use vstd::prelude::*;

verus! {

/// The lower-case hexadecimal digit for a value below sixteen.
pub open spec fn hex_char(d: nat) -> char {
    seq!['0', '1', '2', '3', '4', '5', '6', '7', '8', '9', 'a', 'b', 'c', 'd', 'e', 'f'][d as int]
}

/// Whether `c` is a lower-case hexadecimal digit.
pub open spec fn is_hex_char(c: char) -> bool {
    ('0' <= c && c <= '9') || ('a' <= c && c <= 'f')
}

/// The `k`-th four-bit group of `id`, counted from the most significant one.
pub open spec fn nibble(id: u128, k: int) -> nat {
    ((id as nat) / (vstd::arithmetic::power::pow(16, (31 - k) as nat) as nat)) % 16
}

/// Positions of the hyphens in the textual form of an id.
pub open spec fn is_hyphen_pos(j: int) -> bool {
    j == 8 || j == 13 || j == 18 || j == 23
}

/// How many hyphens stand before position `j` of the textual form.
pub open spec fn hyphens_before(j: int) -> int {
    if j <= 8 { 0 } else if j <= 13 { 1 } else if j <= 18 { 2 } else if j <= 23 { 3 } else { 4 }
}

/// The hyphenated lower-case form of an id: 32 hex digits, most significant
/// first, grouped 8-4-4-4-12.
pub open spec fn hyphenated(id: u128) -> Seq<char> {
    Seq::new(
        36,
        |j: int|
            if is_hyphen_pos(j) {
                '-'
            } else {
                hex_char(nibble(id, j - hyphens_before(j)))
            },
    )
}

/// Whether `s` has the shape of an id's textual form.
pub open spec fn is_uuid_text(s: Seq<char>) -> bool {
    &&& s.len() == 36
    &&& forall|j: int| 0 <= j < 36 ==> (#[trigger] s[j] == '-' <==> is_hyphen_pos(j))
    &&& forall|j: int| 0 <= j < 36 && !is_hyphen_pos(j) ==> is_hex_char(#[trigger] s[j])
}

/// Every hyphenated form has the shape of an id's text.
pub proof fn lemma_hyphenated_is_uuid_text(id: u128)
    ensures
        is_uuid_text(hyphenated(id)),
{
    let s = hyphenated(id);
    assert forall|j: int| 0 <= j < 36 && !is_hyphen_pos(j) implies is_hex_char(#[trigger] s[j])
        && s[j] != '-' by {
        let d = nibble(id, j - hyphens_before(j));
        assert(d < 16);
        let t = seq!['0', '1', '2', '3', '4', '5', '6', '7', '8', '9', 'a', 'b', 'c', 'd', 'e', 'f'];
        assert(0 <= d < 16);
        assert(is_hex_char(t[d as int]));
    }
}

/// Relies on uuid's `Display` for `Uuid` (built with `Uuid::from_u128`): the
/// hyphenated lower-case form of the id's big-endian bytes.
#[verifier::external_body]
pub(crate) fn uuid_text(id: u128) -> (r: String)
    ensures
        r@ == hyphenated(id),
{
    uuid::Uuid::from_u128(id).to_string()
}

/// Relies on `uuid::Uuid::new_v4`: a random id; nothing is known of its value.
#[verifier::external_body]
pub(crate) fn fresh_id() -> (r: u128) {
    uuid::Uuid::new_v4().as_u128()
}

} // verus!
