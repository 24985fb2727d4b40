//! Transaction identifiers: 128-bit values with a canonical text form.

use vstd::prelude::*;

verus! {

/// The canonical hyphenated text form of an identifier.  What the characters
/// are is known only to the identifier library; it is a function of the
/// identifier alone.
pub uninterp spec fn uuid_text_of(id: u128) -> Seq<char>;

/// Whether `c` can appear in canonical identifier text: lowercase
/// hexadecimal digits and hyphens only.
pub open spec fn uuid_text_char(c: char) -> bool {
    c == '-' || ('0' <= c && c <= '9') || ('a' <= c && c <= 'f')
}

/// Relies on `uuid::Uuid::new_v4`: a freshly drawn random identifier.
/// Nothing is promised of the value.
#[verifier::external_body]
pub(crate) fn fresh_id() -> u128 {
    uuid::Uuid::new_v4().as_u128()
}

/// Relies on `uuid::Uuid::from_u128` and the `Display` impl of `Uuid`: the
/// hyphenated lowercase form, 36 characters of hexadecimal digits and
/// hyphens, determined by the identifier alone.
#[verifier::external_body]
pub(crate) fn uuid_text(id: u128) -> (r: String)
    ensures
        r@ == uuid_text_of(id),
        r@.len() == 36,
        forall|i: int| 0 <= i < r@.len() ==> uuid_text_char(#[trigger] r@[i]),
{
    uuid::Uuid::from_u128(id).to_string()
}

/// Relies on `uuid::Uuid::parse_str`, `Uuid::from_u128` and `Uuid::as_u128`:
/// `parse_str` accepts the hyphenated form that `Display` produces, and
/// `as_u128` inverts `from_u128`, so parsing the canonical text of an
/// identifier yields that identifier back.
#[verifier::external_body]
pub(crate) fn uuid_parse(s: &str) -> (r: Option<u128>)
    ensures
        forall|id: u128| s@ == uuid_text_of(id) ==> r == Some(id),
{
    match uuid::Uuid::parse_str(s) {
        Ok(u) => Some(u.as_u128()),
        Err(_) => None,
    }
}

} // verus!
