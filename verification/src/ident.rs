//! User identifiers: 128-bit values with a canonical hyphenated text
//! form, converted by an outside crate.

use vstd::prelude::*;

verus! {

/// The value a given text parses to, if any.  Named: parsing is a
/// function of the text alone.
pub uninterp spec fn uuid_val(s: Seq<char>) -> Option<u128>;

/// The canonical hyphenated text of an identifier.  Named: formatting
/// is a function of the value alone.
pub uninterp spec fn uuid_text(v: u128) -> Seq<char>;

/// Relies on `uuid::Uuid::parse_str` and `Uuid::as_u128`: whether the
/// text parses, and to which value, depends on the text alone.
#[verifier::external_body]
pub fn parse_uuid(s: &str) -> (r: Option<u128>)
    ensures
        r == uuid_val(s@),
{
    uuid::Uuid::parse_str(s).ok().map(|u| u.as_u128())
}

/// Relies on `uuid::Uuid::from_u128` with `Uuid::as_hyphenated`: the
/// text depends on the value alone, and `Uuid::parse_str` reads the
/// hyphenated form back to the same value.
#[verifier::external_body]
pub fn format_uuid(v: u128) -> (r: String)
    ensures
        r@ == uuid_text(v),
        uuid_val(r@) == Some(v),
{
    uuid::Uuid::from_u128(v).as_hyphenated().to_string()
}

/// Relies on `uuid::Uuid::new_v4`: a freshly drawn random identifier.
/// Nothing is assumed of its value.
#[verifier::external_body]
pub fn new_uuid_v4() -> (r: u128) {
    uuid::Uuid::new_v4().as_u128()
}

} // verus!
