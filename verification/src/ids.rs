//! Identifiers of decks, cards, reviews and bonuses: random version-4 UUIDs in
//! their hyphenated lower-case text form.
use vstd::prelude::*;

verus! {

/// Whether `uuid::Uuid::parse_str` accepts the text.
pub uninterp spec fn spec_uuid_text(text: Seq<char>) -> bool;

/// `Uuid::new_v4().to_string()`: a fresh random identifier. Its text is the
/// 36-character hyphenated form, which `Uuid::parse_str` reads back; nothing is
/// stated of which identifier comes out.
#[verifier::external_body]
pub(crate) fn new_id() -> (id: String)
    ensures
        id@.len() == 36,
        spec_uuid_text(id@),
{
    uuid::Uuid::new_v4().to_string()
}

/// `Uuid::parse_str(text).is_ok()`.
#[verifier::external_body]
pub(crate) fn is_uuid(text: &str) -> (ok: bool)
    ensures
        ok == spec_uuid_text(text@),
{
    uuid::Uuid::parse_str(text).is_ok()
}

} // verus!
