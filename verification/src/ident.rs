//! Identity and clock helpers. Identities are process-unique 128-bit tokens;
//! the text spelling on the wire is the usual hyphenated form.

use vstd::prelude::*;

verus! {

/// What parsing an identity text yields: the 128-bit value the text spells,
/// or nothing when the text is not a valid spelling. The result depends on
/// the text alone.
pub uninterp spec fn uuid_of_text(s: Seq<char>) -> Option<u128>;

/// Relies on `uuid::Uuid::parse_str` and `uuid::Uuid::as_u128`: parsing
/// either yields the value of the identity the text spells, or fails; which
/// of the two is a function of the text alone.
#[verifier::external_body]
pub fn parse_identity(text: &str) -> (r: Option<u128>)
    ensures
        r == uuid_of_text(text@),
{
    uuid::Uuid::parse_str(text).ok().map(|u| u.as_u128())
}

/// Relies on `uuid::Uuid::new_v4`: a freshly generated identity, drawn from
/// the process's random number generator. Nothing is promised of the value.
#[verifier::external_body]
pub fn fresh_identity() -> u128 {
    uuid::Uuid::new_v4().as_u128()
}

/// Relies on `std::time::SystemTime::now` and `duration_since`: the number
/// of whole seconds from the epoch to now, and nothing should the clock
/// stand before the epoch. Nothing is promised of the value: it is the
/// wall clock.
#[verifier::external_body]
fn clock_seconds_since_epoch() -> Option<u64> {
    std::time::SystemTime::now().duration_since(std::time::UNIX_EPOCH).map(
        |d| d.as_secs(),
    ).ok()
}

/// The ingestion timestamp: whole seconds of wall-clock time since the
/// epoch; a clock standing before the epoch reads as zero.
pub fn get_curent_timestamp() -> u64 {
    match clock_seconds_since_epoch() {
        Some(s) => s,
        None => 0,
    }
}

} // verus!
