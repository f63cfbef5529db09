//! The structured-data doorway. Inbound frames arrive as text; one trusted
//! reader parses a frame and pulls out, as plain values, every field the
//! engine reads. What it yields is a function of the text alone, so the
//! result carries a name that the engine's contracts speak of.

use vstd::prelude::*;

use crate::engine::FrameModel;
use serde_json::Value;
use crate::engine::RawFields;

verus! {

/// What reading one frame text yields: the extracted fields of a
/// well-formed text, nothing for a malformed one. Parsing and member
/// lookup are deterministic, so the result depends on the text alone.
pub uninterp spec fn frame_fields(text: Seq<char>) -> Option<FrameModel>;

/// Relies on `serde_json::from_str`, `serde_json::Value::get`, `as_str` and
/// `as_u64`, and `serde_json::to_string`: parse one frame text and pull out
/// each field the engine reads as a plain value — a member that is missing
/// or not of the asked-for kind is absent, and the payload is carried as
/// its canonical text. All of these read the text alone.
#[verifier::external_body]
pub(crate) fn read_frame_fields(text: &str) -> (r: Option<RawFields>)
    ensures
        (match r {
            None => frame_fields(text@) is None,
            Some(f) => frame_fields(text@) == Some(f@),
        }),
{
    let v: Value = serde_json::from_str(text).ok()?;
    let marker = v.get("client_type");
    Some(RawFields {
        client_marker_present: marker.is_some(),
        client_type: marker.and_then(Value::as_str).map(String::from),
        consumer_type: v.get("consumer_type").and_then(Value::as_str).map(String::from),
        event_type: v.get("event_type").and_then(Value::as_str).map(String::from),
        payload: v.get("payload").and_then(|x| serde_json::to_string(x).ok()),
        identifier_source: v.get("identifier_source").and_then(Value::as_str).map(String::from),
        priority: v.get("priority").and_then(Value::as_u64),
        ttl: v.get("ttl").and_then(Value::as_u64),
    })
}

} // verus!
