//! Wire format: the JSON object pushed to every subscriber, framing the
//! tick's timestamp as ISO-8601 text beside the event's own JSON. The
//! event's JSON is serialized by the caller; the framing here is exact.

use vstd::prelude::*;
use vstd::string::StringExecFns;

verus! {

/// The outcome of rendering a unix second count as ISO-8601 text, as the
/// `time` crate produces it: text exactly for the timestamps the crate
/// can render, `None` for the rest. Named only: the outcome is a function
/// of the timestamp alone, and nothing else is assumed of it.
pub uninterp spec fn iso8601_of(ts: i64) -> Option<Seq<char>>;

/// Relies on `time::OffsetDateTime::from_unix_timestamp`, which turns a
/// unix second count into a datetime and fails outside the representable
/// range, and on `OffsetDateTime::format` with the well-known ISO-8601
/// description. Both are deterministic in the timestamp alone, so the
/// whole outcome — the text or the refusal — carries the name above.
#[verifier::external_body]
pub fn format_unix_timestamp(ts: i64) -> (r: Option<String>)
    ensures
        r.deep_view() == iso8601_of(ts),
{
    match time::OffsetDateTime::from_unix_timestamp(ts) {
        Ok(t) => t.format(&time::format_description::well_known::Iso8601::DEFAULT).ok(),
        Err(_) => None,
    }
}

/// The wire envelope around a rendered timestamp and an event's JSON.
pub open spec fn envelope_text(time: Seq<char>, event_json: Seq<char>) -> Seq<char> {
    "{\"time\":\""@ + time + "\",\"event\":"@ + event_json + "}"@
}

/// Frames a rendered timestamp and an event's JSON as the wire envelope.
/// Pure concatenation: the timestamp text is quoted as-is, so it must not
/// itself hold a quote, which no ISO-8601 rendering does.
pub fn frame_envelope(time_str: &str, event_json: &str) -> (r: String)
    ensures
        r@ == envelope_text(time_str@, event_json@),
{
    let mut r = String::new();
    r.append("{\"time\":\"");
    r.append(time_str);
    r.append("\",\"event\":");
    r.append(event_json);
    r.append("}");
    proof {
        assert(r@ =~= envelope_text(time_str@, event_json@));
    }
    r
}

/// Renders the wire envelope for one event: the ISO-8601 text of `time`
/// beside the event's JSON. An envelope comes back exactly when the
/// timestamp is renderable, and then its text is fixed.
pub fn encode_envelope(time: i64, event_json: &str) -> (r: Option<String>)
    ensures
        r is Some <==> iso8601_of(time) is Some,
        r matches Some(s) ==> s@ == envelope_text(iso8601_of(time).unwrap(), event_json@),
{
    match format_unix_timestamp(time) {
        Some(t) => Some(frame_envelope(t.as_str(), event_json)),
        None => None,
    }
}

} // verus!
