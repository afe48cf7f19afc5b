//! Trusted decoders for the inbound JSON wire formats.
//!
//! Inbound text is arbitrary JSON, so decoding is delegated to
//! serde_json behind the two wrappers below. Each wrapper's result is a
//! function of its input alone and is given a name; every caller's
//! contract is stated over those names, and the verified logic takes
//! the decoded plain values from there.

use vstd::prelude::*;

verus! {

/// The string fields a signaling message can carry, as plain values.
pub struct SignalFields {
    pub kind: Option<String>,
    pub sdp: Option<String>,
    pub candidate: Option<String>,
}

/// View of an optional owned string.
pub open spec fn opt_view(o: Option<String>) -> Option<Seq<char>> {
    match o {
        Some(s) => Some(s@),
        None => None,
    }
}

/// The "type" field of signaling text `s`: its string value when `s` is
/// a JSON object carrying one, absent otherwise.
pub uninterp spec fn signal_kind_of(s: Seq<char>) -> Option<Seq<char>>;

/// The "sdp" field of signaling text `s`, when present as a string.
pub uninterp spec fn signal_sdp_of(s: Seq<char>) -> Option<Seq<char>>;

/// The "candidate" field inside the "ice" object of signaling text `s`,
/// when present as a string.
pub uninterp spec fn signal_candidate_of(s: Seq<char>) -> Option<Seq<char>>;

/// Relies on serde_json::from_str::<Value>, Value::get and
/// Value::as_str: parses the signaling text and reads out the string
/// fields "type", "sdp" and "ice"."candidate". Each field is absent
/// when the text is not valid JSON or the field is missing or not a
/// string; the result depends on the text alone.
#[verifier::external_body]
pub(crate) fn decode_signal(text: &str) -> (r: SignalFields)
    ensures
        opt_view(r.kind) == signal_kind_of(text@),
        opt_view(r.sdp) == signal_sdp_of(text@),
        opt_view(r.candidate) == signal_candidate_of(text@),
{
    let v: Option<serde_json::Value> = serde_json::from_str(text).ok();
    let kind = v.as_ref().and_then(|v| v.get("type")).and_then(|f| f.as_str()).map(String::from);
    let sdp = v.as_ref().and_then(|v| v.get("sdp")).and_then(|f| f.as_str()).map(String::from);
    let candidate = v
        .as_ref()
        .and_then(|v| v.get("ice"))
        .and_then(|o| o.get("candidate"))
        .and_then(|f| f.as_str())
        .map(String::from);
    SignalFields { kind, sdp, candidate }
}

/// The index and timestamp fields of datagram payload `b`: present when
/// `b` is UTF-8 text holding a JSON object whose "i" field is an
/// integer fitting i64 and whose "time" field is an integer fitting
/// u64, absent otherwise.
pub uninterp spec fn ping_fields_of(b: Seq<u8>) -> Option<(i64, u64)>;

/// Relies on core::str::from_utf8, serde_json::from_str::<Value>,
/// Value::get, Value::as_i64 and Value::as_u64: decodes a ping envelope
/// from a raw datagram payload. The result depends on the payload
/// alone.
#[verifier::external_body]
pub(crate) fn decode_ping(payload: &[u8]) -> (r: Option<(i64, u64)>)
    ensures
        r == ping_fields_of(payload@),
{
    let text = match core::str::from_utf8(payload) {
        Ok(t) => t,
        Err(_) => return None,
    };
    let v: serde_json::Value = match serde_json::from_str(text) {
        Ok(v) => v,
        Err(_) => return None,
    };
    let i = v.get("i").and_then(|f| f.as_i64())?;
    let t = v.get("time").and_then(|f| f.as_u64())?;
    Some((i, t))
}

} // verus!
