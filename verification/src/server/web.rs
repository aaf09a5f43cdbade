//! The management interface's view of the sample rate.

use vstd::prelude::*;

verus! {

/// A JSON value of `serde_json`.
#[verifier::external_type_specification]
#[verifier::external_body]
pub struct ExValue(serde_json::Value);

/// The members of a JSON object that are unsigned 64-bit integers, by their keys; none for a value
/// that is not an object.
pub uninterp spec fn unsigned_members(payload: serde_json::Value) -> Map<Seq<char>, u64>;

/// Calls `serde_json::Value::get` with a key and `serde_json::Value::as_u64` on what it finds.
/// Claimed is that this looks the key up among the members that are unsigned integers: the result
/// is `None` if the value is not an object, has no such member, or has one of another kind.
#[verifier::external_body]
fn unsigned_member(payload: &serde_json::Value, key: &str) -> (number: Option<u64>)
    ensures
        number == if unsigned_members(*payload).dom().contains(key@) {
            Some(unsigned_members(*payload)[key@])
        } else {
            None
        },
{
    payload.get(key).and_then(serde_json::Value::as_u64)
}

/// What a request to change the sample rate asks for.
#[derive(Debug, Clone, Copy, PartialEq, Eq, Structural)]
pub enum RateRequest {
    /// It names no rate.
    Missing,
    /// It names this rate, in Hz.
    Change { sample_rate: u32 },
}

/// What the number in a request asks for: the rate is its low 32 bits.
pub open spec fn request_for(number: Option<u64>) -> RateRequest {
    match number {
        Some(n) => RateRequest::Change { sample_rate: (n % 0x1_0000_0000) as u32 },
        None => RateRequest::Missing,
    }
}

/// The answer to a request to change the sample rate.
#[derive(Debug, Clone, PartialEq, Eq)]
pub enum RateReply {
    Refused { error: String },
    Changed { sample_rate: u32 },
}

/// Reads a request to change the sample rate.
pub fn set_sample_rate(payload: &serde_json::Value) -> (request: RateRequest)
    ensures
        request == request_for(
            if unsigned_members(*payload).dom().contains("sample_rate"@) {
                Some(unsigned_members(*payload)["sample_rate"@])
            } else {
                None
            },
        ),
{
    let number: Option<u64> = unsigned_member(payload, "sample_rate");
    requested_rate(number)
}

/// Reads the number in a request to change the sample rate.
pub fn requested_rate(number: Option<u64>) -> (request: RateRequest)
    ensures
        request == request_for(number),
{
    match number {
        Some(n) => RateRequest::Change { sample_rate: (n % 0x1_0000_0000) as u32 },
        None => RateRequest::Missing,
    }
}

/// Answers a request, given how replacing the capture failed, if it did.
pub fn rate_reply(request: RateRequest, failure: Option<String>) -> (reply: RateReply)
    ensures
        match (request, failure) {
            (RateRequest::Missing, _) => reply matches RateReply::Refused { error } && error@
                == "missing sample_rate"@,
            (RateRequest::Change { .. }, Some(reason)) => reply == (RateReply::Refused {
                error: reason,
            }),
            (RateRequest::Change { sample_rate }, None) => reply == (RateReply::Changed {
                sample_rate,
            }),
        },
{
    match request {
        RateRequest::Missing => RateReply::Refused { error: "missing sample_rate".to_string() },
        RateRequest::Change { sample_rate } => match failure {
            Some(error) => RateReply::Refused { error },
            None => RateReply::Changed { sample_rate },
        },
    }
}

/// A rate that fits in 32 bits is taken as it is.
pub proof fn law_ordinary_rates_are_kept(sample_rate: u32)
    ensures
        request_for(Some(sample_rate as u64)) == (RateRequest::Change { sample_rate }),
{
}

/// The rate asked for differs from the number in the request by a multiple of 2 to the power of 32,
/// and without a number there is nothing asked for.
pub proof fn law_rate_keeps_32_bits(number: u64)
    ensures
        request_for(Some(number)) matches RateRequest::Change { sample_rate } && (number
            - sample_rate) % 0x1_0000_0000 == 0,
        request_for(None) is Missing,
{
}

/// A request without a rate is refused, one that failed is refused with the reason, and any other is
/// answered with the rate that it asked for.
pub proof fn law_replies(request: RateRequest, failure: Option<String>, reply: RateReply)
    requires
        call_ensures(rate_reply, (request, failure), reply),
    ensures
        reply is Changed <==> request is Change && failure is None,
        reply matches RateReply::Changed { sample_rate } ==> request == (RateRequest::Change {
            sample_rate,
        }),
        request is Change ==> (failure matches Some(reason) ==> reply == (RateReply::Refused {
            error: reason,
        })),
        request is Missing ==> (reply matches RateReply::Refused { error } && error@
            == "missing sample_rate"@),
{
}

} // verus!
