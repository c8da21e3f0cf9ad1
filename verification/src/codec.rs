//! The two functions of the bridge, `decode` and `encode`.

use vstd::prelude::*;
use crate::bridge::host_of_json;
use crate::bridge::json_of_host;
use crate::bridge::to_host;
use crate::bridge::to_json;
use crate::bridge::well_formed;
use crate::failure::Failure;
use crate::json::error_text;
use crate::json::failure_text;
use crate::json::parse;
use crate::json::parsed;
use crate::json::render;
use crate::json::rendered;
use crate::json::value_model;
use crate::value::Host;
use crate::value::HostValue;
use crate::value::Kind;
use crate::value::kind_of;

verus! {

/// What `decode` makes of the parser's outcome: the host value of the
/// document, or a parse failure with the parser's message.
pub fn decoded(outcome: Result<serde_json::Value, serde_json::Error>) -> (r: Result<
    HostValue,
    Failure,
>)
    ensures
        match outcome {
            Ok(v) => r matches Ok(h) && h@ == host_of_json(value_model(v)) && well_formed(
                value_model(v),
            ),
            Err(e) => r matches Err(Failure::Parse { reason }) && reason@ == error_text(e),
        },
{
    match outcome {
        Ok(v) => Ok(to_host(&v)),
        Err(e) => Err(Failure::Parse { reason: failure_text(&e) }),
    }
}

/// What `decode` owes for an argument: the host value of the document that
/// the string holds, which is a well-formed one; a parse failure with the
/// parser's message where it holds none; and a type failure that names what
/// was found where the argument is not a string.
pub open spec fn decodes(input: Host, r: Result<HostValue, Failure>) -> bool {
    match input {
        Host::String(text) => match parsed(text) {
            Ok(j) => r matches Ok(h) && h@ == host_of_json(j) && well_formed(j),
            Err(complaint) => r matches Err(Failure::Parse { reason }) && reason@ == complaint,
        },
        _ => r matches Err(e) && e == (Failure::Type { found: kind_of(input) }),
    }
}

/// What `encode` owes for an argument: a type failure for `nil`, an
/// unsupported-type failure that names the first value that JSON cannot
/// express, and for every other value the text of its document.
pub open spec fn encodes(value: Host, r: Result<HostValue, Failure>) -> bool {
    match value {
        Host::Nil => r matches Err(e) && e == (Failure::Type { found: Kind::Nil }),
        _ => match json_of_host(value) {
            Err(k) => r matches Err(e) && e == (Failure::UnsupportedType { found: k }),
            Ok(j) => r matches Ok(h) && h@ == Host::String(rendered(j)),
        },
    }
}

/// Reads a JSON document and gives the host value that it stands for.
///
/// Fails with `Failure::Parse` where the text is not a JSON document.
pub fn decode_text(text: &[u8]) -> (r: Result<HostValue, Failure>)
    ensures
        decodes(Host::String(text@), r),
{
    decoded(parse(text))
}

/// Reads the JSON document in a host string and gives the host value that
/// it stands for.
///
/// Fails with `Failure::Type` where the argument is not a string, and with
/// `Failure::Parse` where the string is not a JSON document.
pub fn decode(input: &HostValue) -> (r: Result<HostValue, Failure>)
    ensures
        decodes(input@, r),
{
    match input {
        HostValue::String(text) => decode_text(text.as_slice()),
        _ => Err(Failure::Type { found: input.kind() }),
    }
}

/// What `encode` makes of the writer's outcome: a host string with the text,
/// or a serialize failure with the writer's message.
pub fn encoded(outcome: Result<Vec<u8>, serde_json::Error>) -> (r: Result<HostValue, Failure>)
    ensures
        match outcome {
            Ok(text) => r matches Ok(h) && h@ == Host::String(text@),
            Err(e) => r matches Err(Failure::Serialize { reason }) && reason@ == error_text(e),
        },
{
    match outcome {
        Ok(text) => Ok(HostValue::String(text)),
        Err(e) => Err(Failure::Serialize { reason: failure_text(&e) }),
    }
}

/// Writes a host value as JSON text and gives the text as a host string.
///
/// Fails with `Failure::Type` where the argument is `nil`, and with
/// `Failure::UnsupportedType` where the value holds, at any depth, something
/// that JSON cannot express. Every other value is written.
pub fn encode(value: &HostValue) -> (r: Result<HostValue, Failure>)
    ensures
        encodes(value@, r),
{
    match value {
        HostValue::Nil => Err(Failure::Type { found: Kind::Nil }),
        _ => match to_json(value) {
            Err(found) => Err(Failure::UnsupportedType { found }),
            Ok(v) => encoded(render(&v)),
        },
    }
}

} // verus!
