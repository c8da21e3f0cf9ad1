//! The module that the host loads: what it exports, and the two ways in
//! which its functions report failure.

use vstd::prelude::*;
use crate::codec::decode;
use crate::codec::decodes;
use crate::codec::encode;
use crate::codec::encodes;
use crate::failure::Failure;
use crate::graph::Heap;
use crate::graph::Slot;
use crate::graph::decode_held;
use crate::graph::decodes_held;
use crate::graph::encode_held;
use crate::graph::encodes_held;
use crate::value::HostValue;

verus! {

/// How the functions of a module report failure to the host.
#[derive(Clone, Copy, Debug, PartialEq, Eq)]
pub enum Convention {
    /// A failure is raised as a host error.
    Raising,
    /// A call always returns a pair: the result and a description of the
    /// failure, of which exactly one is present.
    Safe,
}

/// One of the two functions of the bridge.
#[derive(Clone, Copy, Debug, PartialEq, Eq)]
pub enum Callable {
    Decode,
    Encode,
}

/// What stands behind a name in the module's export table.
#[derive(Clone, Copy, Debug, PartialEq, Eq)]
pub enum Export {
    Function(Callable),
    /// The Null Sentinel.
    Null,
    /// The Array Marker.
    ArrayMarker,
}

/// What a call hands back to the host.
#[derive(Debug, PartialEq)]
pub enum Reply {
    /// The call returns one value.
    Value(HostValue),
    /// The call returns a result and a description of the failure.
    Pair(HostValue, Option<String>),
    /// The call raises an error with this message.
    Raise(String),
}

/// What a convention makes of an outcome. Under `Raising` a success is
/// returned and a failure is raised with its message. Under `Safe` a success
/// is returned with no description, and a failure as `nil` with its message.
pub open spec fn answers(convention: Convention, outcome: Result<HostValue, Failure>, r: Reply) -> bool {
    match (convention, outcome) {
        (Convention::Raising, Ok(h)) => r == Reply::Value(h),
        (Convention::Raising, Err(e)) => r matches Reply::Raise(text) && text@ == e.spec_message(),
        (Convention::Safe, Ok(h)) => r == Reply::Pair(h, None),
        (Convention::Safe, Err(e)) => r matches Reply::Pair(HostValue::Nil, Some(text)) && text@
            == e.spec_message(),
    }
}

/// Turns the outcome of `decode` or `encode` into what the host gets back.
pub fn reply(convention: Convention, outcome: Result<HostValue, Failure>) -> (r: Reply)
    ensures
        answers(convention, outcome, r),
{
    match convention {
        Convention::Raising => match outcome {
            Ok(h) => Reply::Value(h),
            Err(e) => Reply::Raise(e.message()),
        },
        Convention::Safe => match outcome {
            Ok(h) => Reply::Pair(h, None),
            Err(e) => Reply::Pair(HostValue::Nil, Some(e.message())),
        },
    }
}

/// A loaded module: the bridge under one of the two conventions.
#[derive(Clone, Copy, Debug, PartialEq, Eq)]
pub struct Module {
    pub convention: Convention,
}

/// The module whose functions raise their failures.
pub fn ljson() -> (m: Module)
    ensures
        m.convention == Convention::Raising,
{
    Module { convention: Convention::Raising }
}

/// The module whose functions return their failures.
pub fn ljson_safe() -> (m: Module)
    ensures
        m.convention == Convention::Safe,
{
    Module { convention: Convention::Safe }
}

impl Module {
    /// Calls one of the module's functions on an argument and reports the
    /// outcome under the module's convention.
    pub fn call(&self, function: Callable, argument: &HostValue) -> (r: Reply)
        ensures
            exists|outcome: Result<HostValue, Failure>|
                (match function {
                    Callable::Decode => decodes(argument@, outcome),
                    Callable::Encode => encodes(argument@, outcome),
                }) && #[trigger] answers(self.convention, outcome, r),
    {
        let outcome = match function {
            Callable::Decode => decode(argument),
            Callable::Encode => encode(argument),
        };
        reply(self.convention, outcome)
    }

    /// Calls one of the module's functions on an argument as the host holds
    /// it, with the tables that the argument can reach, and reports the
    /// outcome under the module's convention.
    pub fn invoke(&self, function: Callable, heap: &Heap, argument: &Slot) -> (r: Reply)
        ensures
            exists|outcome: Result<HostValue, Failure>|
                (match function {
                    Callable::Decode => decodes_held(*argument, outcome),
                    Callable::Encode => encodes_held(heap.tables@, *argument, outcome),
                }) && #[trigger] answers(self.convention, outcome, r),
    {
        let outcome = match function {
            Callable::Decode => decode_held(argument),
            Callable::Encode => encode_held(heap, argument),
        };
        reply(self.convention, outcome)
    }
}

/// The names of the export table and what each is bound to.
pub open spec fn export_table() -> Seq<(Seq<char>, Export)> {
    seq![
        ("load"@, Export::Function(Callable::Decode)),
        ("decode"@, Export::Function(Callable::Decode)),
        ("dump"@, Export::Function(Callable::Encode)),
        ("encode"@, Export::Function(Callable::Encode)),
        ("null"@, Export::Null),
        ("array_mt"@, Export::ArrayMarker),
    ]
}

/// The export table of a module, the same under either convention: `load`
/// and `decode` are the decoder, `dump` and `encode` the encoder, `null` the
/// Null Sentinel and `array_mt` the Array Marker.
pub fn make_exports() -> (table: Vec<(&'static str, Export)>)
    ensures
        table@.len() == export_table().len(),
        forall|i: int|
            0 <= i < table@.len() ==> (#[trigger] table@[i]).0@ == export_table()[i].0 && table@[i].1
                == export_table()[i].1,
{
    let mut table: Vec<(&'static str, Export)> = Vec::new();
    table.push(("load", Export::Function(Callable::Decode)));
    table.push(("decode", Export::Function(Callable::Decode)));
    table.push(("dump", Export::Function(Callable::Encode)));
    table.push(("encode", Export::Function(Callable::Encode)));
    table.push(("null", Export::Null));
    table.push(("array_mt", Export::ArrayMarker));
    table
}

} // verus!
