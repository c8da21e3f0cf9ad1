//! The failures that the bridge reports.

use vstd::prelude::*;
use vstd::string::StringExecFns;
use crate::value::Kind;

verus! {

/// Why a call of the bridge failed.
#[derive(Debug, PartialEq)]
pub enum Failure {
    /// The argument has the wrong type: `decode` takes a string, and `encode`
    /// takes a value, not its absence.
    Type { found: Kind },
    /// The text is not a JSON document. Holds the parser's own message.
    Parse { reason: String },
    /// The value holds something that JSON cannot express.
    UnsupportedType { found: Kind },
    /// A table holds itself, directly or through other tables.
    CyclicReference,
    /// The writer reported a failure. Holds the writer's own message.
    Serialize { reason: String },
    /// The host failed while a value was read from it or built in it. Holds
    /// the host's own message.
    Bridge { reason: String },
    /// A reference leads to no table: the values handed in do not hang
    /// together.
    MissingTable,
}

impl Failure {
    /// The description of this failure that the host gets to see.
    pub open spec fn spec_message(&self) -> Seq<char> {
        match self {
            Failure::Type { found } => "invalid input type: "@ + found.spec_name(),
            Failure::Parse { reason } => reason@,
            Failure::UnsupportedType { found } => "cannot serialize <"@ + found.spec_name() + ">"@,
            Failure::CyclicReference => "recursive table detected"@,
            Failure::Serialize { reason } => reason@,
            Failure::Bridge { reason } => reason@,
            Failure::MissingTable => "reference to a missing table"@,
        }
    }

    /// The description of this failure that the host gets to see.
    pub fn message(&self) -> (text: String)
        ensures
            text@ == self.spec_message(),
    {
        match self {
            Failure::Type { found } => String::from_str("invalid input type: ").concat(found.name()),
            Failure::Parse { reason } => reason.clone(),
            Failure::UnsupportedType { found } => String::from_str("cannot serialize <").concat(
                found.name(),
            ).concat(">"),
            Failure::CyclicReference => String::from_str("recursive table detected"),
            Failure::Serialize { reason } => reason.clone(),
            Failure::Bridge { reason } => reason.clone(),
            Failure::MissingTable => String::from_str("reference to a missing table"),
        }
    }
}

} // verus!
