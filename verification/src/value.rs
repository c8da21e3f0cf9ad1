//! The host side of the bridge: the values of the embedding language.

use vstd::prelude::*;
use crate::json::JsonNumber;
use crate::json::number_model;

verus! {

/// The type of a host value, as the host names it.
#[derive(Clone, Copy, Debug, PartialEq, Eq)]
pub enum Kind {
    Nil,
    Boolean,
    LightUserData,
    Integer,
    Number,
    String,
    Table,
    Function,
    Thread,
    UserData,
    Error,
}

impl Kind {
    /// The host's name for this type.
    pub open spec fn spec_name(self) -> Seq<char> {
        match self {
            Kind::Nil => "nil"@,
            Kind::Boolean => "boolean"@,
            Kind::LightUserData => "lightuserdata"@,
            Kind::Integer => "integer"@,
            Kind::Number => "number"@,
            Kind::String => "string"@,
            Kind::Table => "table"@,
            Kind::Function => "function"@,
            Kind::Thread => "thread"@,
            Kind::UserData => "userdata"@,
            Kind::Error => "error"@,
        }
    }

    /// The host's name for this type.
    pub fn name(self) -> (text: &'static str)
        ensures
            text@ == self.spec_name(),
    {
        match self {
            Kind::Nil => "nil",
            Kind::Boolean => "boolean",
            Kind::LightUserData => "lightuserdata",
            Kind::Integer => "integer",
            Kind::Number => "number",
            Kind::String => "string",
            Kind::Table => "table",
            Kind::Function => "function",
            Kind::Thread => "thread",
            Kind::UserData => "userdata",
            Kind::Error => "error",
        }
    }
}

/// A host value as a mathematical value.
pub enum Host {
    Nil,
    Null,
    Boolean(bool),
    Integer(i64),
    Number(JsonNumber),
    String(Seq<u8>),
    Sequence(Seq<Host>),
    Mapping(Seq<(Seq<char>, Host)>, bool),
    LightUserData,
    Function,
    Thread,
    UserData,
    Error,
}

/// A mapping from text keys to host values. Where a key occurs more than
/// once, the last entry counts.
#[derive(Debug, PartialEq)]
pub struct Mapping {
    pub entries: Vec<(String, HostValue)>,
    /// The Array Marker: an empty mapping that carries it is an empty array.
    pub array_marker: bool,
}

/// A value of the embedding host.
#[derive(Debug, PartialEq)]
pub enum HostValue {
    /// The host's own absence of a value.
    Nil,
    /// The Null Sentinel, which stands for JSON `null`.
    Null,
    Boolean(bool),
    Integer(i64),
    /// A number that is not an `Integer`.
    Number(serde_json::Number),
    /// A host string: any sequence of bytes.
    String(Vec<u8>),
    Sequence(Vec<HostValue>),
    Mapping(Mapping),
    /// A bare pointer of the host, other than the Null Sentinel.
    LightUserData,
    Function,
    Thread,
    UserData,
    /// An error of the host, held as a value.
    Error,
}

impl HostValue {
    pub open spec fn view(&self) -> Host
        decreases self,
    {
        match self {
            HostValue::Nil => Host::Nil,
            HostValue::Null => Host::Null,
            HostValue::Boolean(b) => Host::Boolean(*b),
            HostValue::Integer(i) => Host::Integer(*i),
            HostValue::Number(n) => Host::Number(number_model(*n)),
            HostValue::String(bytes) => Host::String(bytes@),
            HostValue::Sequence(items) => Host::Sequence(
                Seq::new(
                    items@.len(),
                    |i: int|
                        if 0 <= i < items@.len() {
                            items@[i].view()
                        } else {
                            Host::Nil
                        },
                ),
            ),
            HostValue::Mapping(m) => Host::Mapping(
                Seq::new(
                    m.entries@.len(),
                    |i: int|
                        if 0 <= i < m.entries@.len() {
                            (m.entries@[i].0@, m.entries@[i].1.view())
                        } else {
                            (Seq::empty(), Host::Nil)
                        },
                ),
                m.array_marker,
            ),
            HostValue::LightUserData => Host::LightUserData,
            HostValue::Function => Host::Function,
            HostValue::Thread => Host::Thread,
            HostValue::UserData => Host::UserData,
            HostValue::Error => Host::Error,
        }
    }

    /// The type of this value, as the host names it.
    pub fn kind(&self) -> (k: Kind)
        ensures
            k == kind_of(self@),
    {
        match self {
            HostValue::Nil => Kind::Nil,
            HostValue::Null => Kind::LightUserData,
            HostValue::Boolean(_) => Kind::Boolean,
            HostValue::Integer(_) => Kind::Integer,
            HostValue::Number(_) => Kind::Number,
            HostValue::String(_) => Kind::String,
            HostValue::Sequence(_) => Kind::Table,
            HostValue::Mapping(_) => Kind::Table,
            HostValue::LightUserData => Kind::LightUserData,
            HostValue::Function => Kind::Function,
            HostValue::Thread => Kind::Thread,
            HostValue::UserData => Kind::UserData,
            HostValue::Error => Kind::Error,
        }
    }
}

impl Clone for HostValue {
    /// A copy that holds the same value at every depth.
    fn clone(&self) -> (copy: Self)
        ensures
            copy@ == self@,
        decreases self,
    {
        match self {
            HostValue::Nil => HostValue::Nil,
            HostValue::Null => HostValue::Null,
            HostValue::Boolean(b) => HostValue::Boolean(*b),
            HostValue::Integer(i) => HostValue::Integer(*i),
            HostValue::Number(n) => HostValue::Number(n.clone()),
            HostValue::String(bytes) => HostValue::String(bytes.clone()),
            HostValue::Sequence(items) => {
                let mut out: Vec<HostValue> = Vec::new();
                let mut i: usize = 0;
                while i < items.len()
                    invariant
                        i <= items.len(),
                        out@.len() == i,
                        *self == HostValue::Sequence(*items),
                        forall|k: int| 0 <= k < i ==> (#[trigger] out@[k])@ == items@[k]@,
                    decreases items.len() - i,
                {
                    proof {
                        assert(decreases_to!(*self => self->Sequence_0));
                        assert(decreases_to!(*items => items[i as int]));
                    }
                    out.push(items[i].clone());
                    i += 1;
                }
                let copy = HostValue::Sequence(out);
                proof {
                    assert(copy@->Sequence_0 =~= self@->Sequence_0);
                }
                copy
            },
            HostValue::Mapping(m) => {
                proof {
                    assert(decreases_to!(*self => self->Mapping_0));
                }
                HostValue::Mapping(m.clone())
            },
            HostValue::LightUserData => HostValue::LightUserData,
            HostValue::Function => HostValue::Function,
            HostValue::Thread => HostValue::Thread,
            HostValue::UserData => HostValue::UserData,
            HostValue::Error => HostValue::Error,
        }
    }
}

impl Clone for Mapping {
    /// A copy with the same entries and the same marker.
    fn clone(&self) -> (copy: Self)
        ensures
            HostValue::Mapping(copy)@ == HostValue::Mapping(*self)@,
        decreases self,
    {
        let mut out: Vec<(String, HostValue)> = Vec::new();
        let mut i: usize = 0;
        while i < self.entries.len()
            invariant
                i <= self.entries.len(),
                out@.len() == i,
                forall|k: int|
                    0 <= k < i ==> (#[trigger] out@[k]).0@ == self.entries@[k].0@ && out@[k].1@
                        == self.entries@[k].1@,
            decreases self.entries.len() - i,
        {
            proof {
                assert(decreases_to!(*self => self.entries));
                assert(decreases_to!(self.entries => self.entries[i as int]));
                assert(decreases_to!(self.entries[i as int] => self.entries[i as int].1));
            }
            out.push((self.entries[i].0.clone(), self.entries[i].1.clone()));
            i += 1;
        }
        let copy = Mapping { entries: out, array_marker: self.array_marker };
        proof {
            assert(HostValue::Mapping(copy)@->Mapping_0 =~= HostValue::Mapping(*self)@->Mapping_0);
        }
        copy
    }
}

/// The type of a host value. The Null Sentinel is a light userdata, and
/// sequences and mappings are both tables.
pub open spec fn kind_of(h: Host) -> Kind {
    match h {
        Host::Nil => Kind::Nil,
        Host::Null => Kind::LightUserData,
        Host::Boolean(_) => Kind::Boolean,
        Host::Integer(_) => Kind::Integer,
        Host::Number(_) => Kind::Number,
        Host::String(_) => Kind::String,
        Host::Sequence(_) => Kind::Table,
        Host::Mapping(_, _) => Kind::Table,
        Host::LightUserData => Kind::LightUserData,
        Host::Function => Kind::Function,
        Host::Thread => Kind::Thread,
        Host::UserData => Kind::UserData,
        Host::Error => Kind::Error,
    }
}

} // verus!
