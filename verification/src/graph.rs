//! Values as the host holds them. A host table is shared by every value
//! that refers to it, and may hold a reference to itself; a `HostValue` is a
//! tree. This module unfolds the one into the other.

use vstd::prelude::*;
use vstd::utf8::decode_utf8;
use vstd::utf8::valid_utf8;
use crate::bridge::json_of_host;
use crate::bridge::to_json;
use crate::codec::decode_text;
use crate::codec::decodes;
use crate::codec::encode;
use crate::codec::encodes;
use crate::failure::Failure;
use crate::json::JsonNumber;
use crate::json::as_text;
use crate::json::integer_number;
use crate::json::number_model;
use crate::json::number_text;
use crate::json::shown;
use crate::value::Host;
use crate::value::HostValue;
use crate::value::Kind;
use crate::value::Mapping;

verus! {

/// A value as the host holds it: a scalar, or a reference to a table.
#[derive(Debug, PartialEq)]
pub enum Slot {
    Nil,
    Null,
    Boolean(bool),
    Integer(i64),
    Number(serde_json::Number),
    String(Vec<u8>),
    /// The table at this place in the heap.
    Table(usize),
    /// A bare pointer of the host, other than the Null Sentinel.
    LightUserData,
    Function,
    Thread,
    UserData,
    /// An error of the host, held as a value.
    Error,
}

/// A host table: the values under the keys `1..=n`, every key with its
/// value, and whether the table carries the Array Marker.
#[derive(Debug, PartialEq)]
pub struct Table {
    pub array_marker: bool,
    pub sequence: Vec<Slot>,
    pub fields: Vec<(Slot, Slot)>,
}

/// The tables that a value can reach, each at the place by which the
/// others refer to it.
#[derive(Debug, PartialEq)]
pub struct Heap {
    pub tables: Vec<Table>,
}

impl Slot {
    /// The type of this value, as the host names it.
    pub open spec fn spec_kind(&self) -> Kind {
        match self {
            Slot::Nil => Kind::Nil,
            Slot::Null => Kind::LightUserData,
            Slot::Boolean(_) => Kind::Boolean,
            Slot::Integer(_) => Kind::Integer,
            Slot::Number(_) => Kind::Number,
            Slot::String(_) => Kind::String,
            Slot::Table(_) => Kind::Table,
            Slot::LightUserData => Kind::LightUserData,
            Slot::Function => Kind::Function,
            Slot::Thread => Kind::Thread,
            Slot::UserData => Kind::UserData,
            Slot::Error => Kind::Error,
        }
    }

    /// The type of this value, as the host names it.
    pub fn kind(&self) -> (k: Kind)
        ensures
            k == self.spec_kind(),
    {
        match self {
            Slot::Nil => Kind::Nil,
            Slot::Null => Kind::LightUserData,
            Slot::Boolean(_) => Kind::Boolean,
            Slot::Integer(_) => Kind::Integer,
            Slot::Number(_) => Kind::Number,
            Slot::String(_) => Kind::String,
            Slot::Table(_) => Kind::Table,
            Slot::LightUserData => Kind::LightUserData,
            Slot::Function => Kind::Function,
            Slot::Thread => Kind::Thread,
            Slot::UserData => Kind::UserData,
            Slot::Error => Kind::Error,
        }
    }
}

/// The slot of a host number, given the JSON number of the same value where
/// there is one. A number that JSON cannot hold, an infinity or a value that
/// is not a number, is held as the Null Sentinel and so written as `null`.
pub fn number_slot(n: Option<serde_json::Number>) -> (slot: Slot)
    ensures
        slot == (match n {
            Some(held) => Slot::Number(held),
            None => Slot::Null,
        }),
{
    match n {
        Some(held) => Slot::Number(held),
        None => Slot::Null,
    }
}

/// The text under which a key stands in a mapping. A string that is UTF-8
/// is its own text, a boolean is `true` or `false`, and an integer or a
/// number is written as JSON writes it. Nothing else can be a key.
pub open spec fn key_of(key: Slot) -> Result<Seq<char>, Failure> {
    match key {
        Slot::String(bytes) => if valid_utf8(bytes@) {
            Ok(decode_utf8(bytes@))
        } else {
            Err(Failure::UnsupportedType { found: Kind::String })
        },
        Slot::Boolean(b) => Ok(
            if b {
                "true"@
            } else {
                "false"@
            },
        ),
        Slot::Integer(i) => Ok(number_text(JsonNumber::Int(i as int))),
        Slot::Number(n) => Ok(number_text(number_model(n))),
        _ => Err(Failure::UnsupportedType { found: key.spec_kind() }),
    }
}

/// The tree that a value unfolds to, on a path of tables that are being
/// unfolded around it.
///
/// A table is a sequence where it has values under `1..=n` for some `n > 0`
/// or carries the Array Marker. Only those values are in the tree, but the
/// other fields of the table are walked after them, and what would make a
/// mapping fail makes the sequence fail: nothing that cannot be written goes
/// unseen for being left out. Any other table is a mapping of all its
/// fields. A reference to a table on the path
/// is a cycle. So is any reference to a table from a path that is as long
/// as the heap, which no path that names each table once can be while a
/// table is missing from it. The walk goes in order and stops at the first
/// failure.
pub open spec fn unfolded(tables: Seq<Table>, slot: Slot, path: Seq<usize>) -> Result<Host, Failure>
    decreases tables.len() - path.len(), 0nat,
{
    match slot {
        Slot::Nil => Ok(Host::Nil),
        Slot::Null => Ok(Host::Null),
        Slot::Boolean(b) => Ok(Host::Boolean(b)),
        Slot::Integer(i) => Ok(Host::Integer(i)),
        Slot::Number(n) => Ok(Host::Number(number_model(n))),
        Slot::String(bytes) => Ok(Host::String(bytes@)),
        Slot::Table(t) => if t >= tables.len() {
            Err(Failure::MissingTable)
        } else if path.contains(t) || path.len() >= tables.len() {
            Err(Failure::CyclicReference)
        } else {
            let table = tables[t as int];
            if table.sequence@.len() > 0 || table.array_marker {
                match unfolded_items(tables, table.sequence@, path.push(t), table.sequence@.len()) {
                    Ok(items) => match refused_field(
                        tables,
                        table.fields@,
                        path.push(t),
                        table.sequence@.len(),
                        table.fields@.len(),
                    ) {
                        Some(e) => Err(e),
                        None => Ok(Host::Sequence(items)),
                    },
                    Err(e) => Err(e),
                }
            } else {
                match unfolded_fields(tables, table.fields@, path.push(t), table.fields@.len()) {
                    Ok(entries) => Ok(Host::Mapping(entries, false)),
                    Err(e) => Err(e),
                }
            }
        },
        Slot::LightUserData => Ok(Host::LightUserData),
        Slot::Function => Ok(Host::Function),
        Slot::Thread => Ok(Host::Thread),
        Slot::UserData => Ok(Host::UserData),
        Slot::Error => Ok(Host::Error),
    }
}

/// The trees of the first `n` items, or the first failure among them.
pub open spec fn unfolded_items(tables: Seq<Table>, items: Seq<Slot>, path: Seq<usize>, n: nat) -> Result<
    Seq<Host>,
    Failure,
>
    decreases tables.len() - path.len(), n + 1,
{
    if n == 0 || n > items.len() {
        Ok(Seq::empty())
    } else {
        match unfolded_items(tables, items, path, (n - 1) as nat) {
            Err(e) => Err(e),
            Ok(front) => match unfolded(tables, items[n - 1], path) {
                Err(e) => Err(e),
                Ok(h) => Ok(front.push(h)),
            },
        }
    }
}

/// The entries of the first `n` fields, or the first failure among them.
/// In each field the key is looked at before the value.
pub open spec fn unfolded_fields(
    tables: Seq<Table>,
    fields: Seq<(Slot, Slot)>,
    path: Seq<usize>,
    n: nat,
) -> Result<Seq<(Seq<char>, Host)>, Failure>
    decreases tables.len() - path.len(), n + 1,
{
    if n == 0 || n > fields.len() {
        Ok(Seq::empty())
    } else {
        match unfolded_fields(tables, fields, path, (n - 1) as nat) {
            Err(e) => Err(e),
            Ok(front) => match key_of(fields[n - 1].0) {
                Err(e) => Err(e),
                Ok(key) => match unfolded(tables, fields[n - 1].1, path) {
                    Err(e) => Err(e),
                    Ok(h) => Ok(front.push((key, h))),
                },
            },
        }
    }
}

/// Whether a key is one of `1..=span`, under which the values of a sequence
/// stand.
pub open spec fn in_sequence(key: Slot, span: nat) -> bool {
    key matches Slot::Integer(i) && 1 <= i <= span
}

/// The first failure among the first `n` fields of a table that is written
/// as a sequence of `span` values, if there is one. A field under one of
/// `1..=span` is passed over, for its value is in the sequence. In any other
/// field the key must have a text, and the value must unfold to a tree that
/// has a document.
pub open spec fn refused_field(
    tables: Seq<Table>,
    fields: Seq<(Slot, Slot)>,
    path: Seq<usize>,
    span: nat,
    n: nat,
) -> Option<Failure>
    decreases tables.len() - path.len(), n + 1,
{
    if n == 0 || n > fields.len() {
        None
    } else {
        match refused_field(tables, fields, path, span, (n - 1) as nat) {
            Some(e) => Some(e),
            None => if in_sequence(fields[n - 1].0, span) {
                None
            } else {
                match key_of(fields[n - 1].0) {
                    Err(e) => Some(e),
                    Ok(_) => match unfolded(tables, fields[n - 1].1, path) {
                        Err(e) => Some(e),
                        Ok(h) => match json_of_host(h) {
                            Err(k) => Some(Failure::UnsupportedType { found: k }),
                            Ok(_) => None,
                        },
                    },
                }
            },
        }
    }
}

/// The trees of a run of values, one for one.
pub open spec fn trees(values: Seq<HostValue>) -> Seq<Host> {
    Seq::new(values.len(), |i: int| values[i]@)
}

/// The entries of a run of keyed values, one for one.
pub open spec fn keyed_trees(entries: Seq<(String, HostValue)>) -> Seq<(Seq<char>, Host)> {
    Seq::new(entries.len(), |i: int| (entries[i].0@, entries[i].1@))
}

/// A failure among the first `n` items is the failure of every longer run.
pub(crate) proof fn items_failure_stays(tables: Seq<Table>, items: Seq<Slot>, path: Seq<usize>, n: nat, m: nat)
    requires
        n <= m <= items.len(),
        unfolded_items(tables, items, path, n) is Err,
    ensures
        unfolded_items(tables, items, path, m) == unfolded_items(tables, items, path, n),
    decreases m,
{
    if n < m {
        items_failure_stays(tables, items, path, n, (m - 1) as nat);
    }
}

/// A failure among the first `n` fields is the failure of every longer run.
pub(crate) proof fn fields_failure_stays(
    tables: Seq<Table>,
    fields: Seq<(Slot, Slot)>,
    path: Seq<usize>,
    n: nat,
    m: nat,
)
    requires
        n <= m <= fields.len(),
        unfolded_fields(tables, fields, path, n) is Err,
    ensures
        unfolded_fields(tables, fields, path, m) == unfolded_fields(tables, fields, path, n),
    decreases m,
{
    if n < m {
        fields_failure_stays(tables, fields, path, n, (m - 1) as nat);
    }
}

/// A failure among the first `n` fields is the failure of every longer run.
pub(crate) proof fn refusal_stays(
    tables: Seq<Table>,
    fields: Seq<(Slot, Slot)>,
    path: Seq<usize>,
    span: nat,
    n: nat,
    m: nat,
)
    requires
        n <= m <= fields.len(),
        refused_field(tables, fields, path, span, n) is Some,
    ensures
        refused_field(tables, fields, path, span, m) == refused_field(tables, fields, path, span, n),
    decreases m,
{
    if n < m {
        refusal_stays(tables, fields, path, span, n, (m - 1) as nat);
    }
}

/// The text under which a key stands in a mapping, or why it has none.
pub fn key_text(key: &Slot) -> (r: Result<String, Failure>)
    ensures
        match key_of(*key) {
            Ok(text) => r matches Ok(s) && s@ == text,
            Err(e) => r matches Err(f) && f == e,
        },
{
    match key {
        Slot::String(bytes) => match as_text(bytes.as_slice()) {
            Some(text) => Ok(text.to_owned()),
            None => Err(Failure::UnsupportedType { found: Kind::String }),
        },
        Slot::Boolean(b) => Ok(
            if *b {
                "true".to_owned()
            } else {
                "false".to_owned()
            },
        ),
        Slot::Integer(i) => Ok(shown(&integer_number(*i))),
        Slot::Number(n) => Ok(shown(n)),
        _ => Err(Failure::UnsupportedType { found: key.kind() }),
    }
}

/// Whether a table is on the path.
fn on_path(path: &Vec<usize>, t: usize) -> (found: bool)
    ensures
        found == path@.contains(t),
{
    let mut i: usize = 0;
    while i < path.len()
        invariant
            i <= path.len(),
            forall|k: int| 0 <= k < i ==> path@[k] != t,
        decreases path.len() - i,
    {
        if path[i] == t {
            return true;
        }
        i += 1;
    }
    false
}

fn unfold_items(heap: &Heap, items: &Vec<Slot>, path: &mut Vec<usize>) -> (r: Result<
    Vec<HostValue>,
    Failure,
>)
    ensures
        final(path)@ == old(path)@,
        match unfolded_items(heap.tables@, items@, old(path)@, items@.len()) {
            Ok(hosts) => r matches Ok(values) && trees(values@) == hosts,
            Err(e) => r matches Err(f) && f == e,
        },
    decreases heap.tables@.len() - old(path)@.len(), items@.len() + 1,
{
    let mut out: Vec<HostValue> = Vec::new();
    let mut i: usize = 0;
    proof {
        assert(trees(out@) =~= Seq::<Host>::empty());
    }
    while i < items.len()
        invariant
            i <= items.len(),
            path@ == old(path)@,
            unfolded_items(heap.tables@, items@, path@, i as nat) == Ok::<Seq<Host>, Failure>(
                trees(out@),
            ),
        decreases items.len() - i,
    {
        let ghost before = out@;
        match unfold_from(heap, &items[i], path) {
            Err(e) => {
                proof {
                    items_failure_stays(
                        heap.tables@,
                        items@,
                        path@,
                        (i + 1) as nat,
                        items@.len(),
                    );
                }
                return Err(e);
            },
            Ok(value) => {
                out.push(value);
                proof {
                    assert(trees(out@) =~= trees(before).push(value@));
                }
            },
        }
        i += 1;
    }
    Ok(out)
}

fn unfold_fields(heap: &Heap, fields: &Vec<(Slot, Slot)>, path: &mut Vec<usize>) -> (r: Result<
    Vec<(String, HostValue)>,
    Failure,
>)
    ensures
        final(path)@ == old(path)@,
        match unfolded_fields(heap.tables@, fields@, old(path)@, fields@.len()) {
            Ok(entries) => r matches Ok(values) && keyed_trees(values@) == entries,
            Err(e) => r matches Err(f) && f == e,
        },
    decreases heap.tables@.len() - old(path)@.len(), fields@.len() + 1,
{
    let mut out: Vec<(String, HostValue)> = Vec::new();
    let mut i: usize = 0;
    proof {
        assert(keyed_trees(out@) =~= Seq::<(Seq<char>, Host)>::empty());
    }
    while i < fields.len()
        invariant
            i <= fields.len(),
            path@ == old(path)@,
            unfolded_fields(heap.tables@, fields@, path@, i as nat) == Ok::<
                Seq<(Seq<char>, Host)>,
                Failure,
            >(keyed_trees(out@)),
        decreases fields.len() - i,
    {
        let ghost before = out@;
        let key = match key_text(&fields[i].0) {
            Err(e) => {
                proof {
                    fields_failure_stays(
                        heap.tables@,
                        fields@,
                        path@,
                        (i + 1) as nat,
                        fields@.len(),
                    );
                }
                return Err(e);
            },
            Ok(key) => key,
        };
        match unfold_from(heap, &fields[i].1, path) {
            Err(e) => {
                proof {
                    fields_failure_stays(
                        heap.tables@,
                        fields@,
                        path@,
                        (i + 1) as nat,
                        fields@.len(),
                    );
                }
                return Err(e);
            },
            Ok(value) => {
                let ghost entry = (key@, value@);
                out.push((key, value));
                proof {
                    assert(keyed_trees(out@) =~= keyed_trees(before).push(entry));
                }
            },
        }
        i += 1;
    }
    Ok(out)
}

/// Whether a key is one of `1..=span`.
fn key_in_sequence(key: &Slot, span: usize) -> (found: bool)
    ensures
        found == in_sequence(*key, span as nat),
{
    match key {
        Slot::Integer(i) => *i >= 1 && (*i as u64) <= (span as u64),
        _ => false,
    }
}

fn check_fields(heap: &Heap, fields: &Vec<(Slot, Slot)>, span: usize, path: &mut Vec<usize>) -> (r: Option<
    Failure,
>)
    ensures
        final(path)@ == old(path)@,
        match refused_field(heap.tables@, fields@, old(path)@, span as nat, fields@.len()) {
            Some(e) => r matches Some(f) && f == e,
            None => r is None,
        },
    decreases heap.tables@.len() - old(path)@.len(), fields@.len() + 1,
{
    let mut i: usize = 0;
    while i < fields.len()
        invariant
            i <= fields.len(),
            path@ == old(path)@,
            refused_field(heap.tables@, fields@, path@, span as nat, i as nat) is None,
        decreases fields.len() - i,
    {
        if !key_in_sequence(&fields[i].0, span) {
            let failure = match key_text(&fields[i].0) {
                Err(e) => Some(e),
                Ok(_) => match unfold_from(heap, &fields[i].1, path) {
                    Err(e) => Some(e),
                    Ok(value) => match to_json(&value) {
                        Err(found) => Some(Failure::UnsupportedType { found }),
                        Ok(_) => None,
                    },
                },
            };
            if failure.is_some() {
                proof {
                    refusal_stays(
                        heap.tables@,
                        fields@,
                        path@,
                        span as nat,
                        (i + 1) as nat,
                        fields@.len(),
                    );
                }
                return failure;
            }
        }
        i += 1;
    }
    None
}

fn unfold_from(heap: &Heap, slot: &Slot, path: &mut Vec<usize>) -> (r: Result<HostValue, Failure>)
    ensures
        final(path)@ == old(path)@,
        match unfolded(heap.tables@, *slot, old(path)@) {
            Ok(h) => r matches Ok(value) && value@ == h,
            Err(e) => r matches Err(f) && f == e,
        },
    decreases heap.tables@.len() - old(path)@.len(), 0nat,
{
    match slot {
        Slot::Nil => Ok(HostValue::Nil),
        Slot::Null => Ok(HostValue::Null),
        Slot::Boolean(b) => Ok(HostValue::Boolean(*b)),
        Slot::Integer(i) => Ok(HostValue::Integer(*i)),
        Slot::Number(n) => Ok(HostValue::Number(n.clone())),
        Slot::String(bytes) => Ok(HostValue::String(bytes.clone())),
        Slot::Table(t) => {
            if *t >= heap.tables.len() {
                return Err(Failure::MissingTable);
            }
            if on_path(path, *t) || path.len() >= heap.tables.len() {
                return Err(Failure::CyclicReference);
            }
            let table = &heap.tables[*t];
            let ghost outer = path@;
            path.push(*t);
            let r = if table.sequence.len() > 0 || table.array_marker {
                match unfold_items(heap, &table.sequence, path) {
                    Ok(items) => match check_fields(
                        heap,
                        &table.fields,
                        table.sequence.len(),
                        path,
                    ) {
                        Some(e) => Err(e),
                        None => {
                            let value = HostValue::Sequence(items);
                            proof {
                                assert(value@->Sequence_0 =~= trees(items@));
                            }
                            Ok(value)
                        },
                    },
                    Err(e) => Err(e),
                }
            } else {
                match unfold_fields(heap, &table.fields, path) {
                    Ok(entries) => {
                        let value = HostValue::Mapping(
                            Mapping { entries, array_marker: false },
                        );
                        proof {
                            assert(value@->Mapping_0 =~= keyed_trees(entries@));
                        }
                        Ok(value)
                    },
                    Err(e) => Err(e),
                }
            };
            path.pop();
            proof {
                assert(path@ =~= outer);
            }
            r
        },
        Slot::LightUserData => Ok(HostValue::LightUserData),
        Slot::Function => Ok(HostValue::Function),
        Slot::Thread => Ok(HostValue::Thread),
        Slot::UserData => Ok(HostValue::UserData),
        Slot::Error => Ok(HostValue::Error),
    }
}

/// Unfolds a value that the host holds into a tree.
///
/// Fails with `Failure::CyclicReference` where a table is reached from
/// itself, with `Failure::UnsupportedType` where a key has no text or where
/// a field that a sequence leaves out holds what JSON cannot express, and
/// with `Failure::MissingTable` where a reference leads to no table of the
/// heap.
pub fn unfold(heap: &Heap, root: &Slot) -> (r: Result<HostValue, Failure>)
    ensures
        match unfolded(heap.tables@, *root, Seq::empty()) {
            Ok(h) => r matches Ok(value) && value@ == h,
            Err(e) => r matches Err(f) && f == e,
        },
{
    let mut path: Vec<usize> = Vec::new();
    unfold_from(heap, root, &mut path)
}

/// What `decode_held` owes for an argument: what `decode` owes for a host
/// string with the same bytes, and a type failure for anything else,
/// whatever a table may hold.
pub open spec fn decodes_held(argument: Slot, r: Result<HostValue, Failure>) -> bool {
    match argument {
        Slot::String(bytes) => decodes(Host::String(bytes@), r),
        _ => r matches Err(e) && e == (Failure::Type { found: argument.spec_kind() }),
    }
}

/// What `encode_held` owes for an argument: the failure of unfolding it,
/// and otherwise what `encode` owes for the tree that it unfolds to.
pub open spec fn encodes_held(tables: Seq<Table>, argument: Slot, r: Result<HostValue, Failure>) -> bool {
    match unfolded(tables, argument, Seq::empty()) {
        Err(e) => r matches Err(f) && f == e,
        Ok(h) => encodes(h, r),
    }
}

/// `decode` for an argument as the host holds it.
pub fn decode_held(argument: &Slot) -> (r: Result<HostValue, Failure>)
    ensures
        decodes_held(*argument, r),
{
    match argument {
        Slot::String(bytes) => decode_text(bytes.as_slice()),
        _ => Err(Failure::Type { found: argument.kind() }),
    }
}

/// `encode` for an argument as the host holds it: the argument is unfolded
/// and the tree is written.
pub fn encode_held(heap: &Heap, argument: &Slot) -> (r: Result<HostValue, Failure>)
    ensures
        encodes_held(heap.tables@, *argument, r),
{
    match unfold(heap, argument) {
        Err(e) => Err(e),
        Ok(value) => encode(&value),
    }
}

} // verus!
