//! The mapping between JSON documents and host values, in both directions.

use vstd::prelude::*;
use vstd::slice::slice_to_vec;
use vstd::utf8::decode_utf8;
use vstd::utf8::encode_utf8;
use vstd::utf8::valid_utf8;
use crate::json::Json;
use crate::json::JsonNumber;
use crate::json::Node;
use crate::json::Parts;
use crate::json::as_text;
use crate::json::assemble;
use crate::json::insert_member;
use crate::json::inspect;
use crate::json::integer_number;
use crate::json::key_order;
use crate::json::keys_of;
use crate::json::lists;
use crate::json::members;
use crate::json::models;
use crate::json::new_object;
use crate::json::object_model;
use crate::json::precedes;
use crate::json::value_model;
use crate::json::walks;
use crate::value::Host;
use crate::value::HostValue;
use crate::value::Kind;
use crate::value::Mapping;

verus! {

/// The host value that a JSON number becomes: an integer where it is one
/// that fits in 64 bits, and a number otherwise.
pub open spec fn host_of_number(n: JsonNumber) -> Host {
    match n {
        JsonNumber::Int(i) => if i64::MIN <= i <= i64::MAX {
            Host::Integer(i as i64)
        } else {
            Host::Number(n)
        },
        JsonNumber::Float(_) => Host::Number(n),
    }
}

/// The host value that a JSON document becomes.
///
/// `null` becomes the Null Sentinel, a string becomes its UTF-8 bytes, an
/// array becomes a sequence of the same length, and an object becomes a
/// mapping without the Array Marker whose entries follow the object's keys
/// in the order of strings.
pub open spec fn host_of_json(j: Json) -> Host
    decreases j,
{
    match j {
        Json::Null => Host::Null,
        Json::Bool(b) => Host::Boolean(b),
        Json::Number(n) => host_of_number(n),
        Json::String(s) => Host::String(encode_utf8(s)),
        Json::Array(items) => Host::Sequence(
            Seq::new(
                items.len(),
                |i: int|
                    if 0 <= i < items.len() {
                        host_of_json(items[i])
                    } else {
                        Host::Nil
                    },
            ),
        ),
        Json::Object(held) => Host::Mapping(
            Seq::new(
                key_order(held).len(),
                |i: int|
                    {
                        let key = key_order(held)[i];
                        if held.dom().finite() && held.dom().contains(key) {
                            (key, host_of_json(held[key]))
                        } else {
                            (key, Host::Nil)
                        }
                    },
            ),
            false,
        ),
    }
}

/// A document is well formed when each object in it has finitely many
/// members and its key order names each of them once, in the order of
/// strings.
pub open spec fn well_formed(j: Json) -> bool
    decreases j,
{
    match j {
        Json::Array(items) => forall|i: int| 0 <= i < items.len() ==> well_formed(#[trigger] items[i]),
        Json::Object(held) => {
            &&& lists(key_order(held), held)
            &&& forall|k: Seq<char>|
                held.dom().finite() && held.dom().contains(k) ==> well_formed(#[trigger] held[k])
        },
        _ => true,
    }
}

/// The document that stands for a host string: a JSON string where the
/// bytes are UTF-8, and otherwise an array of the bytes as numbers.
pub open spec fn json_of_string(bytes: Seq<u8>) -> Json {
    if valid_utf8(bytes) {
        Json::String(decode_utf8(bytes))
    } else {
        Json::Array(Seq::new(bytes.len(), |i: int| Json::Number(JsonNumber::Int(bytes[i] as int))))
    }
}

/// The document that a host value becomes, or the type of the first value
/// met, walking in order, that JSON cannot express.
///
/// `nil`, bare pointers, functions, threads, userdata and errors have no
/// counterpart. An empty
/// mapping becomes an empty array where it carries the Array Marker; every
/// other mapping becomes an object, in which a later entry replaces an
/// earlier one under the same key.
pub open spec fn json_of_host(h: Host) -> Result<Json, Kind>
    decreases h, 0nat,
{
    match h {
        Host::Nil => Err(Kind::Nil),
        Host::Null => Ok(Json::Null),
        Host::Boolean(b) => Ok(Json::Bool(b)),
        Host::Integer(i) => Ok(Json::Number(JsonNumber::Int(i as int))),
        Host::Number(n) => Ok(Json::Number(n)),
        Host::String(bytes) => Ok(json_of_string(bytes)),
        Host::Sequence(items) => match json_of_items(items, items.len()) {
            Ok(documents) => Ok(Json::Array(documents)),
            Err(k) => Err(k),
        },
        Host::Mapping(entries, marker) => if entries.len() == 0 && marker {
            Ok(Json::Array(Seq::empty()))
        } else {
            match json_of_entries(entries, entries.len()) {
                Ok(held) => Ok(Json::Object(held)),
                Err(k) => Err(k),
            }
        },
        Host::LightUserData => Err(Kind::LightUserData),
        Host::Function => Err(Kind::Function),
        Host::Thread => Err(Kind::Thread),
        Host::UserData => Err(Kind::UserData),
        Host::Error => Err(Kind::Error),
    }
}

/// The documents of the first `n` items, or the first failure among them.
pub open spec fn json_of_items(items: Seq<Host>, n: nat) -> Result<Seq<Json>, Kind>
    decreases items, n,
{
    if n == 0 || n > items.len() {
        Ok(Seq::empty())
    } else {
        match json_of_items(items, (n - 1) as nat) {
            Err(k) => Err(k),
            Ok(front) => match json_of_host(items[n - 1]) {
                Err(k) => Err(k),
                Ok(j) => Ok(front.push(j)),
            },
        }
    }
}

/// The members made by the first `n` entries, or the first failure among them.
pub open spec fn json_of_entries(entries: Seq<(Seq<char>, Host)>, n: nat) -> Result<
    Map<Seq<char>, Json>,
    Kind,
>
    decreases entries, n,
{
    if n == 0 || n > entries.len() {
        Ok(Map::empty())
    } else {
        match json_of_entries(entries, (n - 1) as nat) {
            Err(k) => Err(k),
            Ok(front) => match json_of_host(entries[n - 1].1) {
                Err(k) => Err(k),
                Ok(j) => Ok(front.insert(entries[n - 1].0, j)),
            },
        }
    }
}

proof fn precedes_is_one_way(a: Seq<char>, b: Seq<char>)
    ensures
        !(precedes(a, b) && precedes(b, a)),
    decreases a.len(),
{
    if a.len() > 0 && b.len() > 0 && a[0] == b[0] {
        precedes_is_one_way(a.drop_first(), b.drop_first());
    }
}

/// Whether `order` names every key of a set exactly once, and nothing else,
/// in the order of strings.
spec fn arranges(order: Seq<Seq<char>>, keys: Set<Seq<char>>) -> bool {
    &&& order.no_duplicates()
    &&& forall|k: Seq<char>| order.contains(k) <==> keys.contains(k)
    &&& forall|i: int, j: int| 0 <= i < j < order.len() ==> precedes(order[i], order[j])
}

proof fn rest_is_arranged(order: Seq<Seq<char>>, keys: Set<Seq<char>>)
    requires
        arranges(order, keys),
        order.len() > 0,
    ensures
        arranges(order.drop_first(), keys.remove(order[0])),
{
    let rest = order.drop_first();
    assert forall|i: int| 0 <= i < rest.len() implies rest[i] == order[i + 1] by {}
    assert forall|k: Seq<char>| rest.contains(k) <==> keys.remove(order[0]).contains(k) by {
        if rest.contains(k) {
            let at = choose|at: int| 0 <= at < rest.len() && rest[at] == k;
            assert(order[at + 1] == k);
            assert(order.contains(k));
        }
        if keys.remove(order[0]).contains(k) {
            assert(order.contains(k));
            let at = choose|at: int| 0 <= at < order.len() && order[at] == k;
            assert(rest[at - 1] == k);
        }
    }
    assert forall|i: int, j: int| 0 <= i < j < rest.len() implies precedes(rest[i], rest[j]) by {
        assert(precedes(order[i + 1], order[j + 1]));
    }
}

proof fn arrangement_is_unique(a: Seq<Seq<char>>, b: Seq<Seq<char>>, keys: Set<Seq<char>>)
    requires
        arranges(a, keys),
        arranges(b, keys),
    ensures
        a == b,
    decreases a.len(),
{
    if a.len() == 0 {
        if b.len() > 0 {
            assert(b.contains(b[0]));
            assert(a.contains(b[0]));
        }
        assert(a =~= b);
    } else {
        assert(a.contains(a[0]));
        assert(b.contains(a[0]));
        assert(b.contains(b[0]));
        assert(a.contains(b[0]));
        if a[0] != b[0] {
            let i = choose|i: int| 0 <= i < a.len() && a[i] == b[0];
            let j = choose|j: int| 0 <= j < b.len() && b[j] == a[0];
            assert(precedes(a[0], a[i]));
            assert(precedes(b[0], b[j]));
            precedes_is_one_way(a[0], b[0]);
        }
        rest_is_arranged(a, keys);
        rest_is_arranged(b, keys);
        arrangement_is_unique(a.drop_first(), b.drop_first(), keys.remove(a[0]));
        assert(a =~= seq![a[0]] + a.drop_first());
        assert(b =~= seq![b[0]] + b.drop_first());
    }
}

/// An object has one key order: whatever names its keys once each, in the
/// order of strings, is `key_order` of it.
pub proof fn listing_is_unique(a: Seq<Seq<char>>, b: Seq<Seq<char>>, held: Map<Seq<char>, Json>)
    requires
        lists(b, held),
        a == key_order(held),
    ensures
        a == b,
        lists(a, held),
{
    arrangement_is_unique(a, b, held.dom());
}

/// Converts a parsed document into the host value that it stands for.
pub fn to_host(v: &serde_json::Value) -> (h: HostValue)
    ensures
        h@ == host_of_json(value_model(*v)),
        well_formed(value_model(*v)),
    decreases value_model(*v),
{
    match inspect(v) {
        Node::Null => HostValue::Null,
        Node::Bool(b) => HostValue::Boolean(b),
        Node::Number(n) => match n.as_i64() {
            Some(i) => HostValue::Integer(i),
            None => HostValue::Number(n.clone()),
        },
        Node::String(s) => HostValue::String(slice_to_vec(s.as_str().as_bytes())),
        Node::Array(items) => {
            let ghost documents = models(items@);
            let mut out: Vec<HostValue> = Vec::new();
            let mut i: usize = 0;
            while i < items.len()
                invariant
                    i <= items.len(),
                    out@.len() == i,
                    documents == models(items@),
                    value_model(*v) == Json::Array(documents),
                    forall|k: int| 0 <= k < i ==> (#[trigger] out@[k])@ == host_of_json(documents[k]),
                    forall|k: int| 0 <= k < i ==> well_formed(#[trigger] documents[k]),
                decreases items.len() - i,
            {
                proof {
                    assert(documents[i as int] == value_model(items@[i as int]));
                    assert(decreases_to!(value_model(*v) => value_model(*v)->Array_0));
                    assert(decreases_to!(documents => documents[i as int]));
                }
                let converted = to_host(&items[i]);
                out.push(converted);
                i += 1;
            }
            let h = HostValue::Sequence(out);
            proof {
                assert(h@->Sequence_0 =~= host_of_json(value_model(*v))->Sequence_0);
            }
            h
        },
        Node::Object(m) => {
            let ghost held = object_model(*m);
            let ghost order = key_order(held);
            let entries = members(m);
            proof {
                listing_is_unique(order, keys_of(entries@), held);
                assert forall|k: int| 0 <= k < order.len() implies held.dom().contains(
                    #[trigger] order[k],
                ) by {
                    assert(order.contains(order[k]));
                }
            }
            let mut out: Vec<(String, HostValue)> = Vec::new();
            let mut i: usize = 0;
            while i < entries.len()
                invariant
                    i <= entries.len(),
                    out@.len() == i,
                    held == object_model(*m),
                    order == key_order(held),
                    value_model(*v) == Json::Object(held),
                    walks(entries@, held),
                    order == keys_of(entries@),
                    forall|k: int| 0 <= k < order.len() ==> held.dom().contains(#[trigger] order[k]),
                    forall|k: int|
                        0 <= k < i ==> (#[trigger] out@[k]).0@ == order[k] && out@[k].1@
                            == host_of_json(held[order[k]]),
                    forall|k: int| 0 <= k < i ==> well_formed(held[#[trigger] order[k]]),
                decreases entries.len() - i,
            {
                let (key, member) = entries[i];
                proof {
                    assert(entries@[i as int].1 == member);
                    assert(entries@[i as int].0@ == order[i as int]);
                    assert(value_model(*member) == held[order[i as int]]);
                    assert(held.dom().contains(order[i as int]));
                    assert(decreases_to!(value_model(*v) => value_model(*v)->Object_0));
                    assert(decreases_to!(held => held[order[i as int]]));
                }
                let converted = to_host(member);
                out.push((key.clone(), converted));
                i += 1;
            }
            let h = HostValue::Mapping(Mapping { entries: out, array_marker: false });
            proof {
                assert(h@->Mapping_0 =~= host_of_json(value_model(*v))->Mapping_0);
                assert forall|k: Seq<char>|
                    held.dom().finite() && held.dom().contains(k) implies well_formed(
                    #[trigger] held[k],
                ) by {
                    assert(order.contains(k));
                    let at = choose|at: int| 0 <= at < order.len() && order[at] == k;
                    assert(well_formed(held[order[at]]));
                }
            }
            h
        },
    }
}

/// A failure among the first `n` items is the failure of every longer run.
pub(crate) proof fn items_failure_stays(items: Seq<Host>, n: nat, m: nat)
    requires
        n <= m <= items.len(),
        json_of_items(items, n) is Err,
    ensures
        json_of_items(items, m) == json_of_items(items, n),
    decreases m,
{
    if n < m {
        items_failure_stays(items, n, (m - 1) as nat);
    }
}

/// A failure among the first `n` entries is the failure of every longer run.
pub(crate) proof fn entries_failure_stays(entries: Seq<(Seq<char>, Host)>, n: nat, m: nat)
    requires
        n <= m <= entries.len(),
        json_of_entries(entries, n) is Err,
    ensures
        json_of_entries(entries, m) == json_of_entries(entries, n),
    decreases m,
{
    if n < m {
        entries_failure_stays(entries, n, (m - 1) as nat);
    }
}

/// Builds the document that stands for a host string.
fn string_value(bytes: &Vec<u8>) -> (v: serde_json::Value)
    ensures
        value_model(v) == json_of_string(bytes@),
{
    match as_text(bytes.as_slice()) {
        Some(text) => assemble(Parts::String(text.to_owned())),
        None => {
            let mut out: Vec<serde_json::Value> = Vec::new();
            let mut i: usize = 0;
            while i < bytes.len()
                invariant
                    i <= bytes.len(),
                    out@.len() == i,
                    forall|k: int|
                        0 <= k < i ==> value_model(#[trigger] out@[k]) == Json::Number(
                            JsonNumber::Int(bytes@[k] as int),
                        ),
                decreases bytes.len() - i,
            {
                out.push(assemble(Parts::Number(integer_number(bytes[i] as i64))));
                i += 1;
            }
            proof {
                assert(models(out@) =~= json_of_string(bytes@)->Array_0);
            }
            assemble(Parts::Array(out))
        },
    }
}

/// Converts a host value into the document that stands for it, or reports
/// the type of the first value in it that JSON cannot express.
pub fn to_json(h: &HostValue) -> (r: Result<serde_json::Value, Kind>)
    ensures
        match json_of_host(h@) {
            Ok(j) => r matches Ok(v) && value_model(v) == j,
            Err(k) => r matches Err(found) && found == k,
        },
    decreases h,
{
    match h {
        HostValue::Nil => Err(Kind::Nil),
        HostValue::Null => Ok(assemble(Parts::Null)),
        HostValue::Boolean(b) => Ok(assemble(Parts::Bool(*b))),
        HostValue::Integer(i) => Ok(assemble(Parts::Number(integer_number(*i)))),
        HostValue::Number(n) => Ok(assemble(Parts::Number(n.clone()))),
        HostValue::String(bytes) => Ok(string_value(bytes)),
        HostValue::Sequence(items) => {
            let ghost hosts = h@->Sequence_0;
            let mut out: Vec<serde_json::Value> = Vec::new();
            let mut i: usize = 0;
            proof {
                assert(models(out@) =~= Seq::<Json>::empty());
            }
            while i < items.len()
                invariant
                    i <= items.len(),
                    out@.len() == i,
                    *h == HostValue::Sequence(*items),
                    h@ == Host::Sequence(hosts),
                    hosts.len() == items@.len(),
                    forall|k: int| 0 <= k < items@.len() ==> hosts[k] == (#[trigger] items@[k])@,
                    json_of_items(hosts, i as nat) == Ok::<Seq<Json>, Kind>(models(out@)),
                decreases items.len() - i,
            {
                proof {
                    assert(decreases_to!(*h => h->Sequence_0));
                    assert(decreases_to!(*items => items[i as int]));
                }
                let ghost before = out@;
                match to_json(&items[i]) {
                    Err(k) => {
                        proof {
                            items_failure_stays(hosts, (i + 1) as nat, hosts.len());
                        }
                        return Err(k);
                    },
                    Ok(v) => {
                        out.push(v);
                        proof {
                            assert(models(out@) =~= models(before).push(value_model(v)));
                        }
                    },
                }
                i += 1;
            }
            Ok(assemble(Parts::Array(out)))
        },
        HostValue::Mapping(m) => {
            let ghost entries = h@->Mapping_0;
            if m.entries.len() == 0 && m.array_marker {
                let v = assemble(Parts::Array(Vec::new()));
                proof {
                    assert(value_model(v)->Array_0 =~= Seq::<Json>::empty());
                }
                Ok(v)
            } else {
                let mut held = new_object();
                let mut i: usize = 0;
                while i < m.entries.len()
                    invariant
                        i <= m.entries.len(),
                        *h == HostValue::Mapping(*m),
                        h@ == Host::Mapping(entries, m.array_marker),
                        entries.len() == m.entries@.len(),
                        forall|k: int|
                            0 <= k < m.entries@.len() ==> entries[k] == ((
                                #[trigger] m.entries@[k]).0@, m.entries@[k].1@),
                        json_of_entries(entries, i as nat) == Ok::<Map<Seq<char>, Json>, Kind>(
                            object_model(held),
                        ),
                    decreases m.entries.len() - i,
                {
                    proof {
                        assert(decreases_to!(*h => h->Mapping_0));
                        assert(decreases_to!(*m => m.entries));
                        assert(decreases_to!(m.entries => m.entries[i as int]));
                        assert(decreases_to!(m.entries[i as int] => m.entries[i as int].1));
                    }
                    match to_json(&m.entries[i].1) {
                        Err(k) => {
                            proof {
                                entries_failure_stays(entries, (i + 1) as nat, entries.len());
                            }
                            return Err(k);
                        },
                        Ok(v) => {
                            insert_member(&mut held, m.entries[i].0.clone(), v);
                        },
                    }
                    i += 1;
                }
                Ok(assemble(Parts::Object(held)))
            }
        },
        HostValue::LightUserData => Err(Kind::LightUserData),
        HostValue::Function => Err(Kind::Function),
        HostValue::Thread => Err(Kind::Thread),
        HostValue::UserData => Err(Kind::UserData),
        HostValue::Error => Err(Kind::Error),
    }
}

} // verus!
