//! What holds of the bridge as a whole, proved from the definitions of its
//! two directions.

use vstd::prelude::*;
use vstd::utf8::decode_utf8_encode_utf8;
use vstd::utf8::encode_utf8_decode_utf8;
use vstd::utf8::encode_utf8_valid_utf8;
use vstd::utf8::valid_utf8;
use crate::bridge::host_of_json;
use crate::bridge::json_of_entries;
use crate::bridge::json_of_host;
use crate::bridge::json_of_items;
use crate::bridge::well_formed;
use crate::codec::decodes;
use crate::codec::encodes;
use crate::failure::Failure;
use crate::graph::Slot;
use crate::graph::Table;
use crate::graph::in_sequence;
use crate::graph::key_of;
use crate::graph::refused_field;
use crate::graph::unfolded;
use crate::graph::unfolded_fields;
use crate::graph::unfolded_items;
use crate::json::Json;
use crate::json::JsonNumber;
use crate::json::lists;
use crate::json::key_order;
use crate::json::parsed;
use crate::json::rendered;
use crate::module::Convention;
use crate::module::Reply;
use crate::module::answers;
use crate::value::kind_of;
use crate::value::Host;
use crate::value::HostValue;
use crate::value::Kind;

verus! {

/// The members of an object that its first `n` keys lead to.
pub open spec fn leading_members(held: Map<Seq<char>, Json>, n: nat) -> Map<Seq<char>, Json> {
    Map::new(
        |k: Seq<char>| exists|i: int| 0 <= i < n && i < key_order(held).len() && key_order(held)[i] == k,
        |k: Seq<char>| held[k],
    )
}

proof fn items_survive(items: Seq<Json>, n: nat)
    requires
        n <= items.len(),
        forall|i: int| 0 <= i < items.len() ==> well_formed(#[trigger] items[i]),
    ensures
        json_of_items(host_of_json(Json::Array(items))->Sequence_0, n) == Ok::<Seq<Json>, Kind>(
            items.take(n as int),
        ),
    decreases items, n,
{
    let hosts = host_of_json(Json::Array(items))->Sequence_0;
    if n == 0 {
        assert(items.take(0) =~= Seq::<Json>::empty());
    } else {
        items_survive(items, (n - 1) as nat);
        document_survives(items[n - 1]);
        assert(hosts[n - 1] == host_of_json(items[n - 1]));
        assert(items.take(n as int) =~= items.take(n - 1).push(items[n - 1]));
    }
}

proof fn members_survive(held: Map<Seq<char>, Json>, n: nat)
    requires
        n <= key_order(held).len(),
        well_formed(Json::Object(held)),
    ensures
        json_of_entries(host_of_json(Json::Object(held))->Mapping_0, n) == Ok::<
            Map<Seq<char>, Json>,
            Kind,
        >(leading_members(held, n)),
    decreases held, n,
{
    let order = key_order(held);
    let entries = host_of_json(Json::Object(held))->Mapping_0;
    if n == 0 {
        assert(leading_members(held, 0) =~= Map::<Seq<char>, Json>::empty());
    } else {
        let key = order[n - 1];
        assert(order.contains(key));
        members_survive(held, (n - 1) as nat);
        document_survives(held[key]);
        assert(entries[n - 1] == (key, host_of_json(held[key])));
        assert(leading_members(held, n) =~= leading_members(held, (n - 1) as nat).insert(
            key,
            held[key],
        ));
    }
}

/// A well-formed document that is turned into a host value and back is the
/// same document again: nothing that JSON can say is lost in the host.
pub proof fn document_survives(j: Json)
    requires
        well_formed(j),
    ensures
        json_of_host(host_of_json(j)) == Ok::<Json, Kind>(j),
    decreases j, 0nat,
{
    match j {
        Json::String(s) => {
            encode_utf8_valid_utf8(s);
            encode_utf8_decode_utf8(s);
        },
        Json::Array(items) => {
            items_survive(items, items.len());
            assert(items.take(items.len() as int) =~= items);
        },
        Json::Object(held) => {
            let order = key_order(held);
            members_survive(held, order.len());
            assert forall|k: Seq<char>| held.dom().contains(k) implies leading_members(
                held,
                order.len(),
            ).dom().contains(k) by {
                assert(order.contains(k));
            }
            assert forall|k: Seq<char>|
                leading_members(held, order.len()).dom().contains(k) implies held.dom().contains(
                k,
            ) by {
                let i = choose|i: int| 0 <= i < order.len() && order[i] == k;
                assert(order.contains(order[i]));
            }
            assert(leading_members(held, order.len()) =~= held);
        },
        _ => {},
    }
}

/// Decoding a text and encoding the result writes the very document that
/// was read: the new text differs from the old one at most in what the
/// writer chooses, never in what it says. The second step never fails.
pub proof fn decode_then_encode(
    text: Seq<u8>,
    decoded: Result<HostValue, Failure>,
    encoded: Result<HostValue, Failure>,
)
    requires
        decodes(Host::String(text), decoded),
        decoded matches Ok(h) && encodes(h@, encoded),
    ensures
        parsed(text) is Ok,
        encoded matches Ok(written) && written@ == Host::String(rendered(parsed(text)->Ok_0)),
{
    document_survives(parsed(text)->Ok_0);
}

/// `decode` refuses whatever is not a string, and says what it found: under
/// the raising convention the failure is raised, and under the safe
/// convention the call returns nothing together with the same message.
pub proof fn non_string_is_refused(
    convention: Convention,
    argument: Host,
    decoded: Result<HostValue, Failure>,
    r: Reply,
)
    requires
        !(argument is String),
        decodes(argument, decoded),
        answers(convention, decoded, r),
    ensures
        decoded matches Err(e) && e == (Failure::Type { found: kind_of(argument) }),
        match convention {
            Convention::Raising => r matches Reply::Raise(text) && text@ == "invalid input type: "@
                + kind_of(argument).spec_name(),
            Convention::Safe => r matches Reply::Pair(HostValue::Nil, Some(text)) && text@
                == "invalid input type: "@ + kind_of(argument).spec_name(),
        },
{
}

/// Under the safe convention a call returns either a result or a message,
/// never both and never neither, and no failure goes unreported.
pub proof fn safe_reply_is_one_of_two(outcome: Result<HostValue, Failure>, r: Reply)
    requires
        answers(Convention::Safe, outcome, r),
    ensures
        r matches Reply::Pair(value, message) && (match outcome {
            Ok(h) => value == h && message is None,
            Err(e) => value == HostValue::Nil && (message matches Some(text) && text@
                == e.spec_message()),
        }),
{
}

/// Under the raising convention a call returns its result or raises the
/// message of its failure.
pub proof fn raising_reply_is_one_of_two(outcome: Result<HostValue, Failure>, r: Reply)
    requires
        answers(Convention::Raising, outcome, r),
    ensures
        match outcome {
            Ok(h) => r == Reply::Value(h),
            Err(e) => r matches Reply::Raise(text) && text@ == e.spec_message(),
        },
{
}

/// Whether a host value is built only from what JSON can express: the Null
/// Sentinel, booleans, integers, numbers, strings, sequences and mappings,
/// at every depth.
pub open spec fn supported(h: Host) -> bool
    decreases h,
{
    match h {
        Host::Null => true,
        Host::Boolean(_) => true,
        Host::Integer(_) => true,
        Host::Number(_) => true,
        Host::String(_) => true,
        Host::Sequence(items) => forall|i: int| 0 <= i < items.len() ==> supported(#[trigger] items[i]),
        Host::Mapping(entries, _) => forall|i: int|
            0 <= i < entries.len() ==> supported((#[trigger] entries[i]).1),
        _ => false,
    }
}

/// Whether a document is of the kind that a host value asks for: `null` for
/// the Null Sentinel, a boolean for a boolean, a number for an integer or a
/// number, a string for a string that is UTF-8 and an array of its bytes
/// for one that is not, an array of the same length for a sequence, an empty
/// array for an empty mapping with the Array Marker, and an object for any
/// other mapping.
pub open spec fn follows_kind(h: Host, j: Json) -> bool {
    match h {
        Host::Null => j is Null,
        Host::Boolean(b) => j == Json::Bool(b),
        Host::Integer(i) => j == Json::Number(JsonNumber::Int(i as int)),
        Host::Number(n) => j == Json::Number(n),
        Host::String(bytes) => if valid_utf8(bytes) {
            j is String
        } else {
            j matches Json::Array(items) && items.len() == bytes.len()
        },
        Host::Sequence(items) => j matches Json::Array(documents) && documents.len() == items.len(),
        Host::Mapping(entries, marker) => if entries.len() == 0 && marker {
            j == Json::Array(Seq::empty())
        } else {
            j is Object
        },
        _ => false,
    }
}

proof fn run_of_entries(entries: Seq<(Seq<char>, Host)>, n: nat)
    requires
        n <= entries.len(),
    ensures
        json_of_entries(entries, n) is Ok <==> forall|i: int|
            0 <= i < n ==> json_of_host((#[trigger] entries[i]).1) is Ok,
    decreases n,
{
    if n > 0 {
        run_of_entries(entries, (n - 1) as nat);
    }
}

proof fn run_of_items(items: Seq<Host>, n: nat)
    requires
        n <= items.len(),
    ensures
        json_of_items(items, n) is Ok <==> forall|i: int|
            0 <= i < n ==> json_of_host(#[trigger] items[i]) is Ok,
    decreases n,
{
    if n > 0 {
        run_of_items(items, (n - 1) as nat);
    }
}

/// A host value has a document exactly when it is built only from what JSON
/// can express, and the document is of the kind that the value asks for.
pub proof fn document_iff_supported(h: Host)
    ensures
        json_of_host(h) is Ok <==> supported(h),
        json_of_host(h) matches Ok(j) ==> follows_kind(h, j),
    decreases h,
{
    match h {
        Host::Sequence(items) => {
            run_of_items(items, items.len());
            run_documents(items, items.len());
            assert forall|i: int| 0 <= i < items.len() implies (json_of_host(#[trigger] items[i]) is Ok
                <==> supported(items[i])) by {
                document_iff_supported(items[i]);
            }
        },
        Host::Mapping(entries, _) => {
            run_of_entries(entries, entries.len());
            assert forall|i: int| 0 <= i < entries.len() implies (json_of_host(
                (#[trigger] entries[i]).1,
            ) is Ok <==> supported(entries[i].1)) by {
                document_iff_supported(entries[i].1);
            }
        },
        _ => {},
    }
}

/// Encoding never fails on a value that is built only from what JSON can
/// express: it gives the text of a document of the kind that the value asks
/// for. On any other value but `nil` it fails for an unsupported type.
pub proof fn supported_value_is_written(value: Host, encoded: Result<HostValue, Failure>)
    requires
        encodes(value, encoded),
    ensures
        supported(value) ==> (json_of_host(value) matches Ok(j) && follows_kind(value, j) && (
        encoded matches Ok(written) && written@ == Host::String(rendered(j)))),
        !supported(value) && !(value is Nil) ==> (encoded matches Err(e) && e is UnsupportedType),
{
    document_iff_supported(value);
}

/// Whether a host value is a function or holds one at any depth.
pub open spec fn holds_function(h: Host) -> bool
    decreases h,
{
    match h {
        Host::Function => true,
        Host::Sequence(items) => exists|i: int|
            0 <= i < items.len() && holds_function(#[trigger] items[i]),
        Host::Mapping(entries, _) => exists|i: int|
            0 <= i < entries.len() && holds_function((#[trigger] entries[i]).1),
        _ => false,
    }
}

proof fn failing_item_fails_the_run(items: Seq<Host>, at: int)
    requires
        0 <= at < items.len(),
        json_of_host(items[at]) is Err,
    ensures
        json_of_items(items, items.len()) is Err,
{
    crate::bridge::items_failure_stays(items, (at + 1) as nat, items.len());
}

proof fn failing_entry_fails_the_run(entries: Seq<(Seq<char>, Host)>, at: int)
    requires
        0 <= at < entries.len(),
        json_of_host(entries[at].1) is Err,
    ensures
        json_of_entries(entries, entries.len()) is Err,
{
    crate::bridge::entries_failure_stays(entries, (at + 1) as nat, entries.len());
}

/// A host value that holds a function has no document.
pub proof fn function_has_no_document(h: Host)
    requires
        holds_function(h),
    ensures
        json_of_host(h) is Err,
    decreases h,
{
    match h {
        Host::Sequence(items) => {
            let at = choose|i: int| 0 <= i < items.len() && holds_function(#[trigger] items[i]);
            function_has_no_document(items[at]);
            failing_item_fails_the_run(items, at);
        },
        Host::Mapping(entries, _) => {
            let at = choose|i: int|
                0 <= i < entries.len() && holds_function((#[trigger] entries[i]).1);
            function_has_no_document(entries[at].1);
            failing_entry_fails_the_run(entries, at);
        },
        _ => {},
    }
}

/// Encoding a value that holds a function fails, and the failure says that
/// a type is unsupported.
pub proof fn function_is_unsupported(value: Host, encoded: Result<HostValue, Failure>)
    requires
        holds_function(value),
        encodes(value, encoded),
    ensures
        encoded matches Err(e) && e is UnsupportedType,
{
    function_has_no_document(value);
}

/// The number that a host value is, where it is one. An integer and a
/// number that hold the same integer are the same number.
pub open spec fn number_of(h: Host) -> Option<JsonNumber> {
    match h {
        Host::Integer(i) => Some(JsonNumber::Int(i as int)),
        Host::Number(n) => Some(n),
        _ => None,
    }
}

/// The place of the last of the first `n` entries that stands under a key,
/// or `-1` where none does.
pub open spec fn last_under(entries: Seq<(Seq<char>, Host)>, key: Seq<char>, n: nat) -> int
    decreases n,
{
    if n == 0 || n > entries.len() {
        -1
    } else if entries[n - 1].0 == key {
        n - 1
    } else {
        last_under(entries, key, (n - 1) as nat)
    }
}

/// Whether two host values say the same thing.
///
/// Numbers are compared by what they hold, whichever of the two forms they
/// have. Sequences are compared item by item. Mappings are compared by what
/// each key leads to, whatever the order of the entries; an empty mapping
/// with the Array Marker is an empty sequence, and an empty mapping without
/// it is not. Everything else is compared as it stands.
pub open spec fn same_value(a: Host, b: Host) -> bool
    decreases a,
{
    match a {
        Host::Integer(_) => number_of(a) == number_of(b),
        Host::Number(_) => number_of(a) == number_of(b),
        Host::Sequence(xs) => match b {
            Host::Sequence(ys) => xs.len() == ys.len() && forall|i: int|
                0 <= i < xs.len() ==> same_value(#[trigger] xs[i], ys[i]),
            Host::Mapping(fs, marker) => xs.len() == 0 && fs.len() == 0 && marker,
            _ => false,
        },
        Host::Mapping(es, marker) => match b {
            Host::Sequence(ys) => es.len() == 0 && marker && ys.len() == 0,
            Host::Mapping(fs, other) => {
                &&& (es.len() == 0 && marker) == (fs.len() == 0 && other)
                &&& forall|i: int|
                    0 <= i < es.len() && last_under(es, (#[trigger] es[i]).0, es.len()) == i ==> {
                        let at = last_under(fs, es[i].0, fs.len());
                        at >= 0 && same_value(es[i].1, fs[at].1)
                    }
                &&& forall|i: int|
                    0 <= i < fs.len() ==> last_under(es, (#[trigger] fs[i]).0, es.len()) >= 0
            },
            _ => false,
        },
        _ => a == b,
    }
}

/// Whether every string in a host value, at any depth, is UTF-8.
pub open spec fn text_only(h: Host) -> bool
    decreases h,
{
    match h {
        Host::String(bytes) => valid_utf8(bytes),
        Host::Sequence(items) => forall|i: int| 0 <= i < items.len() ==> text_only(#[trigger] items[i]),
        Host::Mapping(entries, _) => forall|i: int|
            0 <= i < entries.len() ==> text_only((#[trigger] entries[i]).1),
        _ => true,
    }
}

proof fn last_under_finds(entries: Seq<(Seq<char>, Host)>, key: Seq<char>, n: nat)
    requires
        n <= entries.len(),
    ensures
        ({
            let at = last_under(entries, key, n);
            &&& -1 <= at < n
            &&& at >= 0 ==> entries[at].0 == key
            &&& forall|i: int| at < i < n ==> (#[trigger] entries[i]).0 != key
        }),
    decreases n,
{
    if n > 0 && entries[n - 1].0 != key {
        last_under_finds(entries, key, (n - 1) as nat);
    }
}

proof fn run_documents(items: Seq<Host>, n: nat)
    requires
        n <= items.len(),
    ensures
        json_of_items(items, n) matches Ok(documents) ==> documents.len() == n && forall|i: int|
            0 <= i < n ==> json_of_host(#[trigger] items[i]) == Ok::<Json, Kind>(documents[i]),
    decreases n,
{
    if n > 0 {
        run_documents(items, (n - 1) as nat);
    }
}

proof fn run_members(entries: Seq<(Seq<char>, Host)>, key: Seq<char>, n: nat)
    requires
        n <= entries.len(),
    ensures
        json_of_entries(entries, n) matches Ok(held) ==> ({
            let at = last_under(entries, key, n);
            &&& held.dom().contains(key) <==> at >= 0
            &&& at >= 0 ==> json_of_host(entries[at].1) == Ok::<Json, Kind>(held[key])
        }),
    decreases n,
{
    if n > 0 {
        run_members(entries, key, (n - 1) as nat);
    }
}

proof fn last_under_is_found(entries: Seq<(Seq<char>, Host)>, at: int)
    requires
        0 <= at < entries.len(),
    ensures
        at <= last_under(entries, entries[at].0, entries.len()) < entries.len(),
        entries[last_under(entries, entries[at].0, entries.len())].0 == entries[at].0,
{
    last_under_finds(entries, entries[at].0, entries.len());
}

/// Every host value says the same thing as itself.
pub proof fn same_value_is_reflexive(a: Host)
    ensures
        same_value(a, a),
    decreases a,
{
    match a {
        Host::Sequence(xs) => {
            assert forall|i: int| 0 <= i < xs.len() implies same_value(#[trigger] xs[i], xs[i]) by {
                same_value_is_reflexive(xs[i]);
            }
        },
        Host::Mapping(es, _) => {
            assert forall|i: int|
                0 <= i < es.len() && last_under(es, (#[trigger] es[i]).0, es.len())
                    == i implies same_value(es[i].1, es[i].1) by {
                same_value_is_reflexive(es[i].1);
            }
            assert forall|i: int| 0 <= i < es.len() implies last_under(
                es,
                (#[trigger] es[i]).0,
                es.len(),
            ) >= 0 by {
                last_under_is_found(es, i);
            }
        },
        _ => {},
    }
}

/// Where one host value says the same thing as another, the other says the
/// same thing as the one.
pub proof fn same_value_is_symmetric(a: Host, b: Host)
    requires
        same_value(a, b),
    ensures
        same_value(b, a),
    decreases a,
{
    match (a, b) {
        (Host::Sequence(xs), Host::Sequence(ys)) => {
            assert forall|i: int| 0 <= i < ys.len() implies same_value(#[trigger] ys[i], xs[i]) by {
                same_value_is_symmetric(xs[i], ys[i]);
            }
        },
        (Host::Mapping(es, _), Host::Mapping(fs, _)) => {
            assert forall|i: int|
                0 <= i < fs.len() && last_under(fs, (#[trigger] fs[i]).0, fs.len()) == i implies ({
                let at = last_under(es, fs[i].0, es.len());
                at >= 0 && same_value(fs[i].1, es[at].1)
            }) by {
                let key = fs[i].0;
                let at = last_under(es, key, es.len());
                last_under_finds(es, key, es.len());
                assert(es[at].0 == key);
                same_value_is_symmetric(es[at].1, fs[i].1);
            }
            assert forall|i: int| 0 <= i < es.len() implies last_under(
                fs,
                (#[trigger] es[i]).0,
                fs.len(),
            ) >= 0 by {
                last_under_is_found(es, i);
                let last = last_under(es, es[i].0, es.len());
                assert(es[last].0 == es[i].0);
            }
        },
        _ => {},
    }
}

/// Where one host value says the same thing as a second, and the second as
/// a third, the first says the same thing as the third.
pub proof fn same_value_is_transitive(a: Host, b: Host, c: Host)
    requires
        same_value(a, b),
        same_value(b, c),
    ensures
        same_value(a, c),
    decreases a,
{
    match (a, b, c) {
        (Host::Sequence(xs), Host::Sequence(ys), Host::Sequence(zs)) => {
            assert forall|i: int| 0 <= i < xs.len() implies same_value(#[trigger] xs[i], zs[i]) by {
                same_value_is_transitive(xs[i], ys[i], zs[i]);
            }
        },
        (Host::Mapping(es, _), Host::Mapping(fs, _), Host::Mapping(gs, _)) => {
            assert forall|i: int|
                0 <= i < es.len() && last_under(es, (#[trigger] es[i]).0, es.len()) == i implies ({
                let at = last_under(gs, es[i].0, gs.len());
                at >= 0 && same_value(es[i].1, gs[at].1)
            }) by {
                let key = es[i].0;
                let middle = last_under(fs, key, fs.len());
                last_under_finds(fs, key, fs.len());
                assert(fs[middle].0 == key);
                let at = last_under(gs, key, gs.len());
                same_value_is_transitive(es[i].1, fs[middle].1, gs[at].1);
            }
            assert forall|i: int| 0 <= i < gs.len() implies last_under(
                es,
                (#[trigger] gs[i]).0,
                es.len(),
            ) >= 0 by {
                let key = gs[i].0;
                let middle = last_under(fs, key, fs.len());
                last_under_finds(fs, key, fs.len());
                assert(fs[middle].0 == key);
            }
        },
        _ => {},
    }
}

/// A host value that has a well-formed document, and whose strings are all
/// UTF-8, says the same thing after it has been turned into that document
/// and back. An empty mapping comes back as an empty sequence where it
/// carried the Array Marker, and as an empty mapping without the marker
/// where it did not.
pub proof fn value_survives(h: Host)
    requires
        json_of_host(h) matches Ok(j) && well_formed(j),
        text_only(h),
    ensures
        same_value(h, host_of_json(json_of_host(h)->Ok_0)),
        h == Host::Mapping(Seq::empty(), true) ==> host_of_json(json_of_host(h)->Ok_0)
            == Host::Sequence(Seq::empty()),
        h == Host::Mapping(Seq::empty(), false) ==> host_of_json(json_of_host(h)->Ok_0)
            == Host::Mapping(Seq::empty(), false),
    decreases h,
{
    let j = json_of_host(h)->Ok_0;
    let back = host_of_json(j);
    match h {
        Host::String(bytes) => {
            decode_utf8_encode_utf8(bytes);
        },
        Host::Sequence(items) => {
            run_documents(items, items.len());
            let documents = j->Array_0;
            assert forall|i: int| 0 <= i < items.len() implies same_value(
                #[trigger] items[i],
                back->Sequence_0[i],
            ) by {
                assert(well_formed(documents[i]));
                value_survives(items[i]);
            }
        },
        Host::Mapping(entries, marker) => {
            if entries.len() == 0 && marker {
                assert(back->Sequence_0 =~= Seq::<Host>::empty());
            } else {
                let held = j->Object_0;
                let order = key_order(held);
                let listed = back->Mapping_0;
                assert forall|i: int|
                    0 <= i < entries.len() && last_under(
                        entries,
                        (#[trigger] entries[i]).0,
                        entries.len(),
                    ) == i implies ({
                    let at = last_under(listed, entries[i].0, listed.len());
                    at >= 0 && same_value(entries[i].1, listed[at].1)
                }) by {
                    let key = entries[i].0;
                    run_members(entries, key, entries.len());
                    assert(order.contains(key));
                    let k = choose|k: int| 0 <= k < order.len() && order[k] == key;
                    assert(listed[k].0 == key);
                    last_under_finds(listed, key, listed.len());
                    let at = last_under(listed, key, listed.len());
                    assert(order.contains(order[at]));
                    assert(listed[at] == (key, host_of_json(held[key])));
                    assert(well_formed(held[key]));
                    value_survives(entries[i].1);
                }
                assert forall|i: int| 0 <= i < listed.len() implies last_under(
                    entries,
                    (#[trigger] listed[i]).0,
                    entries.len(),
                ) >= 0 by {
                    assert(order.contains(order[i]));
                    run_members(entries, listed[i].0, entries.len());
                }
                if entries.len() == 0 {
                    assert(held =~= Map::<Seq<char>, Json>::empty());
                    assert(order.len() == 0) by {
                        if order.len() > 0 {
                            assert(order.contains(order[0]));
                        }
                    }
                    assert(listed =~= Seq::<(Seq<char>, Host)>::empty());
                }
            }
        },
        _ => {},
    }
}

proof fn distinct_places_fit(places: Seq<usize>, size: nat)
    requires
        places.no_duplicates(),
        forall|i: int| 0 <= i < places.len() ==> places[i] < size,
    ensures
        places.len() <= size,
    decreases size,
{
    if places.len() > 0 {
        if size == 0 {
            assert(places[0] < size);
        } else {
            let top = (size - 1) as usize;
            if places.contains(top) {
                let at = choose|at: int| 0 <= at < places.len() && places[at] == top;
                let rest = places.remove(at);
                assert forall|i: int| 0 <= i < rest.len() implies rest[i] < size - 1 by {
                    if i < at {
                        assert(rest[i] == places[i]);
                    } else {
                        assert(rest[i] == places[i + 1]);
                    }
                }
                assert forall|i: int, j: int|
                    0 <= i < rest.len() && 0 <= j < rest.len() && i != j implies rest[i]
                    != rest[j] by {
                    let from_i = if i < at {
                        i
                    } else {
                        i + 1
                    };
                    let from_j = if j < at {
                        j
                    } else {
                        j + 1
                    };
                    assert(rest[i] == places[from_i]);
                    assert(rest[j] == places[from_j]);
                }
                distinct_places_fit(rest, (size - 1) as nat);
            } else {
                assert forall|i: int| 0 <= i < places.len() implies places[i] < size - 1 by {
                    assert(places.contains(places[i]));
                }
                distinct_places_fit(places, (size - 1) as nat);
            }
        }
    }
}

/// A path that names no table twice, and only tables that exist, is shorter
/// than the heap as long as some table is not on it. So the bound on the
/// length of the path in `unfolded` never decides on such a path: there a
/// cycle is reported only for a table that is on the path.
pub proof fn path_leaves_room(tables: Seq<Table>, path: Seq<usize>, t: usize)
    requires
        path.no_duplicates(),
        forall|i: int| 0 <= i < path.len() ==> path[i] < tables.len(),
        t < tables.len(),
        !path.contains(t),
    ensures
        path.len() < tables.len(),
{
    let longer = path.push(t);
    assert forall|i: int, j: int|
        0 <= i < longer.len() && 0 <= j < longer.len() && i != j implies longer[i]
        != longer[j] by {
        if i < path.len() {
            assert(path.contains(longer[i]));
        }
        if j < path.len() {
            assert(path.contains(longer[j]));
        }
    }
    distinct_places_fit(longer, tables.len());
}

/// Whether every reference out of a table, from a value under `1..=n` or
/// from the value of a field, leads to a table of lower rank. Tables that
/// can be ranked so hold no cycle.
pub open spec fn ranked(tables: Seq<Table>, rank: spec_fn(int) -> nat) -> bool {
    &&& forall|t: int, i: int|
        #![trigger tables[t].sequence@[i]]
        0 <= t < tables.len() && 0 <= i < tables[t].sequence@.len() ==> (
        tables[t].sequence@[i] matches Slot::Table(u) ==> u < tables.len() ==> rank(u as int)
            < rank(t))
    &&& forall|t: int, i: int|
        #![trigger tables[t].fields@[i]]
        0 <= t < tables.len() && 0 <= i < tables[t].fields@.len() ==> (
        tables[t].fields@[i].1 matches Slot::Table(u) ==> u < tables.len() ==> rank(u as int)
            < rank(t))
}

/// Whether every table on the path exists and outranks the given rank.
pub open spec fn outranks(tables: Seq<Table>, rank: spec_fn(int) -> nat, path: Seq<usize>, below: nat) -> bool {
    forall|i: int|
        0 <= i < path.len() ==> (#[trigger] path[i]) < tables.len() && rank(path[i] as int) > below
}

/// Whether the path may stand around a value: it names no table twice, and
/// where the value is a table that exists, every table on the path exists
/// and outranks it.
pub open spec fn stands_around(
    tables: Seq<Table>,
    rank: spec_fn(int) -> nat,
    path: Seq<usize>,
    slot: Slot,
) -> bool {
    slot matches Slot::Table(t) ==> t < tables.len() ==> path.no_duplicates() && outranks(
        tables,
        rank,
        path,
        rank(t as int),
    )
}

proof fn ranked_items_unfold(
    tables: Seq<Table>,
    rank: spec_fn(int) -> nat,
    items: Seq<Slot>,
    path: Seq<usize>,
    n: nat,
)
    requires
        ranked(tables, rank),
        n <= items.len(),
        forall|i: int| 0 <= i < items.len() ==> stands_around(tables, rank, path, #[trigger] items[i]),
    ensures
        unfolded_items(tables, items, path, n) != Err::<Seq<Host>, Failure>(
            Failure::CyclicReference,
        ),
    decreases tables.len() - path.len(), n + 1,
{
    if n > 0 {
        ranked_items_unfold(tables, rank, items, path, (n - 1) as nat);
        ranked_slot_unfolds(tables, rank, items[n - 1], path);
    }
}

proof fn ranked_fields_unfold(
    tables: Seq<Table>,
    rank: spec_fn(int) -> nat,
    fields: Seq<(Slot, Slot)>,
    path: Seq<usize>,
    n: nat,
)
    requires
        ranked(tables, rank),
        n <= fields.len(),
        forall|i: int|
            0 <= i < fields.len() ==> stands_around(tables, rank, path, (#[trigger] fields[i]).1),
    ensures
        unfolded_fields(tables, fields, path, n) != Err::<Seq<(Seq<char>, Host)>, Failure>(
            Failure::CyclicReference,
        ),
    decreases tables.len() - path.len(), n + 1,
{
    if n > 0 {
        ranked_fields_unfold(tables, rank, fields, path, (n - 1) as nat);
        ranked_slot_unfolds(tables, rank, fields[n - 1].1, path);
    }
}

proof fn ranked_fields_pass(
    tables: Seq<Table>,
    rank: spec_fn(int) -> nat,
    fields: Seq<(Slot, Slot)>,
    path: Seq<usize>,
    span: nat,
    n: nat,
)
    requires
        ranked(tables, rank),
        n <= fields.len(),
        forall|i: int|
            0 <= i < fields.len() ==> stands_around(tables, rank, path, (#[trigger] fields[i]).1),
    ensures
        refused_field(tables, fields, path, span, n) != Some(Failure::CyclicReference),
    decreases tables.len() - path.len(), n + 1,
{
    if n > 0 {
        ranked_fields_pass(tables, rank, fields, path, span, (n - 1) as nat);
        ranked_slot_unfolds(tables, rank, fields[n - 1].1, path);
    }
}

proof fn ranked_slot_unfolds(
    tables: Seq<Table>,
    rank: spec_fn(int) -> nat,
    slot: Slot,
    path: Seq<usize>,
)
    requires
        ranked(tables, rank),
        stands_around(tables, rank, path, slot),
    ensures
        unfolded(tables, slot, path) != Err::<Host, Failure>(Failure::CyclicReference),
    decreases tables.len() - path.len(), 0nat,
{
    match slot {
        Slot::Table(t) => {
            if t < tables.len() {
                if path.contains(t) {
                    let at = choose|at: int| 0 <= at < path.len() && path[at] == t;
                    assert(rank(path[at] as int) > rank(t as int));
                }
                path_leaves_room(tables, path, t);
                let table = tables[t as int];
                let inner = path.push(t);
                assert forall|i: int, j: int|
                    0 <= i < inner.len() && 0 <= j < inner.len() && i != j implies inner[i]
                    != inner[j] by {
                    if i < path.len() {
                        assert(path.contains(inner[i]));
                    }
                    if j < path.len() {
                        assert(path.contains(inner[j]));
                    }
                }
                if table.sequence@.len() > 0 || table.array_marker {
                    assert forall|i: int| 0 <= i < table.sequence@.len() implies stands_around(
                        tables,
                        rank,
                        inner,
                        #[trigger] table.sequence@[i],
                    ) by {
                        let _ = tables[t as int].sequence@[i];
                    }
                    ranked_items_unfold(
                        tables,
                        rank,
                        table.sequence@,
                        inner,
                        table.sequence@.len(),
                    );
                    assert forall|i: int| 0 <= i < table.fields@.len() implies stands_around(
                        tables,
                        rank,
                        inner,
                        (#[trigger] table.fields@[i]).1,
                    ) by {
                        let _ = tables[t as int].fields@[i];
                    }
                    ranked_fields_pass(
                        tables,
                        rank,
                        table.fields@,
                        inner,
                        table.sequence@.len(),
                        table.fields@.len(),
                    );
                } else {
                    assert forall|i: int| 0 <= i < table.fields@.len() implies stands_around(
                        tables,
                        rank,
                        inner,
                        (#[trigger] table.fields@[i]).1,
                    ) by {
                        let _ = tables[t as int].fields@[i];
                    }
                    ranked_fields_unfold(tables, rank, table.fields@, inner, table.fields@.len());
                }
            }
        },
        _ => {},
    }
}

/// Where the tables can be ranked so that every reference leads downwards,
/// no value is taken for cyclic: a cycle is only reported where there is
/// one.
pub proof fn ranked_tables_are_not_cyclic(
    tables: Seq<Table>,
    rank: spec_fn(int) -> nat,
    root: Slot,
)
    requires
        ranked(tables, rank),
    ensures
        unfolded(tables, root, Seq::empty()) != Err::<Host, Failure>(Failure::CyclicReference),
{
    ranked_slot_unfolds(tables, rank, root, Seq::empty());
}

/// A table that is written as a sequence fails to unfold where one of the
/// fields that the sequence leaves out holds a function, with whatever
/// failure the walk meets first: what is left out is not left unseen.
pub proof fn left_out_function_is_refused(
    tables: Seq<Table>,
    t: usize,
    path: Seq<usize>,
    at: int,
)
    requires
        t < tables.len(),
        tables[t as int].sequence@.len() > 0 || tables[t as int].array_marker,
        0 <= at < tables[t as int].fields@.len(),
        !in_sequence(tables[t as int].fields@[at].0, tables[t as int].sequence@.len()),
        tables[t as int].fields@[at].1 == Slot::Function,
    ensures
        unfolded(tables, Slot::Table(t), path) is Err,
{
    if !path.contains(t) && path.len() < tables.len() {
        let table = tables[t as int];
        let inner = path.push(t);
        let span = table.sequence@.len();
        if unfolded_items(tables, table.sequence@, inner, span) is Ok {
            assert(refused_field(tables, table.fields@, inner, span, (at + 1) as nat) is Some) by {
                assert(unfolded(tables, Slot::Function, inner) == Ok::<Host, Failure>(
                    Host::Function,
                ));
            }
            crate::graph::refusal_stays(
                tables,
                table.fields@,
                inner,
                span,
                (at + 1) as nat,
                table.fields@.len(),
            );
        }
    }
}

/// A table whose first value under `1..=n` is the table itself is cyclic,
/// on whatever path it is met.
pub proof fn table_that_holds_itself_is_cyclic(tables: Seq<Table>, t: usize, path: Seq<usize>)
    requires
        t < tables.len(),
        tables[t as int].sequence@.len() > 0,
        tables[t as int].sequence@[0] == Slot::Table(t),
    ensures
        unfolded(tables, Slot::Table(t), path) == Err::<Host, Failure>(Failure::CyclicReference),
{
    if !path.contains(t) && path.len() < tables.len() {
        let items = tables[t as int].sequence@;
        let inner = path.push(t);
        assert(inner[path.len() as int] == t);
        assert(inner.contains(t));
        assert(unfolded_items(tables, items, inner, 0) is Ok);
        assert(unfolded(tables, items[0], inner) == Err::<Host, Failure>(
            Failure::CyclicReference,
        ));
        assert(unfolded_items(tables, items, inner, 1) == Err::<Seq<Host>, Failure>(
            Failure::CyclicReference,
        ));
        crate::graph::items_failure_stays(tables, items, inner, 1, items.len());
    }
}

} // verus!
