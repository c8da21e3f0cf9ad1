//! The JSON side of the bridge: `serde_json`'s value tree, seen through a
//! mathematical model and a small set of contracts that are taken on trust.
//!
//! Nothing in this file is proved. Each contract restates what the source of
//! `serde_json` shows for the function it names.

use vstd::prelude::*;
use vstd::utf8::decode_utf8;
use vstd::utf8::valid_utf8;

verus! {

/// A JSON number as a mathematical value.
pub enum JsonNumber {
    /// An integer, written without fraction or exponent.
    Int(int),
    /// A finite binary64 number, by its IEEE 754 bit pattern.
    Float(u64),
}

/// A JSON document as a mathematical value.
pub enum Json {
    Null,
    Bool(bool),
    Number(JsonNumber),
    String(Seq<char>),
    Array(Seq<Json>),
    Object(Map<Seq<char>, Json>),
}

/// `serde_json::Value`, carried through verified code as an opaque tree.
#[verifier::external_type_specification]
#[verifier::external_body]
pub struct ExValue(serde_json::Value);

/// `serde_json::Map`, the container behind a JSON object.
#[verifier::external_type_specification]
#[verifier::external_body]
#[verifier::reject_recursive_types(K)]
#[verifier::reject_recursive_types(V)]
pub struct ExObject<K, V>(serde_json::Map<K, V>);

/// `serde_json::Number`, which the bridge hands on without looking inside.
#[verifier::external_type_specification]
#[verifier::external_body]
pub struct ExNumber(serde_json::Number);

/// `serde_json::Error`, of which only the message is ever read.
#[verifier::external_type_specification]
#[verifier::external_body]
pub struct ExParserError(serde_json::Error);

/// The document that a `serde_json::Value` holds.
pub uninterp spec fn value_model(v: serde_json::Value) -> Json;

/// The members that a `serde_json::Map` holds.
pub uninterp spec fn object_model(m: serde_json::Map<String, serde_json::Value>) -> Map<Seq<char>, Json>;

/// The number that a `serde_json::Number` holds.
pub uninterp spec fn number_model(n: serde_json::Number) -> JsonNumber;

/// The text that `serde_json::Number`'s `Display` writes for a number.
pub uninterp spec fn number_text(n: JsonNumber) -> Seq<char>;

/// The message that a `serde_json::Error` holds, as its `Display` writes it.
pub uninterp spec fn error_text(e: serde_json::Error) -> Seq<char>;

/// What `serde_json::from_slice` makes of a text: the document that it
/// reads, or the message of the error that it reports.
pub uninterp spec fn parsed(text: Seq<u8>) -> Result<Json, Seq<char>>;

/// The text that `serde_json::to_vec` writes for a document.
pub uninterp spec fn rendered(document: Json) -> Seq<u8>;

/// The documents of a run of values, one for one.
pub open spec fn models(items: Seq<serde_json::Value>) -> Seq<Json> {
    Seq::new(items.len(), |i: int| value_model(items[i]))
}

/// Whether one key comes before another in the order of strings: the order
/// of the first character in which they differ, by code point, and a proper
/// prefix before what it is a prefix of.
pub open spec fn precedes(a: Seq<char>, b: Seq<char>) -> bool
    decreases a.len(),
{
    if b.len() == 0 {
        false
    } else if a.len() == 0 {
        true
    } else if a[0] != b[0] {
        (a[0] as u32) < (b[0] as u32)
    } else {
        precedes(a.drop_first(), b.drop_first())
    }
}

/// `order` names every key of `held` exactly once, and nothing else, and
/// names the keys in the order of strings.
pub open spec fn lists(order: Seq<Seq<char>>, held: Map<Seq<char>, Json>) -> bool {
    &&& held.dom().finite()
    &&& order.no_duplicates()
    &&& forall|k: Seq<char>| order.contains(k) <==> held.contains_key(k)
    &&& forall|i: int, j: int| 0 <= i < j < order.len() ==> precedes(order[i], order[j])
}

/// The keys of an object in the order of strings. There is one such order
/// for every object that `lists` holds of at all.
pub open spec fn key_order(held: Map<Seq<char>, Json>) -> Seq<Seq<char>> {
    choose|order: Seq<Seq<char>>| lists(order, held)
}

/// The keys of a run of entries, one for one.
pub open spec fn keys_of(entries: Seq<(&String, &serde_json::Value)>) -> Seq<Seq<char>> {
    Seq::new(entries.len(), |i: int| entries[i].0@)
}

/// One level of a `serde_json::Value`: its variant, with the fields borrowed.
pub enum Node<'a> {
    Null,
    Bool(bool),
    Number(&'a serde_json::Number),
    String(&'a String),
    Array(&'a Vec<serde_json::Value>),
    Object(&'a serde_json::Map<String, serde_json::Value>),
}

impl<'a> Node<'a> {
    /// The document that this level stands for.
    pub open spec fn model(self) -> Json {
        match self {
            Node::Null => Json::Null,
            Node::Bool(b) => Json::Bool(b),
            Node::Number(n) => Json::Number(number_model(*n)),
            Node::String(s) => Json::String(s@),
            Node::Array(items) => Json::Array(models(items@)),
            Node::Object(object) => Json::Object(object_model(*object)),
        }
    }
}

/// One level of a `serde_json::Value` about to be built: its variant, with
/// the fields owned.
pub enum Parts {
    Null,
    Bool(bool),
    Number(serde_json::Number),
    String(String),
    Array(Vec<serde_json::Value>),
    Object(serde_json::Map<String, serde_json::Value>),
}

impl Parts {
    /// The document that this level stands for.
    pub open spec fn model(self) -> Json {
        match self {
            Parts::Null => Json::Null,
            Parts::Bool(b) => Json::Bool(b),
            Parts::Number(n) => Json::Number(number_model(n)),
            Parts::String(s) => Json::String(s@),
            Parts::Array(items) => Json::Array(models(items@)),
            Parts::Object(object) => Json::Object(object_model(object)),
        }
    }
}

/// Tells the variants of `serde_json::Value` apart. Trusted: the variant and
/// the fields handed out are those of the document that the value holds.
#[verifier::external_body]
pub(crate) fn inspect(v: &serde_json::Value) -> (node: Node<'_>)
    ensures
        node.model() == value_model(*v),
{
    match v {
        serde_json::Value::Null => Node::Null,
        serde_json::Value::Bool(b) => Node::Bool(*b),
        serde_json::Value::Number(n) => Node::Number(n),
        serde_json::Value::String(s) => Node::String(s),
        serde_json::Value::Array(items) => Node::Array(items),
        serde_json::Value::Object(object) => Node::Object(object),
    }
}

/// Builds a `serde_json::Value` from its variant and fields. Trusted: the
/// value holds the document that the parts stand for.
#[verifier::external_body]
pub(crate) fn assemble(parts: Parts) -> (v: serde_json::Value)
    ensures
        value_model(v) == parts.model(),
{
    match parts {
        Parts::Null => serde_json::Value::Null,
        Parts::Bool(b) => serde_json::Value::Bool(b),
        Parts::Number(n) => serde_json::Value::Number(n),
        Parts::String(s) => serde_json::Value::String(s),
        Parts::Array(items) => serde_json::Value::Array(items),
        Parts::Object(object) => serde_json::Value::Object(object),
    }
}

/// `serde_json::Number::as_i64`. Trusted: it gives the integer exactly when
/// the number is an integer that fits in an `i64`.
pub assume_specification[ serde_json::Number::as_i64 ](n: &serde_json::Number) -> (r: Option<i64>)
    ensures
        r == (match number_model(*n) {
            JsonNumber::Int(i) => if i64::MIN <= i <= i64::MAX {
                Some(i as i64)
            } else {
                None
            },
            JsonNumber::Float(_) => None,
        }),
;

/// `Clone` for `serde_json::Number`. Trusted: the copy holds the same number.
pub assume_specification[ <serde_json::Number as Clone>::clone ](n: &serde_json::Number) -> (r: serde_json::Number)
    ensures
        number_model(r) == number_model(*n),
;

/// `serde_json::Number::from` on an `i64`. Trusted: the number is that integer.
#[verifier::external_body]
pub(crate) fn integer_number(i: i64) -> (n: serde_json::Number)
    ensures
        number_model(n) == JsonNumber::Int(i as int),
{
    serde_json::Number::from(i)
}

/// What holds of the entries that a walk over an object hands out: their
/// keys are the keys of the object, each once and in the order of strings,
/// and each entry holds the member found under its key.
pub open spec fn walks(entries: Seq<(&String, &serde_json::Value)>, held: Map<Seq<char>, Json>) -> bool {
    &&& lists(keys_of(entries), held)
    &&& forall|i: int|
        0 <= i < entries.len() ==> value_model(*(#[trigger] entries[i]).1) == held[entries[i].0@]
}

/// `Display` for `serde_json::Number`, through `to_string`. Trusted: the text
/// depends on the number alone.
#[verifier::external_body]
pub(crate) fn shown(n: &serde_json::Number) -> (text: String)
    ensures
        text@ == number_text(number_model(*n)),
{
    n.to_string()
}

/// `serde_json::Map::iter`, with the entries collected. Trusted: the entries
/// are those of a walk over what the map holds, in the order of a `BTreeMap`
/// keyed by `String`, which is what the map is unless `serde_json` is built
/// to keep the order of insertion.
#[verifier::external_body]
pub(crate) fn members(m: &serde_json::Map<String, serde_json::Value>) -> (r: Vec<(&String, &serde_json::Value)>)
    ensures
        walks(r@, object_model(*m)),
{
    m.iter().collect()
}

/// `serde_json::Map::new`. Trusted: the new map has no members.
#[verifier::external_body]
pub(crate) fn new_object() -> (m: serde_json::Map<String, serde_json::Value>)
    ensures
        object_model(m) =~= Map::empty(),
{
    serde_json::Map::new()
}

/// `serde_json::Map::insert`. Trusted: afterwards the key leads to the new
/// member, whether or not the key was present, and nothing else has changed.
#[verifier::external_body]
pub(crate) fn insert_member(
    m: &mut serde_json::Map<String, serde_json::Value>,
    key: String,
    member: serde_json::Value,
)
    ensures
        object_model(*final(m)) == object_model(*old(m)).insert(key@, value_model(member)),
{
    m.insert(key, member);
}

/// `serde_json::from_slice` at `serde_json::Value`. Trusted: whether it
/// succeeds, the document it reads and the error it reports depend on the
/// text alone.
#[verifier::external_body]
pub(crate) fn parse(text: &[u8]) -> (r: Result<serde_json::Value, serde_json::Error>)
    ensures
        match r {
            Ok(v) => parsed(text@) == Ok::<Json, Seq<char>>(value_model(v)),
            Err(e) => parsed(text@) == Err::<Json, Seq<char>>(error_text(e)),
        },
{
    serde_json::from_slice::<serde_json::Value>(text)
}

/// `serde_json::to_vec` on a `serde_json::Value`. Trusted: it succeeds, and
/// the text it writes depends on the document alone. The writer reports
/// nothing but a failure to write, which a `Vec<u8>` never gives: the keys
/// of a `Value` are strings and its floats are finite.
#[verifier::external_body]
pub(crate) fn render(v: &serde_json::Value) -> (r: Result<Vec<u8>, serde_json::Error>)
    ensures
        r is Ok,
        r matches Ok(text) ==> text@ == rendered(value_model(*v)),
{
    serde_json::to_vec(v)
}

/// `Display` for `serde_json::Error`, through `to_string`. Trusted: the text
/// is the message that the error holds.
#[verifier::external_body]
pub(crate) fn failure_text(e: &serde_json::Error) -> (text: String)
    ensures
        text@ == error_text(*e),
{
    e.to_string()
}

/// `std::str::from_utf8`, with the error dropped. Trusted: it succeeds exactly
/// on UTF-8, and the string it gives is what the bytes spell.
#[verifier::external_body]
pub(crate) fn as_text(bytes: &[u8]) -> (text: Option<&str>)
    ensures
        match text {
            Some(s) => valid_utf8(bytes@) && s@ == decode_utf8(bytes@),
            None => !valid_utf8(bytes@),
        },
{
    std::str::from_utf8(bytes).ok()
}

} // verus!
