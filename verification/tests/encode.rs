use ljson::bridge::to_json;
use ljson::codec::decode;
use ljson::codec::encode;
use ljson::codec::encoded;
use ljson::failure::Failure;
use ljson::value::HostValue;
use ljson::value::Kind;
use ljson::value::Mapping;

fn host_text(s: &str) -> HostValue {
    HostValue::String(s.as_bytes().to_vec())
}

fn table(entries: Vec<(&str, HostValue)>, array_marker: bool) -> HostValue {
    HostValue::Mapping(Mapping {
        entries: entries.into_iter().map(|(k, v)| (k.to_string(), v)).collect(),
        array_marker,
    })
}

fn float(x: f64) -> HostValue {
    HostValue::Number(serde_json::Number::from_f64(x).unwrap())
}

#[test]
fn encode_null_sentinel_gives_null() {
    assert_eq!(encode(&HostValue::Null), Ok(host_text("null")));
}

#[test]
fn encode_booleans() {
    assert_eq!(encode(&HostValue::Boolean(true)), Ok(host_text("true")));
    assert_eq!(encode(&HostValue::Boolean(false)), Ok(host_text("false")));
}

#[test]
fn encode_integers() {
    assert_eq!(encode(&HostValue::Integer(0)), Ok(host_text("0")));
    assert_eq!(encode(&HostValue::Integer(-3)), Ok(host_text("-3")));
    assert_eq!(encode(&HostValue::Integer(i64::MAX)), Ok(host_text("9223372036854775807")));
    assert_eq!(encode(&HostValue::Integer(i64::MIN)), Ok(host_text("-9223372036854775808")));
}

#[test]
fn encode_numbers() {
    assert_eq!(encode(&float(1.5)), Ok(host_text("1.5")));
    assert_eq!(encode(&float(100.0)), Ok(host_text("100.0")));
    assert_eq!(
        encode(&HostValue::Number(serde_json::Number::from(u64::MAX))),
        Ok(host_text("18446744073709551615"))
    );
}

#[test]
fn encode_string_that_is_utf8() {
    assert_eq!(encode(&host_text("x")), Ok(host_text("\"x\"")));
    assert_eq!(encode(&host_text("")), Ok(host_text("\"\"")));
    assert_eq!(encode(&host_text("a\"b\n")), Ok(host_text("\"a\\\"b\\n\"")));
    assert_eq!(
        encode(&HostValue::String(vec![0x68, 0xc3, 0xa9])),
        Ok(HostValue::String(vec![b'"', 0x68, 0xc3, 0xa9, b'"']))
    );
}

#[test]
fn encode_string_that_is_not_utf8_gives_its_bytes_as_numbers() {
    assert_eq!(encode(&HostValue::String(vec![0xff, 0x00, 0x41])), Ok(host_text("[255,0,65]")));
    assert_eq!(encode(&HostValue::String(vec![0xc3])), Ok(host_text("[195]")));
}

#[test]
fn encode_sequence() {
    assert_eq!(
        encode(&HostValue::Sequence(vec![
            HostValue::Integer(1),
            HostValue::Null,
            host_text("x")
        ])),
        Ok(host_text("[1,null,\"x\"]"))
    );
    assert_eq!(encode(&HostValue::Sequence(vec![])), Ok(host_text("[]")));
}

#[test]
fn encode_empty_mapping_follows_the_array_marker() {
    assert_eq!(encode(&table(vec![], true)), Ok(host_text("[]")));
    assert_eq!(encode(&table(vec![], false)), Ok(host_text("{}")));
}

#[test]
fn encode_mapping_that_is_not_empty_is_an_object_with_or_without_marker() {
    assert_eq!(
        encode(&table(vec![("a", HostValue::Integer(1))], false)),
        Ok(host_text("{\"a\":1}"))
    );
    assert_eq!(
        encode(&table(vec![("a", HostValue::Integer(1))], true)),
        Ok(host_text("{\"a\":1}"))
    );
}

#[test]
fn encode_mapping_with_a_repeated_key_keeps_the_last_entry() {
    assert_eq!(
        encode(&table(
            vec![
                ("a", HostValue::Integer(1)),
                ("b", HostValue::Integer(2)),
                ("a", HostValue::Integer(3))
            ],
            false
        )),
        Ok(host_text("{\"a\":3,\"b\":2}"))
    );
}

#[test]
fn encode_nil_is_a_type_failure() {
    assert_eq!(encode(&HostValue::Nil), Err(Failure::Type { found: Kind::Nil }));
}

#[test]
fn encode_function_is_unsupported() {
    assert_eq!(
        encode(&HostValue::Function),
        Err(Failure::UnsupportedType { found: Kind::Function })
    );
}

#[test]
fn encode_thread_and_userdata_are_unsupported() {
    assert_eq!(encode(&HostValue::Thread), Err(Failure::UnsupportedType { found: Kind::Thread }));
    assert_eq!(
        encode(&HostValue::UserData),
        Err(Failure::UnsupportedType { found: Kind::UserData })
    );
}

#[test]
fn encode_bare_pointer_and_error_value_are_unsupported() {
    assert_eq!(
        encode(&HostValue::LightUserData),
        Err(Failure::UnsupportedType { found: Kind::LightUserData })
    );
    assert_eq!(encode(&HostValue::Error), Err(Failure::UnsupportedType { found: Kind::Error }));
    assert_eq!(
        encode(&HostValue::Sequence(vec![HostValue::Null, HostValue::Error])),
        Err(Failure::UnsupportedType { found: Kind::Error })
    );
}

#[test]
fn encode_writes_every_value_of_supported_kinds() {
    let value = HostValue::Sequence(vec![
        HostValue::Null,
        HostValue::Boolean(true),
        HostValue::Integer(1),
        float(0.5),
        host_text("s"),
        HostValue::String(vec![0x80]),
        HostValue::Sequence(vec![]),
        table(vec![], true),
        table(vec![("k", HostValue::Null)], false),
    ]);
    assert_eq!(
        encode(&value),
        Ok(host_text("[null,true,1,0.5,\"s\",[128],[],[],{\"k\":null}]"))
    );
}

#[test]
fn encode_value_containing_a_function_is_unsupported() {
    let nested = HostValue::Sequence(vec![
        HostValue::Integer(1),
        table(
            vec![("ok", HostValue::Null), ("f", HostValue::Sequence(vec![HostValue::Function]))],
            false,
        ),
    ]);
    assert_eq!(encode(&nested), Err(Failure::UnsupportedType { found: Kind::Function }));
}

#[test]
fn encode_nil_inside_a_container_is_unsupported() {
    assert_eq!(
        encode(&HostValue::Sequence(vec![HostValue::Integer(1), HostValue::Nil])),
        Err(Failure::UnsupportedType { found: Kind::Nil })
    );
    assert_eq!(
        encode(&table(vec![("a", HostValue::Nil)], false)),
        Err(Failure::UnsupportedType { found: Kind::Nil })
    );
}

#[test]
fn encode_reports_the_first_unsupported_value_in_order() {
    assert_eq!(
        encode(&HostValue::Sequence(vec![
            HostValue::Thread,
            HostValue::Function,
            HostValue::UserData
        ])),
        Err(Failure::UnsupportedType { found: Kind::Thread })
    );
    assert_eq!(
        encode(&table(
            vec![("z", HostValue::UserData), ("a", HostValue::Function)],
            false
        )),
        Err(Failure::UnsupportedType { found: Kind::UserData })
    );
}

#[test]
fn encode_marked_mapping_with_an_unsupported_entry_still_fails() {
    assert_eq!(
        encode(&table(vec![("f", HostValue::Function)], true)),
        Err(Failure::UnsupportedType { found: Kind::Function })
    );
}

#[test]
fn encoded_wraps_the_text_in_a_host_string() {
    assert_eq!(encoded(Ok(b"[1]".to_vec())), Ok(host_text("[1]")));
}

#[test]
fn encoded_reports_the_writers_message() {
    let failure = serde_json::from_slice::<serde_json::Value>(b"{").unwrap_err();
    let expected = failure.to_string();
    assert_eq!(encoded(Err(failure)), Err(Failure::Serialize { reason: expected }));
}

#[test]
fn to_json_builds_every_variant() {
    let value = HostValue::Sequence(vec![
        HostValue::Null,
        HostValue::Boolean(true),
        HostValue::Integer(-7),
        float(2.5),
        host_text("s"),
        HostValue::Sequence(vec![]),
        table(vec![("k", HostValue::Integer(1))], false),
    ]);
    let mut object = serde_json::Map::new();
    object.insert("k".to_string(), serde_json::Value::Number(serde_json::Number::from(1)));
    assert_eq!(
        to_json(&value),
        Ok(serde_json::Value::Array(vec![
            serde_json::Value::Null,
            serde_json::Value::Bool(true),
            serde_json::Value::Number(serde_json::Number::from(-7)),
            serde_json::Value::Number(serde_json::Number::from_f64(2.5).unwrap()),
            serde_json::Value::String("s".to_string()),
            serde_json::Value::Array(vec![]),
            serde_json::Value::Object(object),
        ]))
    );
}

#[test]
fn to_json_reports_the_kind_it_cannot_express() {
    assert_eq!(to_json(&HostValue::Nil), Err(Kind::Nil));
    assert_eq!(to_json(&HostValue::Sequence(vec![HostValue::UserData])), Err(Kind::UserData));
}

#[test]
fn decode_then_encode_gives_an_equal_document() {
    for source in [
        "null",
        "true",
        "12",
        "-1.25",
        "\"text\"",
        "[]",
        "{}",
        "[1,[2,[3,[]]]]",
        "{\"a\":1,\"b\":[true,null,\"x\"]}",
        "{\"k\":{\"k\":{\"k\":null}}}",
        "18446744073709551615",
    ] {
        let decoded = decode(&host_text(source)).unwrap();
        assert_eq!(encode(&decoded), Ok(host_text(source)), "{}", source);
    }
}

#[test]
fn decode_then_encode_is_equal_up_to_key_order_and_spacing() {
    let decoded = decode(&host_text(" { \"b\" : [ 1 , 2 ] , \"a\" : 1.0e0 } ")).unwrap();
    assert_eq!(encode(&decoded), Ok(host_text("{\"a\":1.0,\"b\":[1,2]}")));
}

#[test]
fn encode_then_decode_gives_an_equal_value() {
    let value = || {
        HostValue::Sequence(vec![
            HostValue::Null,
            HostValue::Boolean(false),
            HostValue::Integer(42),
            float(0.5),
            host_text("héllo"),
            HostValue::Sequence(vec![HostValue::Integer(1)]),
            table(vec![("a", HostValue::Integer(1)), ("b", host_text("x"))], false),
            table(vec![], false),
        ])
    };
    let written = encode(&value()).unwrap();
    assert_eq!(decode(&written), Ok(value()));
}

#[test]
fn encode_then_decode_of_a_marked_empty_mapping_gives_an_empty_sequence() {
    let written = encode(&table(vec![], true)).unwrap();
    assert_eq!(decode(&written), Ok(HostValue::Sequence(vec![])));
    let written = encode(&table(vec![], false)).unwrap();
    assert_eq!(decode(&written), Ok(table(vec![], false)));
}

#[test]
fn scenario_object_round_trip() {
    let decoded = decode(&host_text("{\"a\":1,\"b\":[true,null,\"x\"]}")).unwrap();
    assert_eq!(
        decoded,
        table(
            vec![
                ("a", HostValue::Integer(1)),
                (
                    "b",
                    HostValue::Sequence(vec![
                        HostValue::Boolean(true),
                        HostValue::Null,
                        host_text("x")
                    ])
                ),
            ],
            false
        )
    );
    let written = match encode(&decoded) {
        Ok(HostValue::String(bytes)) => bytes,
        other => panic!("unexpected {:?}", other),
    };
    let again: serde_json::Value = serde_json::from_slice(&written).unwrap();
    let first: serde_json::Value =
        serde_json::from_slice(b"{\"b\":[true,null,\"x\"],\"a\":1}").unwrap();
    assert_eq!(again, first);
}
