use ljson::failure::Failure;
use ljson::graph::decode_held;
use ljson::graph::encode_held;
use ljson::graph::key_text;
use ljson::graph::number_slot;
use ljson::graph::unfold;
use ljson::graph::Heap;
use ljson::graph::Slot;
use ljson::graph::Table;
use ljson::module::ljson;
use ljson::module::ljson_safe;
use ljson::module::Callable;
use ljson::module::Reply;
use ljson::value::HostValue;
use ljson::value::Kind;
use ljson::value::Mapping;

fn bytes(s: &str) -> Slot {
    Slot::String(s.as_bytes().to_vec())
}

fn host_string(s: &str) -> HostValue {
    HostValue::String(s.as_bytes().to_vec())
}

fn list(sequence: Vec<Slot>) -> Table {
    Table { array_marker: false, sequence, fields: vec![] }
}

fn record(fields: Vec<(Slot, Slot)>) -> Table {
    Table { array_marker: false, sequence: vec![], fields }
}

fn entries(entries: Vec<(&str, HostValue)>) -> HostValue {
    HostValue::Mapping(Mapping {
        entries: entries.into_iter().map(|(k, v)| (k.to_string(), v)).collect(),
        array_marker: false,
    })
}

fn no_tables() -> Heap {
    Heap { tables: vec![] }
}

#[test]
fn unfold_scalars_as_they_are() {
    let heap = no_tables();
    assert_eq!(unfold(&heap, &Slot::Nil), Ok(HostValue::Nil));
    assert_eq!(unfold(&heap, &Slot::Null), Ok(HostValue::Null));
    assert_eq!(unfold(&heap, &Slot::Boolean(true)), Ok(HostValue::Boolean(true)));
    assert_eq!(unfold(&heap, &Slot::Integer(-4)), Ok(HostValue::Integer(-4)));
    assert_eq!(
        unfold(&heap, &Slot::Number(serde_json::Number::from_f64(0.5).unwrap())),
        Ok(HostValue::Number(serde_json::Number::from_f64(0.5).unwrap()))
    );
    assert_eq!(unfold(&heap, &bytes("abc")), Ok(host_string("abc")));
    assert_eq!(unfold(&heap, &Slot::String(vec![0xff])), Ok(HostValue::String(vec![0xff])));
    assert_eq!(unfold(&heap, &Slot::Function), Ok(HostValue::Function));
    assert_eq!(unfold(&heap, &Slot::Thread), Ok(HostValue::Thread));
    assert_eq!(unfold(&heap, &Slot::UserData), Ok(HostValue::UserData));
}

#[test]
fn unfold_table_with_values_under_one_to_n_is_a_sequence() {
    let heap = Heap { tables: vec![list(vec![Slot::Integer(1), bytes("x")])] };
    assert_eq!(
        unfold(&heap, &Slot::Table(0)),
        Ok(HostValue::Sequence(vec![HostValue::Integer(1), host_string("x")]))
    );
}

#[test]
fn unfold_sequence_leaves_other_fields_out_of_the_tree() {
    let heap = Heap {
        tables: vec![Table {
            array_marker: false,
            sequence: vec![Slot::Integer(1)],
            fields: vec![
                (Slot::Integer(1), Slot::Integer(1)),
                (bytes("name"), Slot::Integer(5)),
                (Slot::Boolean(true), Slot::Table(1)),
            ],
        }, list(vec![Slot::Null])],
    };
    assert_eq!(
        unfold(&heap, &Slot::Table(0)),
        Ok(HostValue::Sequence(vec![HostValue::Integer(1)]))
    );
}

#[test]
fn unfold_sequence_fails_on_a_function_in_a_field_it_leaves_out() {
    let heap = Heap {
        tables: vec![Table {
            array_marker: false,
            sequence: vec![Slot::Integer(1)],
            fields: vec![(Slot::Integer(1), Slot::Integer(1)), (bytes("f"), Slot::Function)],
        }],
    };
    assert_eq!(
        unfold(&heap, &Slot::Table(0)),
        Err(Failure::UnsupportedType { found: Kind::Function })
    );
    assert_eq!(
        encode_held(&heap, &Slot::Table(0)),
        Err(Failure::UnsupportedType { found: Kind::Function })
    );
}

#[test]
fn unfold_marked_table_fails_on_what_its_fields_hold_at_any_depth() {
    let heap = Heap {
        tables: vec![
            Table {
                array_marker: true,
                sequence: vec![],
                fields: vec![(bytes("deep"), Slot::Table(1))],
            },
            record(vec![(bytes("inner"), Slot::Table(2))]),
            list(vec![Slot::Integer(1), Slot::Thread]),
        ],
    };
    assert_eq!(
        unfold(&heap, &Slot::Table(0)),
        Err(Failure::UnsupportedType { found: Kind::Thread })
    );
}

#[test]
fn unfold_sequence_fails_on_a_key_without_text_in_a_field_it_leaves_out() {
    let heap = Heap {
        tables: vec![
            Table {
                array_marker: false,
                sequence: vec![Slot::Integer(1)],
                fields: vec![(Slot::Table(1), Slot::Integer(2))],
            },
            list(vec![]),
        ],
    };
    assert_eq!(
        unfold(&heap, &Slot::Table(0)),
        Err(Failure::UnsupportedType { found: Kind::Table })
    );
}

#[test]
fn unfold_sequence_passes_over_the_fields_that_its_values_stand_under() {
    let heap = Heap {
        tables: vec![Table {
            array_marker: false,
            sequence: vec![Slot::Integer(7), Slot::Integer(8)],
            fields: vec![
                (Slot::Integer(1), Slot::Function),
                (Slot::Integer(2), Slot::Table(0)),
                (Slot::Integer(0), Slot::Integer(0)),
                (Slot::Integer(3), Slot::Integer(3)),
            ],
        }],
    };
    assert_eq!(
        unfold(&heap, &Slot::Table(0)),
        Ok(HostValue::Sequence(vec![HostValue::Integer(7), HostValue::Integer(8)]))
    );
}

#[test]
fn unfold_sequence_fails_on_its_values_before_its_fields() {
    let heap = Heap {
        tables: vec![Table {
            array_marker: false,
            sequence: vec![Slot::Table(9)],
            fields: vec![(bytes("f"), Slot::Function)],
        }],
    };
    assert_eq!(unfold(&heap, &Slot::Table(0)), Err(Failure::MissingTable));
}

#[test]
fn unfold_table_without_sequence_is_a_mapping() {
    let heap = Heap {
        tables: vec![record(vec![(bytes("b"), Slot::Integer(2)), (bytes("a"), Slot::Null)])],
    };
    assert_eq!(
        unfold(&heap, &Slot::Table(0)),
        Ok(entries(vec![("b", HostValue::Integer(2)), ("a", HostValue::Null)]))
    );
}

#[test]
fn unfold_empty_table_follows_the_array_marker() {
    let heap = Heap {
        tables: vec![
            Table { array_marker: false, sequence: vec![], fields: vec![] },
            Table { array_marker: true, sequence: vec![], fields: vec![] },
            Table {
                array_marker: true,
                sequence: vec![],
                fields: vec![(bytes("a"), Slot::Integer(5))],
            },
        ],
    };
    assert_eq!(unfold(&heap, &Slot::Table(0)), Ok(entries(vec![])));
    assert_eq!(unfold(&heap, &Slot::Table(1)), Ok(HostValue::Sequence(vec![])));
    assert_eq!(unfold(&heap, &Slot::Table(2)), Ok(HostValue::Sequence(vec![])));
}

#[test]
fn unfold_nested_tables() {
    let heap = Heap {
        tables: vec![
            record(vec![(bytes("items"), Slot::Table(1)), (bytes("n"), Slot::Integer(2))]),
            list(vec![Slot::Table(2), Slot::Table(2)]),
            record(vec![(bytes("k"), Slot::Boolean(false))]),
        ],
    };
    let leaf = || entries(vec![("k", HostValue::Boolean(false))]);
    assert_eq!(
        unfold(&heap, &Slot::Table(0)),
        Ok(entries(vec![
            ("items", HostValue::Sequence(vec![leaf(), leaf()])),
            ("n", HostValue::Integer(2)),
        ]))
    );
}

#[test]
fn unfold_table_that_holds_itself_is_cyclic() {
    let heap = Heap { tables: vec![list(vec![Slot::Integer(1), Slot::Table(0)])] };
    assert_eq!(unfold(&heap, &Slot::Table(0)), Err(Failure::CyclicReference));
    let heap = Heap { tables: vec![record(vec![(bytes("me"), Slot::Table(0))])] };
    assert_eq!(unfold(&heap, &Slot::Table(0)), Err(Failure::CyclicReference));
}

#[test]
fn unfold_tables_that_hold_each_other_are_cyclic() {
    let heap = Heap {
        tables: vec![
            list(vec![Slot::Table(1)]),
            record(vec![(bytes("up"), Slot::Table(2))]),
            list(vec![Slot::Table(0)]),
        ],
    };
    assert_eq!(unfold(&heap, &Slot::Table(0)), Err(Failure::CyclicReference));
    assert_eq!(unfold(&heap, &Slot::Table(1)), Err(Failure::CyclicReference));
    assert_eq!(unfold(&heap, &Slot::Table(2)), Err(Failure::CyclicReference));
}

#[test]
fn unfold_table_reached_twice_is_not_cyclic() {
    let heap = Heap {
        tables: vec![list(vec![Slot::Table(1), Slot::Table(1)]), list(vec![Slot::Integer(7)])],
    };
    let shared = || HostValue::Sequence(vec![HostValue::Integer(7)]);
    assert_eq!(unfold(&heap, &Slot::Table(0)), Ok(HostValue::Sequence(vec![shared(), shared()])));
}

#[test]
fn unfold_cycle_through_a_field_that_a_sequence_leaves_out_is_cyclic() {
    let heap = Heap {
        tables: vec![
            Table {
                array_marker: false,
                sequence: vec![Slot::Integer(1)],
                fields: vec![(bytes("self"), Slot::Table(0))],
            },
            Table {
                array_marker: true,
                sequence: vec![],
                fields: vec![(bytes("next"), Slot::Table(2))],
            },
            record(vec![(bytes("back"), Slot::Table(1))]),
        ],
    };
    assert_eq!(unfold(&heap, &Slot::Table(0)), Err(Failure::CyclicReference));
    assert_eq!(unfold(&heap, &Slot::Table(1)), Err(Failure::CyclicReference));
    assert_eq!(encode_held(&heap, &Slot::Table(1)), Err(Failure::CyclicReference));
}

#[test]
fn unfold_reference_to_a_missing_table_fails() {
    assert_eq!(unfold(&no_tables(), &Slot::Table(0)), Err(Failure::MissingTable));
    let heap = Heap { tables: vec![list(vec![Slot::Table(3)])] };
    assert_eq!(unfold(&heap, &Slot::Table(0)), Err(Failure::MissingTable));
}

#[test]
fn unfold_stops_at_the_first_failure_in_order() {
    let heap = Heap {
        tables: vec![
            list(vec![Slot::Table(9), Slot::Table(0)]),
            list(vec![Slot::Table(1), Slot::Table(9)]),
            record(vec![(Slot::Table(2), Slot::Table(9))]),
            record(vec![(bytes("a"), Slot::Table(9)), (Slot::Null, Slot::Nil)]),
        ],
    };
    assert_eq!(unfold(&heap, &Slot::Table(0)), Err(Failure::MissingTable));
    assert_eq!(unfold(&heap, &Slot::Table(1)), Err(Failure::CyclicReference));
    assert_eq!(
        unfold(&heap, &Slot::Table(2)),
        Err(Failure::UnsupportedType { found: Kind::Table })
    );
    assert_eq!(unfold(&heap, &Slot::Table(3)), Err(Failure::MissingTable));
}

#[test]
fn key_text_of_each_kind_of_key() {
    assert_eq!(key_text(&bytes("name")), Ok("name".to_string()));
    assert_eq!(key_text(&bytes("")), Ok("".to_string()));
    assert_eq!(key_text(&Slot::String(vec![0x68, 0xc3, 0xa9])), Ok("h\u{e9}".to_string()));
    assert_eq!(key_text(&Slot::Boolean(true)), Ok("true".to_string()));
    assert_eq!(key_text(&Slot::Boolean(false)), Ok("false".to_string()));
    assert_eq!(key_text(&Slot::Integer(5)), Ok("5".to_string()));
    assert_eq!(key_text(&Slot::Integer(-12)), Ok("-12".to_string()));
    assert_eq!(key_text(&Slot::Integer(i64::MIN)), Ok("-9223372036854775808".to_string()));
    assert_eq!(
        key_text(&Slot::Number(serde_json::Number::from_f64(1.5).unwrap())),
        Ok("1.5".to_string())
    );
}

#[test]
fn key_text_refuses_what_has_no_text() {
    assert_eq!(
        key_text(&Slot::String(vec![0xff, 0xfe])),
        Err(Failure::UnsupportedType { found: Kind::String })
    );
    assert_eq!(key_text(&Slot::Nil), Err(Failure::UnsupportedType { found: Kind::Nil }));
    assert_eq!(
        key_text(&Slot::Null),
        Err(Failure::UnsupportedType { found: Kind::LightUserData })
    );
    assert_eq!(key_text(&Slot::Table(0)), Err(Failure::UnsupportedType { found: Kind::Table }));
    assert_eq!(
        key_text(&Slot::Function),
        Err(Failure::UnsupportedType { found: Kind::Function })
    );
    assert_eq!(key_text(&Slot::Thread), Err(Failure::UnsupportedType { found: Kind::Thread }));
    assert_eq!(
        key_text(&Slot::UserData),
        Err(Failure::UnsupportedType { found: Kind::UserData })
    );
}

#[test]
fn number_slot_holds_what_json_cannot_as_null() {
    assert_eq!(
        number_slot(serde_json::Number::from_f64(2.5)),
        Slot::Number(serde_json::Number::from_f64(2.5).unwrap())
    );
    assert_eq!(number_slot(serde_json::Number::from_f64(f64::NAN)), Slot::Null);
    assert_eq!(number_slot(serde_json::Number::from_f64(f64::INFINITY)), Slot::Null);
    assert_eq!(number_slot(serde_json::Number::from_f64(f64::NEG_INFINITY)), Slot::Null);
}

#[test]
fn slot_kinds() {
    assert_eq!(Slot::Nil.kind(), Kind::Nil);
    assert_eq!(Slot::Null.kind(), Kind::LightUserData);
    assert_eq!(Slot::Table(3).kind(), Kind::Table);
    assert_eq!(bytes("s").kind(), Kind::String);
    assert_eq!(Slot::Function.kind(), Kind::Function);
}

#[test]
fn encode_held_writes_what_the_value_unfolds_to() {
    let heap = Heap {
        tables: vec![
            record(vec![
                (bytes("b"), Slot::Table(1)),
                (bytes("a"), Slot::Integer(1)),
                (Slot::Integer(10), Slot::Boolean(true)),
            ]),
            list(vec![Slot::Boolean(true), Slot::Null, bytes("x")]),
        ],
    };
    assert_eq!(
        encode_held(&heap, &Slot::Table(0)),
        Ok(host_string("{\"10\":true,\"a\":1,\"b\":[true,null,\"x\"]}"))
    );
    assert_eq!(encode_held(&heap, &Slot::Integer(3)), Ok(host_string("3")));
}

#[test]
fn encode_held_of_a_cyclic_value_fails() {
    let heap = Heap { tables: vec![list(vec![Slot::Table(0)])] };
    assert_eq!(encode_held(&heap, &Slot::Table(0)), Err(Failure::CyclicReference));
}

#[test]
fn encode_held_of_nil_or_a_function_fails_as_encode_does() {
    let heap = Heap { tables: vec![list(vec![Slot::Integer(1), Slot::Function])] };
    assert_eq!(encode_held(&heap, &Slot::Nil), Err(Failure::Type { found: Kind::Nil }));
    assert_eq!(
        encode_held(&heap, &Slot::Table(0)),
        Err(Failure::UnsupportedType { found: Kind::Function })
    );
}

#[test]
fn decode_held_reads_a_string_and_refuses_the_rest() {
    let heap_free = Slot::Table(0);
    assert_eq!(decode_held(&bytes("[1]")), Ok(HostValue::Sequence(vec![HostValue::Integer(1)])));
    assert_eq!(decode_held(&heap_free), Err(Failure::Type { found: Kind::Table }));
    assert_eq!(decode_held(&Slot::Nil), Err(Failure::Type { found: Kind::Nil }));
    assert!(matches!(decode_held(&bytes("not json")), Err(Failure::Parse { .. })));
}

#[test]
fn invoke_reports_a_cycle_under_each_convention() {
    let heap = Heap { tables: vec![record(vec![(bytes("me"), Slot::Table(0))])] };
    assert_eq!(
        ljson().invoke(Callable::Encode, &heap, &Slot::Table(0)),
        Reply::Raise("recursive table detected".to_string())
    );
    assert_eq!(
        ljson_safe().invoke(Callable::Encode, &heap, &Slot::Table(0)),
        Reply::Pair(HostValue::Nil, Some("recursive table detected".to_string()))
    );
}

#[test]
fn invoke_decodes_and_encodes() {
    let heap = Heap { tables: vec![list(vec![Slot::Integer(1), Slot::Integer(2)])] };
    assert_eq!(
        ljson().invoke(Callable::Encode, &heap, &Slot::Table(0)),
        Reply::Value(host_string("[1,2]"))
    );
    assert_eq!(
        ljson_safe().invoke(Callable::Decode, &heap, &bytes("null")),
        Reply::Pair(HostValue::Null, None)
    );
    assert_eq!(
        ljson().invoke(Callable::Decode, &heap, &Slot::Table(0)),
        Reply::Raise("invalid input type: table".to_string())
    );
    assert_eq!(
        ljson_safe().invoke(Callable::Decode, &heap, &Slot::Table(0)),
        Reply::Pair(HostValue::Nil, Some("invalid input type: table".to_string()))
    );
}

#[test]
fn messages_of_the_failures_of_unfolding() {
    assert_eq!(Failure::MissingTable.message(), "reference to a missing table");
    assert_eq!(Failure::CyclicReference.message(), "recursive table detected");
}

#[test]
fn unfold_bare_pointers_and_errors_as_they_are() {
    let heap = no_tables();
    assert_eq!(unfold(&heap, &Slot::LightUserData), Ok(HostValue::LightUserData));
    assert_eq!(unfold(&heap, &Slot::Error), Ok(HostValue::Error));
    assert_eq!(Slot::LightUserData.kind(), Kind::LightUserData);
    assert_eq!(Slot::Error.kind(), Kind::Error);
    assert_eq!(
        encode_held(&heap, &Slot::LightUserData),
        Err(Failure::UnsupportedType { found: Kind::LightUserData })
    );
    assert_eq!(
        encode_held(&heap, &Slot::Error),
        Err(Failure::UnsupportedType { found: Kind::Error })
    );
    assert_eq!(decode_held(&Slot::Error), Err(Failure::Type { found: Kind::Error }));
    assert_eq!(
        decode_held(&Slot::LightUserData),
        Err(Failure::Type { found: Kind::LightUserData })
    );
    assert_eq!(
        key_text(&Slot::Error),
        Err(Failure::UnsupportedType { found: Kind::Error })
    );
}
