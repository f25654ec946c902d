use lib_persist::codec::{
    map_to_row, map_to_type, cell_type_check, decode_cell, decode_row, encode_cell, encode_row,
    encode_value, decode_value, row_is_empty, row_type_check, scylla_field_bindings,
    scylla_fields, CellBinding, CellType, ColumnSpec, DomainValue, EncodedCell,
};
use lib_persist::errors::{DecodeError, MappingError};
use lib_persist::mapper::{forward_record, forward_union, reverse_record, reverse_union, ShadowInstance};
use lib_persist::schema::{classify, Classification, FieldDef, TypeDef, VariantDef};
use lib_persist::value::{DeclaredType, Value};

fn named(name: &str, ty: DeclaredType) -> FieldDef {
    FieldDef { name: Some(name.to_string()), ty }
}

fn positional(ty: DeclaredType) -> FieldDef {
    FieldDef { name: None, ty }
}

/// The record used by several tests: a required integer, an optional
/// integer, and an integer list.
fn sample_record() -> TypeDef {
    TypeDef::Record(vec![
        named("a", DeclaredType::Int),
        named("b", DeclaredType::Optional(Box::new(DeclaredType::Int))),
        named("c", DeclaredType::List(Box::new(DeclaredType::Int))),
    ])
}

/// The union of the concrete scenario: `Active` fieldless, `Failed` with an
/// integer field `code`.
fn status_union() -> TypeDef {
    TypeDef::Union(vec![
        VariantDef { name: "Active".to_string(), fields: vec![] },
        VariantDef { name: "Failed".to_string(), fields: vec![named("code", DeclaredType::Int)] },
    ])
}

#[test]
fn classify_shapes() {
    assert!(matches!(classify(&sample_record()), Ok(Classification::MappedRecord)));
    assert!(matches!(classify(&status_union()), Ok(Classification::MappedUnion)));
    assert!(matches!(
        classify(&TypeDef::Record(vec![positional(DeclaredType::Int)])),
        Ok(Classification::NewtypeBypass)
    ));
    assert!(matches!(
        classify(&TypeDef::Union(vec![
            VariantDef { name: "On".to_string(), fields: vec![] },
            VariantDef { name: "Off".to_string(), fields: vec![] },
        ])),
        Ok(Classification::StringEnumBypass)
    ));
    assert!(classify(&TypeDef::Opaque).is_err());
}

#[test]
fn record_round_trip() {
    let binding = map_to_type(&sample_record()).unwrap();
    let schema = match &binding {
        CellBinding::MappedRecord(s) => s,
        _ => panic!("expected a mapped record"),
    };
    assert_eq!(schema.slots.len(), 3);
    assert_eq!(schema.slots[0].ident, "a");
    assert_eq!(schema.slots[1].ident, "b");
    assert_eq!(schema.slots[2].ident, "c");
    let values = vec![
        Value::Int(4),
        Value::Opt(Some(Box::new(Value::Int(9)))),
        Value::List(vec![Value::Int(1), Value::Int(2)]),
    ];
    let inst = forward_record(schema, &values);
    assert_eq!(inst.kind, "");
    assert!(matches!(inst.slots[0], Some(Value::Int(4))));
    assert!(matches!(inst.slots[1], Some(Value::Int(9))));
    let back = reverse_record(schema, &inst).unwrap();
    assert!(matches!(back[0], Value::Int(4)));
    assert!(matches!(&back[1], Value::Opt(Some(b)) if matches!(**b, Value::Int(9))));
    match &back[2] {
        Value::List(items) => {
            assert_eq!(items.len(), 2);
            assert!(matches!(items[0], Value::Int(1)));
            assert!(matches!(items[1], Value::Int(2)));
        },
        other => panic!("expected a list, got {other:?}"),
    }
}

#[test]
fn record_direct_slot_passes_absent_through() {
    let binding = map_to_type(&sample_record()).unwrap();
    let schema = match &binding {
        CellBinding::MappedRecord(s) => s,
        _ => panic!("expected a mapped record"),
    };
    let values = vec![
        Value::Int(4),
        Value::Opt(None),
        Value::List(vec![]),
    ];
    let inst = forward_record(schema, &values);
    assert!(inst.slots[1].is_none());
    let back = reverse_record(schema, &inst).unwrap();
    assert!(matches!(back[1], Value::Opt(None)));
}

#[test]
fn missing_wrap_slot_decodes_to_missing_value() {
    let binding = map_to_type(&sample_record()).unwrap();
    let schema = match &binding {
        CellBinding::MappedRecord(s) => s,
        _ => panic!("expected a mapped record"),
    };
    let inst = ShadowInstance { kind: String::new(), slots: vec![None, None, None] };
    match reverse_record(schema, &inst) {
        Err(MappingError::MissingValue(slot)) => assert_eq!(slot, "a"),
        other => panic!("expected a missing value, got {other:?}"),
    }
}

#[test]
fn absent_list_slot_decodes_to_empty_list() {
    let binding = map_to_type(&sample_record()).unwrap();
    let schema = match &binding {
        CellBinding::MappedRecord(s) => s,
        _ => panic!("expected a mapped record"),
    };
    let inst = ShadowInstance {
        kind: String::new(),
        slots: vec![Some(Value::Int(1)), None, None],
    };
    let back = reverse_record(schema, &inst).unwrap();
    assert!(matches!(&back[2], Value::List(items) if items.is_empty()));
}

#[test]
fn status_union_scenario() {
    let binding = map_to_type(&status_union()).unwrap();
    let schema = match &binding {
        CellBinding::MappedUnion(s) => s,
        _ => panic!("expected a mapped union"),
    };
    assert_eq!(schema.slots.len(), 1);
    assert_eq!(schema.slots[0].ident, "failed_code");
    assert_eq!(schema.variants[0].tag, "active");
    assert_eq!(schema.variants[1].tag, "failed");

    // Encoding Failed(code = 7).
    let inst = forward_union(schema, 1, &vec![Value::Int(7)]);
    assert_eq!(inst.kind, "failed");
    assert!(matches!(inst.slots[0], Some(Value::Int(7))));

    // Decoding { kind = "active" } yields Active.
    let active = ShadowInstance { kind: "active".to_string(), slots: vec![None] };
    let v = reverse_union(schema, &active).unwrap();
    assert_eq!(v.variant, 0);
    assert!(v.values.is_empty());

    // Decoding { kind = "failed", failed_code absent } names the slot.
    let failed_absent = ShadowInstance { kind: "failed".to_string(), slots: vec![None] };
    match reverse_union(schema, &failed_absent) {
        Err(MappingError::MissingValue(slot)) => assert_eq!(slot, "failed_code"),
        other => panic!("expected a missing value, got {other:?}"),
    }

    // Decoding { kind = "unknown" } carries the raw text unchanged.
    let unknown = ShadowInstance { kind: "unknown".to_string(), slots: vec![None] };
    match reverse_union(schema, &unknown) {
        Err(MappingError::InvalidVariant(tag)) => assert_eq!(tag, "unknown"),
        other => panic!("expected an invalid variant, got {other:?}"),
    }
}

#[test]
fn union_round_trip_ignores_other_slots() {
    let def = TypeDef::Union(vec![
        VariantDef {
            name: "LeftSide".to_string(),
            fields: vec![named("x", DeclaredType::Int)],
        },
        VariantDef {
            name: "RightSide".to_string(),
            fields: vec![named("x", DeclaredType::Text)],
        },
    ]);
    let binding = map_to_type(&def).unwrap();
    let schema = match &binding {
        CellBinding::MappedUnion(s) => s,
        _ => panic!("expected a mapped union"),
    };
    // Same field name in both variants stays distinct after variant
    // qualification.
    assert_eq!(schema.slots[0].ident, "left_side_x");
    assert_eq!(schema.slots[1].ident, "right_side_x");
    let inst = forward_union(schema, 1, &vec![Value::Text("hi".to_string())]);
    assert_eq!(inst.kind, "right_side");
    assert!(inst.slots[0].is_none());
    let v = reverse_union(schema, &inst).unwrap();
    assert_eq!(v.variant, 1);
    assert!(matches!(&v.values[0], Value::Text(t) if t == "hi"));
}

#[test]
fn newtype_bypass_equals_inner_codec() {
    let def = TypeDef::Record(vec![positional(DeclaredType::Int)]);
    let binding = map_to_type(&def).unwrap();
    assert!(matches!(&binding, CellBinding::Newtype(DeclaredType::Int)));

    // The type check is the inner type's own.
    assert!(cell_type_check(&binding, &CellType::Plain(DeclaredType::Int)).is_ok());
    assert!(cell_type_check(&binding, &CellType::Plain(DeclaredType::Text)).is_err());

    // Encode equals the inner value's own encoding exactly.
    let v = DomainValue::Record(vec![Value::Int(5)]);
    let cell = encode_cell(&binding, &v);
    assert!(matches!(cell, Some(EncodedCell::Plain(Value::Int(5)))));
    let direct = encode_value(&Value::Int(5));
    assert!(matches!(direct, Some(Value::Int(5))));

    // Decode equals the inner value's own decoding exactly.
    let wire = CellType::Plain(DeclaredType::Int);
    let decoded = decode_cell(&binding, &wire, Some(EncodedCell::Plain(Value::Int(5)))).unwrap();
    match decoded {
        DomainValue::Record(vals) => assert!(matches!(vals[0], Value::Int(5))),
        other => panic!("expected a record, got {other:?}"),
    }
    let inner = decode_value(&DeclaredType::Int, Some(Value::Int(5))).unwrap();
    assert!(matches!(inner, Value::Int(5)));
    // An absent cell fails for a non-optional inner type, as the inner
    // codec fails.
    assert!(matches!(decode_cell(&binding, &wire, None), Err(DecodeError::UnexpectedNull)));
}

#[test]
fn string_enum_bypass_encodes_tag_text() {
    let def = TypeDef::Union(vec![
        VariantDef { name: "Active".to_string(), fields: vec![] },
        VariantDef { name: "ShutDown".to_string(), fields: vec![] },
    ]);
    let binding = map_to_type(&def).unwrap();
    match &binding {
        CellBinding::StringEnum(tags) => {
            assert_eq!(tags[0], "active");
            assert_eq!(tags[1], "shut_down");
        },
        other => panic!("expected a string enum, got {other:?}"),
    }
    let wire = CellType::Plain(DeclaredType::Text);
    assert!(cell_type_check(&binding, &wire).is_ok());

    let cell = encode_cell(&binding, &DomainValue::Variant(1, vec![]));
    assert!(matches!(&cell, Some(EncodedCell::Plain(Value::Text(t))) if t == "shut_down"));

    let decoded = decode_cell(&binding, &wire, cell).unwrap();
    assert!(matches!(decoded, DomainValue::Variant(1, _)));

    // Text matching no tag fails through the text-parse path with the raw
    // text.
    let bad = decode_cell(&binding, &wire, Some(EncodedCell::Plain(Value::Text("gone".to_string()))));
    assert!(matches!(bad, Err(DecodeError::Parse(t)) if t == "gone"));
}

#[test]
fn cell_type_check_short_circuits_decode() {
    let binding = map_to_type(&sample_record()).unwrap();
    let wrong_wire = CellType::Plain(DeclaredType::Int);
    let r = decode_cell(&binding, &wrong_wire, Some(EncodedCell::Plain(Value::Int(1))));
    assert!(matches!(r, Err(DecodeError::TypeCheck)));
}

#[test]
fn positional_record_slots_use_index_text() {
    let def = TypeDef::Record(vec![positional(DeclaredType::Int), positional(DeclaredType::Text)]);
    let binding = map_to_type(&def).unwrap();
    let schema = match &binding {
        CellBinding::MappedRecord(s) => s,
        _ => panic!("expected a mapped record"),
    };
    assert_eq!(schema.slots[0].ident, "0");
    assert_eq!(schema.slots[1].ident, "1");
}

#[test]
fn row_codec_round_trip() {
    let binding = map_to_row(&sample_record()).unwrap();
    let values = vec![
        Value::Int(4),
        Value::Opt(None),
        Value::List(vec![Value::Int(8)]),
    ];
    let row = encode_row(&binding, &DomainValue::Record(values));
    assert_eq!(row.len(), 3);
    assert_eq!(row[0].0, "a");
    assert!(matches!(row[0].1, Some(Value::Int(4))));
    assert!(row[1].1.is_none());

    let wire_row: Vec<(ColumnSpec, Option<Value>)> = vec![
        (
            ColumnSpec {
                name: "a".to_string(),
                ty: DeclaredType::Optional(Box::new(DeclaredType::Int)),
            },
            Some(Value::Int(4)),
        ),
        (
            ColumnSpec {
                name: "b".to_string(),
                ty: DeclaredType::Optional(Box::new(DeclaredType::Int)),
            },
            None,
        ),
        (
            ColumnSpec {
                name: "c".to_string(),
                ty: DeclaredType::Optional(Box::new(DeclaredType::List(Box::new(
                    DeclaredType::Int,
                )))),
            },
            Some(Value::List(vec![Value::Int(8)])),
        ),
    ];
    let decoded = decode_row(&binding, &wire_row).unwrap();
    match decoded {
        DomainValue::Record(vals) => {
            assert!(matches!(vals[0], Value::Int(4)));
            assert!(matches!(vals[1], Value::Opt(None)));
            assert!(matches!(&vals[2], Value::List(items) if items.len() == 1));
        },
        other => panic!("expected a record, got {other:?}"),
    }
    assert!(!row_is_empty(&binding, &DomainValue::Record(vec![])));
}

#[test]
fn row_type_check_rejects_wrong_columns() {
    let binding = map_to_row(&sample_record()).unwrap();
    let wire_row: Vec<(ColumnSpec, Option<Value>)> = vec![(
        ColumnSpec { name: "a".to_string(), ty: DeclaredType::Int },
        Some(Value::Int(4)),
    )];
    assert!(matches!(decode_row(&binding, &wire_row), Err(DecodeError::TypeCheck)));
}

#[test]
fn union_row_carries_kind_column_first() {
    let binding = map_to_row(&status_union()).unwrap();
    let row = encode_row(&binding, &DomainValue::Variant(1, vec![Value::Int(7)]));
    assert_eq!(row.len(), 2);
    assert_eq!(row[0].0, "kind");
    assert!(matches!(&row[0].1, Some(Value::Text(t)) if t == "failed"));
    assert_eq!(row[1].0, "failed_code");
    assert!(matches!(row[1].1, Some(Value::Int(7))));

    let wire_row: Vec<(ColumnSpec, Option<Value>)> = vec![
        (
            ColumnSpec { name: "kind".to_string(), ty: DeclaredType::Text },
            Some(Value::Text("failed".to_string())),
        ),
        (
            ColumnSpec {
                name: "failed_code".to_string(),
                ty: DeclaredType::Optional(Box::new(DeclaredType::Int)),
            },
            Some(Value::Int(7)),
        ),
    ];
    let decoded = decode_row(&binding, &wire_row).unwrap();
    match decoded {
        DomainValue::Variant(1, vals) => assert!(matches!(vals[0], Value::Int(7))),
        other => panic!("expected the failed variant, got {other:?}"),
    }
}

#[test]
fn row_binding_rejects_bypass_shapes() {
    assert!(map_to_row(&TypeDef::Record(vec![positional(DeclaredType::Int)])).is_err());
    assert!(map_to_row(&TypeDef::Opaque).is_err());
}

#[test]
fn descriptors_match_shadow_identifiers() {
    let binding = map_to_row(&sample_record()).unwrap();
    assert_eq!(scylla_fields(&binding), "\"a\",\"b\",\"c\"");
    assert_eq!(scylla_field_bindings(&binding), ":a,:b,:c");

    let union_binding = map_to_row(&status_union()).unwrap();
    assert_eq!(scylla_fields(&union_binding), "\"kind\",\"failed_code\"");
    assert_eq!(scylla_field_bindings(&union_binding), ":kind,:failed_code");
}

#[test]
fn slot_identifiers_unique_unless_tags_collide() {
    let binding = map_to_type(&status_union()).unwrap();
    let schema = match &binding {
        CellBinding::MappedUnion(s) => s,
        _ => panic!("expected a mapped union"),
    };
    assert!(lib_persist::shadow::idents_unique(schema));

    // Two variant names with one snake_case form collide.
    let colliding = TypeDef::Union(vec![
        VariantDef {
            name: "FooBar".to_string(),
            fields: vec![named("x", DeclaredType::Int)],
        },
        VariantDef {
            name: "fooBar".to_string(),
            fields: vec![named("x", DeclaredType::Int)],
        },
    ]);
    let binding = map_to_type(&colliding).unwrap();
    let schema = match &binding {
        CellBinding::MappedUnion(s) => s,
        _ => panic!("expected a mapped union"),
    };
    assert!(!lib_persist::shadow::idents_unique(schema));
}

#[test]
fn row_type_check_wants_exact_columns() {
    let binding = map_to_row(&sample_record()).unwrap();
    let good = vec![
        ColumnSpec {
            name: "a".to_string(),
            ty: DeclaredType::Optional(Box::new(DeclaredType::Int)),
        },
        ColumnSpec {
            name: "b".to_string(),
            ty: DeclaredType::Optional(Box::new(DeclaredType::Int)),
        },
        ColumnSpec {
            name: "c".to_string(),
            ty: DeclaredType::Optional(Box::new(DeclaredType::List(Box::new(DeclaredType::Int)))),
        },
    ];
    assert!(row_type_check(&binding, &good).is_ok());
    let wrong = vec![ColumnSpec { name: "a".to_string(), ty: DeclaredType::Int }];
    assert!(row_type_check(&binding, &wrong).is_err());
}
