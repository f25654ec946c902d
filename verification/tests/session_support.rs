use lib_persist::keyspace::{data_keyspace, meta_keyspace};
use lib_persist::statements::{has_version, pending_statements, split_statements, trim_statement};
use lib_persist::text::{index_text, str_eq};
use lib_persist::value::{ty_eq, value_fits_exec, DeclaredType, Value};

#[test]
fn meta_keyspace_is_fixed() {
    assert_eq!(meta_keyspace(), "app_metadata");
}

#[test]
fn data_keyspace_is_deterministic() {
    // 61 is the last digit of the standard base62 alphabet.
    assert_eq!(data_keyspace(61, "my-app"), "my_app_z");
    assert_eq!(data_keyspace(0, "plain"), "plain_0");
    // The same derivation the base62 crate performs.
    assert_eq!(
        data_keyspace(123456789, "svc"),
        format!("svc_{}", base62::encode(123456789_u128))
    );
    // Identical inputs always yield identical names.
    assert_eq!(data_keyspace(7, "a-b-c"), data_keyspace(7, "a-b-c"));
}

#[test]
fn derived_tags_match_heck() {
    let def = lib_persist::schema::TypeDef::Union(vec![
        lib_persist::schema::VariantDef { name: "FooBar".to_string(), fields: vec![] },
        lib_persist::schema::VariantDef { name: "HTTPServer".to_string(), fields: vec![] },
    ]);
    match lib_persist::codec::map_to_type(&def).unwrap() {
        lib_persist::codec::CellBinding::StringEnum(tags) => {
            assert_eq!(tags[0], "foo_bar");
            assert_eq!(tags[0], heck::ToSnekCase::to_snek_case("FooBar"));
            assert_eq!(tags[1], heck::ToSnekCase::to_snek_case("HTTPServer"));
        },
        other => panic!("expected a string enum, got {other:?}"),
    }
}

#[test]
fn index_text_is_decimal() {
    assert_eq!(index_text(0), "0");
    assert_eq!(index_text(7), "7");
    assert_eq!(index_text(1203), "1203");
}

#[test]
fn str_eq_is_exact() {
    assert!(str_eq("abc", "abc"));
    assert!(!str_eq("abc", "abd"));
    assert!(!str_eq("abc", "ab"));
}

#[test]
fn trim_statement_strips_ascii_whitespace() {
    assert_eq!(trim_statement("  create table t \n"), "create table t");
    assert_eq!(trim_statement("\t\r\n "), "");
    assert_eq!(trim_statement("x"), "x");
}

#[test]
fn split_statements_drops_empty_pieces() {
    let parts = split_statements("create table a;\n insert into a values (1) ;; drop table a");
    assert_eq!(parts.len(), 3);
    assert_eq!(parts[0], "create table a");
    assert_eq!(parts[1], "insert into a values (1)");
    assert_eq!(parts[2], "drop table a");
    assert!(split_statements(" ;; \n").is_empty());
}

#[test]
fn pending_statements_skip_applied_prefix() {
    let statements = vec!["a".to_string(), "b".to_string(), "c".to_string()];
    let all = pending_statements(&statements, None);
    assert_eq!(all.len(), 3);
    assert_eq!(all[0], (0, "a".to_string()));
    let rest = pending_statements(&statements, Some(0));
    assert_eq!(rest.len(), 2);
    assert_eq!(rest[0], (1, "b".to_string()));
    assert_eq!(rest[1], (2, "c".to_string()));
    assert!(pending_statements(&statements, Some(2)).is_empty());
    assert!(pending_statements(&statements, Some(9)).is_empty());
}

#[test]
fn has_version_finds_exact_text() {
    let versions = vec![("1.0.0".to_string(), 10_i64), ("1.1.0".to_string(), 20_i64)];
    assert!(has_version(&versions, "1.1.0"));
    assert!(!has_version(&versions, "1.2.0"));
    assert!(!has_version(&Vec::new(), "1.0.0"));
}

#[test]
fn declared_type_checks() {
    let list_int = DeclaredType::List(Box::new(DeclaredType::Int));
    assert!(ty_eq(&list_int, &DeclaredType::List(Box::new(DeclaredType::Int))));
    assert!(!ty_eq(&list_int, &DeclaredType::Int));
    assert!(value_fits_exec(&Value::List(vec![Value::Int(1)]), &list_int));
    assert!(!value_fits_exec(&Value::List(vec![Value::Text("x".to_string())]), &list_int));
    assert!(value_fits_exec(
        &Value::Opt(None),
        &DeclaredType::Optional(Box::new(DeclaredType::Text))
    ));
}
