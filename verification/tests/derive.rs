//! What the attributes expand to.
use bevy_persistence_database::derive::crate_path::{get_crate_path, CrateName};
use bevy_persistence_database::derive::db_matrix_test::{
    backend_test_name, check_test_fn, keeps_attribute, Backend,
};
use bevy_persistence_database::derive::persist::{
    expand, is_single_field_struct, item_ident, parse_persist_kind, read_single_field,
    single_field_name, write_single_field, Argument, BevyDerive, Fields, ItemShape, PersistKind,
    SerdeDerive,
};
use bevy_persistence_database::derive::Place;
use bevy_persistence_database::value::Value;

fn word(w: &str) -> Argument {
    Argument::Word(w.to_string())
}

fn structure(fields: Fields) -> ItemShape {
    ItemShape::Struct { name: "Thing".to_string(), fields }
}

fn named(names: &[&str]) -> Fields {
    Fields::Named(names.iter().map(|s| s.to_string()).collect())
}

fn complaint(args: Vec<Argument>) -> (Place, String) {
    let e = parse_persist_kind(&args).unwrap_err();
    (e.place, e.message)
}

#[test]
fn exactly_one_kind_is_accepted() {
    assert_eq!(parse_persist_kind(&vec![word("component")]).unwrap(), PersistKind::Component);
    assert_eq!(parse_persist_kind(&vec![word("resource")]).unwrap(), PersistKind::Resource);
    assert_eq!(
        parse_persist_kind(&vec![word("relationship")]).unwrap(),
        PersistKind::Relationship
    );
    let expected = "expected `component`, `resource`, or `relationship`".to_string();
    assert_eq!(
        complaint(vec![]),
        (
            Place::CallSite,
            "`#[persist]` requires `component`, `resource`, or `relationship`".to_string()
        )
    );
    assert_eq!(complaint(vec![word("thing")]), (Place::Argument(0), expected.clone()));
    assert_eq!(complaint(vec![Argument::Other]), (Place::Argument(0), expected));
    assert_eq!(
        complaint(vec![Argument::Path]),
        (Place::Argument(0), "expected a simple ident".to_string())
    );
    assert_eq!(
        complaint(vec![word("component"), word("component")]),
        (
            Place::Argument(1),
            "`#[persist]` accepts exactly one of `component`, `resource`, or `relationship`"
                .to_string()
        )
    );
}

#[test]
fn only_structs_and_enums_expand() {
    let e = expand(PersistKind::Component, &ItemShape::Other, false).unwrap_err();
    assert_eq!(e.place, Place::Item);
    assert_eq!(e.message, "`#[persist]` can only be applied to structs or enums");
    assert!(item_ident(&ItemShape::Other).is_none());
    let item = ItemShape::Enum { name: "E".to_string() };
    assert_eq!(item_ident(&item).map(|s| s.as_str()), Some("E"));
}

#[test]
fn single_fields_are_found() {
    assert_eq!(single_field_name(&Fields::Unnamed(1)), Some("0".to_string()));
    assert_eq!(single_field_name(&Fields::Unnamed(2)), None);
    assert_eq!(single_field_name(&named(&["a"])), Some("a".to_string()));
    assert_eq!(single_field_name(&named(&["a", "b"])), None);
    assert_eq!(single_field_name(&Fields::Unit), None);
    assert!(is_single_field_struct(&named(&["a"])));
    assert!(!is_single_field_struct(&Fields::Unit));
}

#[test]
fn components_expand_with_serde_derived_or_written_out() {
    let e = expand(PersistKind::Component, &structure(named(&["a", "b"])), false).unwrap();
    assert_eq!(e.bevy, BevyDerive::Component);
    assert_eq!(e.serde, SerdeDerive::Always);
    assert!(e.single_field_serde.is_none());
    assert!(!e.gated);
    assert_eq!(e.field_methods, vec!["a".to_string(), "b".to_string()]);
    assert_eq!(e.register_fn, "__persist_register_Thing");
    assert_eq!(e.ctor_fn, "__persist_ctor_Thing");

    let e = expand(PersistKind::Resource, &structure(named(&["a"])), false).unwrap();
    assert_eq!(e.bevy, BevyDerive::Resource);
    assert_eq!(e.serde, SerdeDerive::Never);
    assert_eq!(e.single_field_serde, Some("a".to_string()));

    let item = ItemShape::Enum { name: "E".to_string() };
    let e = expand(PersistKind::Resource, &item, false).unwrap();
    assert_eq!(e.serde, SerdeDerive::Always);
    assert!(e.field_methods.is_empty());
}

#[test]
fn relationships_expand_by_feature() {
    let single = structure(Fields::Unnamed(1));
    let e = expand(PersistKind::Relationship, &single, false).unwrap();
    assert_eq!(e.bevy, BevyDerive::Nothing);
    assert_eq!(e.serde, SerdeDerive::Never);
    assert!(e.single_field_serde.is_none());
    assert!(e.gated);
    let e = expand(PersistKind::Relationship, &single, true).unwrap();
    assert_eq!(e.single_field_serde, Some("0".to_string()));
    let e = expand(PersistKind::Relationship, &structure(named(&["a", "b"])), false).unwrap();
    assert_eq!(e.serde, SerdeDerive::WithManyRelationships);
    let item = ItemShape::Enum { name: "E".to_string() };
    let e = expand(PersistKind::Relationship, &item, false).unwrap();
    assert_eq!(e.serde, SerdeDerive::Always);
}

#[test]
fn bare_single_field_values_are_read() {
    let json = write_single_field("a", Value::Bool(true));
    assert!(matches!(read_single_field(json, "a"), Value::Bool(true)));
    assert!(matches!(read_single_field(Value::Bool(false), "a"), Value::Bool(false)));
}

#[test]
fn matrix_tests_are_checked() {
    assert!(check_test_fn(false, 0, false).is_ok());
    let place = |args: bool, inputs: usize, is_async: bool| {
        let e = check_test_fn(args, inputs, is_async).unwrap_err();
        (e.place, e.message)
    };
    assert_eq!(
        place(true, 1, true),
        (Place::CallSite, "`#[db_matrix_test]` does not take arguments".to_string())
    );
    assert_eq!(
        place(false, 1, true),
        (
            Place::Inputs,
            "`#[db_matrix_test]` test functions must take no arguments".to_string()
        )
    );
    assert_eq!(
        place(false, 0, true),
        (
            Place::Asyncness,
            "`#[db_matrix_test]` does not support async test functions".to_string()
        )
    );
    assert!(!keeps_attribute(Some("test")));
    assert!(keeps_attribute(Some("ignore")));
    assert!(keeps_attribute(None));
    assert_eq!(backend_test_name("t", &Backend::Arango), "t_db_arango");
    assert_eq!(backend_test_name("t", &Backend::Postgres), "t_db_postgres");
}

#[test]
fn crate_paths_are_resolved() {
    assert_eq!(get_crate_path(&CrateName::Itself), "crate");
    assert_eq!(get_crate_path(&CrateName::Name("renamed".to_string())), "::renamed");
    assert_eq!(get_crate_path(&CrateName::Unknown), "::bevy_persistence_database");
}
