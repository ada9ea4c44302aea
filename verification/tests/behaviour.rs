//! The library's helpers, impls and laws on concrete documents.

use automerge_cat::{Float64, ReplicaId, Session};
use autosurgeon_cat::{
    ensure_map, ensure_variant_map, expect_map, hydrate_field, hydrate_optional_field, new_map,
    reconcile_unit_variant, resolve_key, select_variant, try_resolve_key, value_type_name,
    write_value, DocValue, DocumentError, Error, Hydrate, NodeRef, Reconcile, Variant,
};

fn session() -> Session {
    Session::new(ReplicaId::new(1))
}

fn created(timestamp: u64) -> NodeRef {
    NodeRef::Created { replica: 1, timestamp }
}

/// A root key that two replicas wrote concurrently, then merged.
fn conflicting() -> Result<Session, Error> {
    let a = 1u64.reconcile(&Session::new(ReplicaId::new(1)), NodeRef::Root, "x")?;
    let b = 2u64.reconcile(&Session::new(ReplicaId::new(2)), NodeRef::Root, "x")?;
    Ok(a.merge(&b))
}

#[test]
fn value_type_names() {
    assert_eq!(value_type_name(&DocValue::Null), "Null");
    assert_eq!(value_type_name(&DocValue::Bool(true)), "Bool");
    assert_eq!(value_type_name(&DocValue::Int(-1)), "Int");
    assert_eq!(value_type_name(&DocValue::Uint(1)), "Uint");
    assert_eq!(value_type_name(&DocValue::Float(Float64::new(0.5))), "Float");
    assert_eq!(value_type_name(&DocValue::Str("s".to_string())), "Str");
    assert_eq!(value_type_name(&DocValue::MapRef(NodeRef::Root)), "Map");
    assert_eq!(value_type_name(&DocValue::ListRef(NodeRef::Root)), "List");
    assert_eq!(value_type_name(&DocValue::TextRef(NodeRef::Root)), "Text");
}

#[test]
fn expect_map_accepts_only_map_references() {
    assert_eq!(expect_map(&DocValue::MapRef(created(3))), Ok(created(3)));
    assert_eq!(
        expect_map(&DocValue::Uint(3)),
        Err(Error::TypeMismatch { expected: "Map", found: "Uint" })
    );
}

#[test]
fn try_resolve_key_absent_single_and_conflict() -> Result<(), Error> {
    let s = 7i64.reconcile(&session(), NodeRef::Root, "n")?;
    assert_eq!(try_resolve_key(s.document(), NodeRef::Root, "missing")?, None);
    assert_eq!(try_resolve_key(s.document(), NodeRef::Root, "n")?, Some(DocValue::Int(7)));
    let merged = conflicting()?;
    assert_eq!(
        try_resolve_key(merged.document(), NodeRef::Root, "x"),
        Err(Error::UnresolvedConcurrency { node: NodeRef::Root, key: "x".to_string() })
    );
    Ok(())
}

#[test]
fn lookups_in_missing_or_list_nodes_fail() -> Result<(), Error> {
    let s = session();
    assert_eq!(
        try_resolve_key(s.document(), created(9), "k"),
        Err(Error::Document(DocumentError::NodeNotFound { node: created(9) }))
    );
    let list: Vec<u64> = vec![1];
    let (s, value) = list.to_value(&s)?;
    assert_eq!(value, DocValue::ListRef(created(0)));
    assert_eq!(
        resolve_key(s.document(), created(0), "k"),
        Err(Error::Document(DocumentError::WrongNodeType { node: created(0), expected: "map" }))
    );
    Ok(())
}

#[test]
fn resolve_key_reports_missing_key() {
    let s = session();
    assert_eq!(
        resolve_key(s.document(), NodeRef::Root, "gone"),
        Err(Error::MissingKey { node: NodeRef::Root, key: "gone".to_string() })
    );
}

#[test]
fn hydrate_field_reports_type_mismatch() -> Result<(), Error> {
    let s = "text".to_string().reconcile(&session(), NodeRef::Root, "k")?;
    let r: Result<u64, Error> = hydrate_field(s.document(), NodeRef::Root, "k");
    assert_eq!(r, Err(Error::TypeMismatch { expected: "Uint", found: "Str" }));
    let r: Result<String, Error> = hydrate_field(s.document(), NodeRef::Root, "k");
    assert_eq!(r, Ok("text".to_string()));
    Ok(())
}

#[test]
fn hydrate_optional_field_absent_is_none() -> Result<(), Error> {
    let s = session();
    let r: Option<bool> = hydrate_optional_field(s.document(), NodeRef::Root, "flag")?;
    assert_eq!(r, None);
    let s = true.reconcile(&s, NodeRef::Root, "flag")?;
    let r: Option<bool> = hydrate_optional_field(s.document(), NodeRef::Root, "flag")?;
    assert_eq!(r, Some(true));
    Ok(())
}

#[test]
fn scalar_hydrate_each_type() {
    let doc = session();
    let doc = doc.document();
    assert_eq!(bool::hydrate(doc, &DocValue::Bool(false)), Ok(false));
    assert_eq!(i64::hydrate(doc, &DocValue::Int(-5)), Ok(-5));
    assert_eq!(u64::hydrate(doc, &DocValue::Uint(5)), Ok(5));
    assert_eq!(Float64::hydrate(doc, &DocValue::Float(Float64::new(2.5))), Ok(Float64::new(2.5)));
    assert_eq!(String::hydrate(doc, &DocValue::Str("a".to_string())), Ok("a".to_string()));
    assert_eq!(
        bool::hydrate(doc, &DocValue::Null),
        Err(Error::TypeMismatch { expected: "Bool", found: "Null" })
    );
    assert_eq!(
        i64::hydrate(doc, &DocValue::Uint(1)),
        Err(Error::TypeMismatch { expected: "Int", found: "Uint" })
    );
    assert_eq!(
        Float64::hydrate(doc, &DocValue::Int(1)),
        Err(Error::TypeMismatch { expected: "Float", found: "Int" })
    );
    assert_eq!(
        String::hydrate(doc, &DocValue::Bool(true)),
        Err(Error::TypeMismatch { expected: "Str", found: "Bool" })
    );
}

#[test]
fn option_hydrate_null_and_inner() {
    let s = session();
    let doc = s.document();
    assert_eq!(Option::<u64>::hydrate(doc, &DocValue::Null), Ok(None));
    assert_eq!(Option::<u64>::hydrate(doc, &DocValue::Uint(4)), Ok(Some(4)));
    assert_eq!(
        Option::<u64>::hydrate(doc, &DocValue::Int(4)),
        Err(Error::TypeMismatch { expected: "Uint", found: "Int" })
    );
}

#[test]
fn vec_hydrate_needs_a_list_and_stops_at_first_bad_element() -> Result<(), Error> {
    let s = session();
    assert_eq!(
        Vec::<u64>::hydrate(s.document(), &DocValue::Uint(1)),
        Err(Error::TypeMismatch { expected: "List", found: "Uint" })
    );
    let (s, list) = vec![1u64, 2, 3].to_value(&s)?;
    assert_eq!(
        Vec::<bool>::hydrate(s.document(), &list),
        Err(Error::TypeMismatch { expected: "Bool", found: "Uint" })
    );
    Ok(())
}

#[test]
fn law_list_round_trip_u64() -> Result<(), Error> {
    let items = vec![10u64, 20, 30];
    let (s, list) = items.to_value(&session())?;
    assert_eq!(list, DocValue::ListRef(created(0)));
    // one tick for the list, one per element
    assert_eq!(s.clock_value(), 4);
    assert_eq!(Vec::<u64>::hydrate(s.document(), &list)?, items);
    Ok(())
}

#[test]
fn law_scalar_write_then_read() -> Result<(), Error> {
    let s = (-3i64).reconcile(&session(), NodeRef::Root, "k")?;
    assert_eq!(resolve_key(s.document(), NodeRef::Root, "k")?, DocValue::Int(-3));
    let s = Float64::new(0.25).reconcile(&s, NodeRef::Root, "f")?;
    assert_eq!(resolve_key(s.document(), NodeRef::Root, "f")?, DocValue::Float(Float64::new(0.25)));
    Ok(())
}

#[test]
fn law_scalars_decode() -> Result<(), Error> {
    let s = session();
    let (s, v) = 9u64.to_value(&s)?;
    assert_eq!(v, DocValue::Uint(9));
    assert_eq!(u64::hydrate(s.document(), &v)?, 9);
    let (s, v) = "word".to_string().to_value(&s)?;
    assert_eq!(String::hydrate(s.document(), &v)?, "word");
    assert_eq!(s.clock_value(), 0);
    Ok(())
}

#[test]
fn law_unchanged_scalar_is_skipped() -> Result<(), Error> {
    let s = 42u64.reconcile(&session(), NodeRef::Root, "n")?;
    assert_eq!(s.clock_value(), 1);
    let s = 42u64.reconcile(&s, NodeRef::Root, "n")?;
    assert_eq!(s.clock_value(), 1);
    let s = 43u64.reconcile(&s, NodeRef::Root, "n")?;
    assert_eq!(s.clock_value(), 2);
    assert_eq!(resolve_key(s.document(), NodeRef::Root, "n")?, DocValue::Uint(43));
    Ok(())
}

#[test]
fn law_write_leaves_other_keys() -> Result<(), Error> {
    let s = 1u64.reconcile(&session(), NodeRef::Root, "a")?;
    let s = 2u64.reconcile(&s, NodeRef::Root, "b")?;
    let s = 3u64.reconcile(&s, NodeRef::Root, "a")?;
    assert_eq!(resolve_key(s.document(), NodeRef::Root, "b")?, DocValue::Uint(2));
    assert_eq!(resolve_key(s.document(), NodeRef::Root, "a")?, DocValue::Uint(3));
    Ok(())
}

#[test]
fn law_clear_then_read_absent() -> Result<(), Error> {
    let s = Some(5i64).reconcile(&session(), NodeRef::Root, "opt")?;
    assert_eq!(try_resolve_key(s.document(), NodeRef::Root, "opt")?, Some(DocValue::Int(5)));
    let none: Option<i64> = None;
    let s = none.reconcile(&s, NodeRef::Root, "opt")?;
    assert_eq!(s.clock_value(), 2);
    assert_eq!(try_resolve_key(s.document(), NodeRef::Root, "opt")?, None);
    // clearing a key that holds nothing writes nothing
    let s = none.reconcile(&s, NodeRef::Root, "opt")?;
    assert_eq!(s.clock_value(), 2);
    Ok(())
}

#[test]
fn law_ensure_map_twice() -> Result<(), Error> {
    let (s, first) = ensure_map(&session(), NodeRef::Root, "m")?;
    assert_eq!(first, created(0));
    assert_eq!(s.clock_value(), 2);
    assert_eq!(resolve_key(s.document(), NodeRef::Root, "m")?, DocValue::MapRef(first));
    let (s, second) = ensure_map(&s, NodeRef::Root, "m")?;
    assert_eq!(second, first);
    assert_eq!(s.clock_value(), 2);
    Ok(())
}

#[test]
fn ensure_map_on_a_list_node_fails() -> Result<(), Error> {
    let (s, _) = vec![true].to_value(&session())?;
    assert_eq!(
        ensure_map(&s, created(0), "m").err(),
        Some(Error::Document(DocumentError::WrongNodeType { node: created(0), expected: "map" }))
    );
    Ok(())
}

#[test]
fn law_wrapped_variant_reads_back() -> Result<(), Error> {
    let (s, wrapper) = ensure_map(&session(), NodeRef::Root, "v")?;
    let s = 8u64.reconcile(&s, wrapper, "Score")?;
    let value = resolve_key(s.document(), NodeRef::Root, "v")?;
    assert_eq!(
        select_variant(s.document(), &value, &["Off"], &["Named", "Score"])?,
        Variant::Wrapped { index: 1, value: DocValue::Uint(8) }
    );
    Ok(())
}

#[test]
fn unit_variant_write_is_skipped_when_unchanged() -> Result<(), Error> {
    let s = reconcile_unit_variant(&session(), NodeRef::Root, "status", "Active")?;
    assert_eq!(s.clock_value(), 1);
    assert_eq!(resolve_key(s.document(), NodeRef::Root, "status")?, DocValue::Str("Active".to_string()));
    let s = reconcile_unit_variant(&s, NodeRef::Root, "status", "Active")?;
    assert_eq!(s.clock_value(), 1);
    let s = reconcile_unit_variant(&s, NodeRef::Root, "status", "Suspended")?;
    assert_eq!(s.clock_value(), 2);
    assert_eq!(resolve_key(s.document(), NodeRef::Root, "status")?, DocValue::Str("Suspended".to_string()));
    Ok(())
}

#[test]
fn ensure_variant_map_keeps_only_the_variant() -> Result<(), Error> {
    // a wrapper map that still names an earlier variant, and a later one
    let (s, wrapper) = ensure_variant_map(&session(), NodeRef::Root, "v", "Score")?;
    assert_eq!(wrapper, created(0));
    assert_eq!(s.clock_value(), 2);
    let s = 8u64.reconcile(&s, wrapper, "Score")?;
    let s = 1u64.reconcile(&s, wrapper, "Alpha")?;
    let (s, again) = ensure_variant_map(&s, NodeRef::Root, "v", "Score")?;
    assert_eq!(again, wrapper);
    // only "Alpha" was removed: one operation
    assert_eq!(s.clock_value(), 5);
    assert_eq!(try_resolve_key(s.document(), wrapper, "Alpha")?, None);
    assert_eq!(try_resolve_key(s.document(), wrapper, "Score")?, Some(DocValue::Uint(8)));
    let (s2, same) = ensure_variant_map(&s, NodeRef::Root, "v", "Score")?;
    assert_eq!(same, wrapper);
    assert_eq!(s2.clock_value(), 5);
    Ok(())
}

#[test]
fn law_variant_switch_reads_back() -> Result<(), Error> {
    let (s, wrapper) = ensure_variant_map(&session(), NodeRef::Root, "v", "Score")?;
    let s = 8u64.reconcile(&s, wrapper, "Score")?;
    // switch to the other wrapped variant, whose name sorts later
    let (s, wrapper2) = ensure_variant_map(&s, NodeRef::Root, "v", "Tally")?;
    assert_eq!(wrapper2, wrapper);
    let s = 9u64.reconcile(&s, wrapper2, "Tally")?;
    let value = resolve_key(s.document(), NodeRef::Root, "v")?;
    assert_eq!(
        select_variant(s.document(), &value, &["Off"], &["Score", "Tally"])?,
        Variant::Wrapped { index: 1, value: DocValue::Uint(9) }
    );
    Ok(())
}

#[test]
fn ensure_variant_map_at_clock_end() -> Result<(), Error> {
    let (s, wrapper) = ensure_variant_map(&session(), NodeRef::Root, "v", "A")?;
    let s = 1u64.reconcile(&s, wrapper, "B")?;
    let late = Session::from_parts(s.document().clone(), s.log().clone(), ReplicaId::new(1), u64::MAX);
    assert_eq!(ensure_variant_map(&late, NodeRef::Root, "v", "A").err(), Some(Error::ClockExhausted));
    Ok(())
}

#[test]
fn select_variant_reads_unit_names() -> Result<(), Error> {
    let s = session();
    let value = DocValue::Str("B".to_string());
    assert_eq!(select_variant(s.document(), &value, &["A", "B"], &[])?, Variant::Unit(1));
    Ok(())
}

#[test]
fn select_variant_errors() -> Result<(), Error> {
    let s = session();
    let doc = s.document();
    assert_eq!(
        select_variant(doc, &DocValue::Str("C".to_string()), &["A"], &["W"]),
        Err(Error::UnknownVariant { variant: "C".to_string() })
    );
    assert_eq!(
        select_variant(doc, &DocValue::Str("A".to_string()), &[], &["W"]),
        Err(Error::TypeMismatch { expected: "Str or Map (enum)", found: "Str" })
    );
    assert_eq!(
        select_variant(doc, &DocValue::Uint(1), &["A"], &["W"]),
        Err(Error::TypeMismatch { expected: "Str or Map (enum)", found: "Uint" })
    );
    let (s, empty) = new_map(&s)?;
    assert_eq!(
        select_variant(s.document(), &DocValue::MapRef(empty), &["A"], &["W"]),
        Err(Error::TypeMismatch { expected: "non-empty map (enum variant)", found: "empty map" })
    );
    let s = true.reconcile(&s, empty, "Other")?;
    assert_eq!(
        select_variant(s.document(), &DocValue::MapRef(empty), &["A"], &["W"]),
        Err(Error::UnknownVariant { variant: "Other".to_string() })
    );
    Ok(())
}

#[test]
fn select_variant_takes_the_least_key() -> Result<(), Error> {
    let (s, m) = new_map(&session())?;
    let s = 2u64.reconcile(&s, m, "Zeta")?;
    let s = 1u64.reconcile(&s, m, "Alpha")?;
    assert_eq!(
        select_variant(s.document(), &DocValue::MapRef(m), &[], &["Zeta", "Alpha"])?,
        Variant::Wrapped { index: 1, value: DocValue::Uint(1) }
    );
    Ok(())
}

#[test]
fn new_map_and_write_value() -> Result<(), Error> {
    let (s, m) = new_map(&session())?;
    assert_eq!(m, created(0));
    assert_eq!(s.clock_value(), 1);
    let s = write_value(&s, m, "k", &DocValue::Null)?;
    // written even when unchanged: no skipping
    let s = write_value(&s, m, "k", &DocValue::Null)?;
    assert_eq!(s.clock_value(), 3);
    assert_eq!(resolve_key(s.document(), m, "k")?, DocValue::Null);
    Ok(())
}

#[test]
fn exhausted_clock_is_reported() -> Result<(), Error> {
    let s = 1u64.reconcile(&session(), NodeRef::Root, "n")?;
    let s = Session::from_parts(s.document().clone(), s.log().clone(), ReplicaId::new(1), u64::MAX);
    // unchanged: nothing to write, so nothing to stamp
    let same = 1u64.reconcile(&s, NodeRef::Root, "n")?;
    assert_eq!(same.clock_value(), u64::MAX);
    assert_eq!(2u64.reconcile(&s, NodeRef::Root, "n").err(), Some(Error::ClockExhausted));
    assert_eq!(vec![1u64].to_value(&s).err(), Some(Error::ClockExhausted));
    Ok(())
}

#[test]
fn reused_tag_is_a_duplicate_operation() -> Result<(), Error> {
    let s = 1u64.reconcile(&session(), NodeRef::Root, "n")?;
    let s = Session::from_parts(s.document().clone(), s.log().clone(), ReplicaId::new(1), 0);
    assert_eq!(
        2u64.reconcile(&s, NodeRef::Root, "n").err(),
        Some(Error::Document(DocumentError::DuplicateOp { replica: 1, timestamp: 0 }))
    );
    Ok(())
}

#[test]
fn float_scalars_compare_by_value() -> Result<(), Error> {
    let s = Float64::new(1.5).reconcile(&session(), NodeRef::Root, "f")?;
    let s = Float64::new(1.5).reconcile(&s, NodeRef::Root, "f")?;
    assert_eq!(s.clock_value(), 1);
    let s = Float64::new(-0.0).reconcile(&s, NodeRef::Root, "f")?;
    let s = Float64::new(0.0).reconcile(&s, NodeRef::Root, "f")?;
    assert_eq!(s.clock_value(), 3);
    Ok(())
}

#[test]
fn law_fields_read_back() -> Result<(), Error> {
    let s = "n".to_string().reconcile(&session(), NodeRef::Root, "name")?;
    let s = 3u64.reconcile(&s, NodeRef::Root, "count")?;
    let s = false.reconcile(&s, NodeRef::Root, "enabled")?;
    assert_eq!(resolve_key(s.document(), NodeRef::Root, "name")?, DocValue::Str("n".to_string()));
    assert_eq!(resolve_key(s.document(), NodeRef::Root, "count")?, DocValue::Uint(3));
    assert_eq!(resolve_key(s.document(), NodeRef::Root, "enabled")?, DocValue::Bool(false));
    Ok(())
}

#[test]
fn law_unchanged_fields_skipped() -> Result<(), Error> {
    let s = "n".to_string().reconcile(&session(), NodeRef::Root, "name")?;
    let s = 3u64.reconcile(&s, NodeRef::Root, "count")?;
    let before = s.clock_value();
    let s = "n".to_string().reconcile(&s, NodeRef::Root, "name")?;
    let s = 3u64.reconcile(&s, NodeRef::Root, "count")?;
    assert_eq!(s.clock_value(), before);
    Ok(())
}

#[test]
fn vec_reconcile_replaces_the_list() -> Result<(), Error> {
    let s = vec![1u64].reconcile(&session(), NodeRef::Root, "l")?;
    assert_eq!(resolve_key(s.document(), NodeRef::Root, "l")?, DocValue::ListRef(created(0)));
    let s = vec![1u64].reconcile(&s, NodeRef::Root, "l")?;
    // a new list node every time, even for the same elements
    assert_eq!(resolve_key(s.document(), NodeRef::Root, "l")?, DocValue::ListRef(created(3)));
    let back: Vec<u64> = hydrate_field(s.document(), NodeRef::Root, "l")?;
    assert_eq!(back, vec![1]);
    Ok(())
}

#[test]
fn empty_vec_round_trip() -> Result<(), Error> {
    let empty: Vec<String> = Vec::new();
    let (s, list) = empty.to_value(&session())?;
    assert_eq!(s.clock_value(), 1);
    assert_eq!(Vec::<String>::hydrate(s.document(), &list)?, empty);
    Ok(())
}

#[test]
fn law_list_reconcile_then_read() -> Result<(), Error> {
    let s = vec!["x".to_string(), "y".to_string()].reconcile(&session(), NodeRef::Root, "tags")?;
    let list = resolve_key(s.document(), NodeRef::Root, "tags")?;
    assert_eq!(list, DocValue::ListRef(created(0)));
    assert_eq!(Vec::<String>::hydrate(s.document(), &list)?, vec!["x".to_string(), "y".to_string()]);
    Ok(())
}

#[test]
fn law_ensure_map_then_read() -> Result<(), Error> {
    let (s, inner) = new_map(&session())?;
    let s = write_value(&s, NodeRef::Root, "held", &DocValue::MapRef(inner))?;
    let (s, found) = ensure_map(&s, NodeRef::Root, "held")?;
    assert_eq!(found, inner);
    let (s, fresh) = ensure_map(&s, NodeRef::Root, "new")?;
    assert_eq!(resolve_key(s.document(), NodeRef::Root, "new")?, DocValue::MapRef(fresh));
    assert_eq!(try_resolve_key(s.document(), fresh, "anything")?, None);
    Ok(())
}

#[test]
fn error_messages() {
    assert_eq!(Error::ClockExhausted.message(), "session clock exhausted");
    assert_eq!(
        Error::TypeMismatch { expected: "Str", found: "Uint" }.message(),
        "type mismatch: expected Str, found Uint"
    );
    assert_eq!(
        Error::UnknownVariant { variant: "Gone".to_string() }.message(),
        "unknown enum variant: \"Gone\""
    );
    assert_eq!(
        Error::MissingKey { node: NodeRef::Root, key: "name".to_string() }.message(),
        "missing key \"name\" in node Root"
    );
    assert_eq!(
        Error::UnresolvedConcurrency { node: created(0), key: "x".to_string() }.message(),
        "unresolved concurrent values at \"x\" in node Created(Tag(ReplicaId(1), Timestamp(0)))"
    );
    assert_eq!(
        Error::Document(DocumentError::DuplicateOp { replica: 1, timestamp: 0 }).message(),
        "document error: duplicate operation: replica:1@t:0"
    );
    assert_eq!(
        Error::Document(DocumentError::WrongNodeType { node: NodeRef::Root, expected: "list" }).message(),
        "document error: wrong node type for Root: expected list"
    );
}

#[test]
fn law_unchanged_optional_fields_skipped() -> Result<(), Error> {
    let s = Some(1u64).reconcile(&session(), NodeRef::Root, "a")?;
    let s = None::<u64>.reconcile(&s, NodeRef::Root, "b")?;
    assert_eq!(s.clock_value(), 1);
    let again = Some(1u64).reconcile(&s, NodeRef::Root, "a")?;
    let again = None::<u64>.reconcile(&again, NodeRef::Root, "b")?;
    assert_eq!(again.clock_value(), 1);
    Ok(())
}

#[test]
fn law_unchanged_nested_struct_skipped() -> Result<(), Error> {
    let (s, inner) = ensure_map(&session(), NodeRef::Root, "inner")?;
    let s = "x".to_string().reconcile(&s, inner, "name")?;
    let s = None::<bool>.reconcile(&s, inner, "flag")?;
    assert_eq!(s.clock_value(), 3);
    let (again, same) = ensure_map(&s, NodeRef::Root, "inner")?;
    assert_eq!(same, inner);
    let again = "x".to_string().reconcile(&again, inner, "name")?;
    let again = None::<bool>.reconcile(&again, inner, "flag")?;
    assert_eq!(again.clock_value(), 3);
    Ok(())
}

#[test]
fn law_unchanged_newtype_variant_skipped() -> Result<(), Error> {
    let (s, wrapper) = ensure_variant_map(&session(), NodeRef::Root, "v", "Score")?;
    let s = 8u64.reconcile(&s, wrapper, "Score")?;
    assert_eq!(s.clock_value(), 3);
    let (again, same) = ensure_variant_map(&s, NodeRef::Root, "v", "Score")?;
    assert_eq!(same, wrapper);
    let again = 8u64.reconcile(&again, same, "Score")?;
    assert_eq!(again.clock_value(), 3);
    Ok(())
}

#[test]
fn law_unchanged_struct_variant_skipped() -> Result<(), Error> {
    let (s, wrapper) = ensure_variant_map(&session(), NodeRef::Root, "v", "Named")?;
    let (s, inner) = ensure_map(&s, wrapper, "Named")?;
    let s = "why".to_string().reconcile(&s, inner, "reason")?;
    assert_eq!(s.clock_value(), 5);
    let (again, same_wrapper) = ensure_variant_map(&s, NodeRef::Root, "v", "Named")?;
    let (again, same_inner) = ensure_map(&again, same_wrapper, "Named")?;
    let again = "why".to_string().reconcile(&again, same_inner, "reason")?;
    assert_eq!((same_wrapper, same_inner), (wrapper, inner));
    assert_eq!(again.clock_value(), 5);
    Ok(())
}

#[test]
fn law_variant_value_reads_back() -> Result<(), Error> {
    let (s, wrapper) = new_map(&session())?;
    let (s, x) = 5u64.to_value(&s)?;
    let s = write_value(&s, wrapper, "Score", &x)?;
    assert_eq!(
        select_variant(s.document(), &DocValue::MapRef(wrapper), &["Off"], &["Named", "Score"])?,
        Variant::Wrapped { index: 1, value: DocValue::Uint(5) }
    );
    Ok(())
}
