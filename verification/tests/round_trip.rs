//! Integration tests: reconcile then hydrate (round-trip).
//!
//! The `Hydrate`/`Reconcile` impls below are written out in the form that
//! the derive expansion produces.

use automerge_cat::{Document, Float64, ReplicaId, Session};
use autosurgeon_cat::{
    ensure_map, ensure_variant_map, expect_map, hydrate_field, hydrate_optional_field, new_map,
    reconcile_unit_variant, resolve_key, select_variant, write_value, DocValue, Error, Hydrate,
    HydrateRoot, NodeRef, Reconcile, ReconcileRoot, Variant,
};

// ---------------------------------------------------------------------------
// Test types
// ---------------------------------------------------------------------------

#[derive(Debug, Clone, PartialEq)]
struct Config {
    name: String,
    count: u64,
    enabled: bool,
}

#[derive(Debug, Clone, PartialEq)]
struct WithOptional {
    label: String,
    score: Option<i64>,
}

#[derive(Debug, Clone, PartialEq)]
struct WithFloat {
    value: f64,
}

#[derive(Debug, Clone, PartialEq)]
struct Nested {
    name: String,
    inner: Config,
}

#[derive(Debug, Clone, PartialEq)]
struct WithList {
    tags: Vec<String>,
}

#[derive(Debug, Clone, PartialEq)]
struct NewtypeWrapper(u64);

#[derive(Debug, Clone, PartialEq)]
enum Status {
    Active,
    Suspended,
}

#[derive(Debug, Clone, PartialEq)]
enum RichEnum {
    Off,
    Score(u64),
    Named { reason: String },
}

// ---------------------------------------------------------------------------
// Impls in derived form
// ---------------------------------------------------------------------------

impl Hydrate for Config {
    fn hydrate(doc: &Document, value: &DocValue) -> Result<Self, Error> {
        let node = expect_map(value)?;
        let name = hydrate_field(doc, node, "name")?;
        let count = hydrate_field(doc, node, "count")?;
        let enabled = hydrate_field(doc, node, "enabled")?;
        Ok(Self { name, count, enabled })
    }
}

impl HydrateRoot for Config {
    fn hydrate_root(doc: &Document) -> Result<Self, Error> {
        let node = NodeRef::Root;
        let name = hydrate_field(doc, node, "name")?;
        let count = hydrate_field(doc, node, "count")?;
        let enabled = hydrate_field(doc, node, "enabled")?;
        Ok(Self { name, count, enabled })
    }
}

impl Reconcile for Config {
    fn reconcile(&self, session: &Session, node: NodeRef, key: &str) -> Result<Session, Error> {
        let (s, map_id) = ensure_map(session, node, key)?;
        let s = self.name.reconcile(&s, map_id, "name")?;
        let s = self.count.reconcile(&s, map_id, "count")?;
        let s = self.enabled.reconcile(&s, map_id, "enabled")?;
        Ok(s)
    }

    fn to_value(&self, session: &Session) -> Result<(Session, DocValue), Error> {
        let (s, map_id) = new_map(session)?;
        let s = self.name.reconcile(&s, map_id, "name")?;
        let s = self.count.reconcile(&s, map_id, "count")?;
        let s = self.enabled.reconcile(&s, map_id, "enabled")?;
        Ok((s, DocValue::MapRef(map_id)))
    }
}

impl ReconcileRoot for Config {
    fn reconcile_root(&self, session: &Session) -> Result<Session, Error> {
        let root = NodeRef::Root;
        let s = session.clone();
        let s = self.name.reconcile(&s, root, "name")?;
        let s = self.count.reconcile(&s, root, "count")?;
        let s = self.enabled.reconcile(&s, root, "enabled")?;
        Ok(s)
    }
}

impl HydrateRoot for WithOptional {
    fn hydrate_root(doc: &Document) -> Result<Self, Error> {
        let node = NodeRef::Root;
        let label = hydrate_field(doc, node, "label")?;
        let score = hydrate_optional_field(doc, node, "score")?;
        Ok(Self { label, score })
    }
}

impl ReconcileRoot for WithOptional {
    fn reconcile_root(&self, session: &Session) -> Result<Session, Error> {
        let root = NodeRef::Root;
        let s = session.clone();
        let s = self.label.reconcile(&s, root, "label")?;
        let s = self.score.reconcile(&s, root, "score")?;
        Ok(s)
    }
}

impl HydrateRoot for WithFloat {
    fn hydrate_root(doc: &Document) -> Result<Self, Error> {
        let node = NodeRef::Root;
        let value = hydrate_field::<Float64>(doc, node, "value")?.value();
        Ok(Self { value })
    }
}

impl ReconcileRoot for WithFloat {
    fn reconcile_root(&self, session: &Session) -> Result<Session, Error> {
        let root = NodeRef::Root;
        let s = session.clone();
        let s = Reconcile::reconcile(&Float64::new(*&self.value), &s, root, "value")?;
        Ok(s)
    }
}

impl HydrateRoot for Nested {
    fn hydrate_root(doc: &Document) -> Result<Self, Error> {
        let node = NodeRef::Root;
        let name = hydrate_field(doc, node, "name")?;
        let inner = hydrate_field(doc, node, "inner")?;
        Ok(Self { name, inner })
    }
}

impl ReconcileRoot for Nested {
    fn reconcile_root(&self, session: &Session) -> Result<Session, Error> {
        let root = NodeRef::Root;
        let s = session.clone();
        let s = self.name.reconcile(&s, root, "name")?;
        let s = self.inner.reconcile(&s, root, "inner")?;
        Ok(s)
    }
}

impl HydrateRoot for WithList {
    fn hydrate_root(doc: &Document) -> Result<Self, Error> {
        let node = NodeRef::Root;
        let tags = hydrate_field(doc, node, "tags")?;
        Ok(Self { tags })
    }
}

impl ReconcileRoot for WithList {
    fn reconcile_root(&self, session: &Session) -> Result<Session, Error> {
        let root = NodeRef::Root;
        let s = session.clone();
        let s = Reconcile::reconcile(&self.tags, &s, root, "tags")?;
        Ok(s)
    }
}

impl Hydrate for NewtypeWrapper {
    fn hydrate(doc: &Document, value: &DocValue) -> Result<Self, Error> {
        Hydrate::hydrate(doc, value).map(Self)
    }
}

impl Reconcile for NewtypeWrapper {
    fn reconcile(&self, session: &Session, node: NodeRef, key: &str) -> Result<Session, Error> {
        Reconcile::reconcile(&self.0, session, node, key)
    }

    fn to_value(&self, session: &Session) -> Result<(Session, DocValue), Error> {
        Reconcile::to_value(&self.0, session)
    }
}

impl Hydrate for Status {
    fn hydrate(doc: &Document, value: &DocValue) -> Result<Self, Error> {
        match select_variant(doc, value, &["Active", "Suspended"], &[])? {
            Variant::Unit(0) => Ok(Self::Active),
            Variant::Unit(1) => Ok(Self::Suspended),
            _ => unreachable!(),
        }
    }
}

impl Reconcile for Status {
    fn reconcile(&self, session: &Session, node: NodeRef, key: &str) -> Result<Session, Error> {
        match self {
            Self::Active => reconcile_unit_variant(session, node, key, "Active"),
            Self::Suspended => reconcile_unit_variant(session, node, key, "Suspended"),
        }
    }

    fn to_value(&self, session: &Session) -> Result<(Session, DocValue), Error> {
        match self {
            Self::Active => Ok((session.clone(), DocValue::Str("Active".to_string()))),
            Self::Suspended => Ok((session.clone(), DocValue::Str("Suspended".to_string()))),
        }
    }
}

impl Hydrate for RichEnum {
    fn hydrate(doc: &Document, value: &DocValue) -> Result<Self, Error> {
        match select_variant(doc, value, &["Off"], &["Score", "Named"])? {
            Variant::Unit(0) => Ok(Self::Off),
            Variant::Wrapped { index: 0, value } => Hydrate::hydrate(doc, &value).map(Self::Score),
            Variant::Wrapped { index: 1, value } => {
                let inner = expect_map(&value)?;
                let reason = hydrate_field(doc, inner, "reason")?;
                Ok(Self::Named { reason })
            }
            _ => unreachable!(),
        }
    }
}

impl Reconcile for RichEnum {
    fn reconcile(&self, session: &Session, node: NodeRef, key: &str) -> Result<Session, Error> {
        match self {
            Self::Off => reconcile_unit_variant(session, node, key, "Off"),
            Self::Score(inner) => {
                let (s, wrapper) = ensure_variant_map(session, node, key, "Score")?;
                Reconcile::reconcile(inner, &s, wrapper, "Score")
            }
            Self::Named { reason } => {
                let (s, wrapper) = ensure_variant_map(session, node, key, "Named")?;
                let (s, inner) = ensure_map(&s, wrapper, "Named")?;
                let s = Reconcile::reconcile(reason, &s, inner, "reason")?;
                Ok(s)
            }
        }
    }

    fn to_value(&self, session: &Session) -> Result<(Session, DocValue), Error> {
        match self {
            Self::Off => Ok((session.clone(), DocValue::Str("Off".to_string()))),
            Self::Score(inner) => {
                let (s, wrapper) = new_map(session)?;
                let (s, inner_value) = Reconcile::to_value(inner, &s)?;
                let s = write_value(&s, wrapper, "Score", &inner_value)?;
                Ok((s, DocValue::MapRef(wrapper)))
            }
            Self::Named { reason } => {
                let (s, wrapper) = new_map(session)?;
                let (s, inner) = new_map(&s)?;
                let s = write_value(&s, wrapper, "Named", &DocValue::MapRef(inner))?;
                let s = Reconcile::reconcile(reason, &s, inner, "reason")?;
                Ok((s, DocValue::MapRef(wrapper)))
            }
        }
    }
}

// ---------------------------------------------------------------------------
// Helpers
// ---------------------------------------------------------------------------

fn make_session() -> Session {
    Session::new(ReplicaId::new(1))
}

// ---------------------------------------------------------------------------
// Tests
// ---------------------------------------------------------------------------

#[test]
fn round_trip_named_struct() -> Result<(), autosurgeon_cat::Error> {
    let session = make_session();
    let original = Config {
        name: "test".to_string(),
        count: 42,
        enabled: true,
    };
    let session = autosurgeon_cat::reconcile(&original, &session)?;
    let hydrated: Config = autosurgeon_cat::hydrate(session.document())?;
    assert_eq!(original, hydrated);
    Ok(())
}

#[test]
fn round_trip_with_some() -> Result<(), autosurgeon_cat::Error> {
    let session = make_session();
    let original = WithOptional {
        label: "hello".to_string(),
        score: Some(99),
    };
    let session = autosurgeon_cat::reconcile(&original, &session)?;
    let hydrated: WithOptional = autosurgeon_cat::hydrate(session.document())?;
    assert_eq!(original, hydrated);
    Ok(())
}

#[test]
fn round_trip_with_none() -> Result<(), autosurgeon_cat::Error> {
    let session = make_session();
    let original = WithOptional {
        label: "hello".to_string(),
        score: None,
    };
    let session = autosurgeon_cat::reconcile(&original, &session)?;
    let hydrated: WithOptional = autosurgeon_cat::hydrate(session.document())?;
    assert_eq!(original, hydrated);
    Ok(())
}

#[test]
fn round_trip_nested_struct() -> Result<(), autosurgeon_cat::Error> {
    let session = make_session();
    let original = Nested {
        name: "outer".to_string(),
        inner: Config {
            name: "inner".to_string(),
            count: 7,
            enabled: false,
        },
    };
    let session = autosurgeon_cat::reconcile(&original, &session)?;
    let hydrated: Nested = autosurgeon_cat::hydrate(session.document())?;
    assert_eq!(original, hydrated);
    Ok(())
}

#[test]
fn round_trip_vec() -> Result<(), autosurgeon_cat::Error> {
    let session = make_session();
    let original = WithList {
        tags: vec!["a".to_string(), "b".to_string(), "c".to_string()],
    };
    let session = autosurgeon_cat::reconcile(&original, &session)?;
    let hydrated: WithList = autosurgeon_cat::hydrate(session.document())?;
    assert_eq!(original, hydrated);
    Ok(())
}

#[test]
fn round_trip_unit_enum() -> Result<(), autosurgeon_cat::Error> {
    let session = make_session();
    let parent = Config {
        name: "demo".to_string(),
        count: 1,
        enabled: true,
    };
    let session = autosurgeon_cat::reconcile(&parent, &session)?;
    // Write a unit enum variant at a key
    let root = NodeRef::Root;
    let session = Status::Active.reconcile(&session, root, "status")?;
    let hydrated = <Status as autosurgeon_cat::Hydrate>::hydrate(
        session.document(),
        &autosurgeon_cat::resolve_key(session.document(), root, "status")?,
    )?;
    assert_eq!(Status::Active, hydrated);
    Ok(())
}

#[test]
fn round_trip_newtype_enum() -> Result<(), autosurgeon_cat::Error> {
    let session = make_session();
    let root = NodeRef::Root;
    let original = RichEnum::Score(42);
    let session = original.reconcile(&session, root, "val")?;
    let hydrated = <RichEnum as autosurgeon_cat::Hydrate>::hydrate(
        session.document(),
        &autosurgeon_cat::resolve_key(session.document(), root, "val")?,
    )?;
    assert_eq!(original, hydrated);
    Ok(())
}

#[test]
fn round_trip_named_enum() -> Result<(), autosurgeon_cat::Error> {
    let session = make_session();
    let root = NodeRef::Root;
    let original = RichEnum::Named {
        reason: "policy".to_string(),
    };
    let session = original.reconcile(&session, root, "val")?;
    let hydrated = <RichEnum as autosurgeon_cat::Hydrate>::hydrate(
        session.document(),
        &autosurgeon_cat::resolve_key(session.document(), root, "val")?,
    )?;
    assert_eq!(original, hydrated);
    Ok(())
}

#[test]
fn smart_reconcile_skips_unchanged_scalar() -> Result<(), autosurgeon_cat::Error> {
    let session = make_session();
    let original = Config {
        name: "test".to_string(),
        count: 42,
        enabled: true,
    };
    let session = autosurgeon_cat::reconcile(&original, &session)?;
    let clock_after_first = session.clock_value();

    // Reconcile the same value again
    let session = autosurgeon_cat::reconcile(&original, &session)?;
    let clock_after_second = session.clock_value();

    // Clock should not advance (no new operations)
    assert_eq!(clock_after_first, clock_after_second);
    Ok(())
}

#[test]
fn smart_reconcile_updates_changed_field() -> Result<(), autosurgeon_cat::Error> {
    let session = make_session();
    let v1 = Config {
        name: "test".to_string(),
        count: 1,
        enabled: true,
    };
    let session = autosurgeon_cat::reconcile(&v1, &session)?;

    let v2 = Config {
        name: "test".to_string(),
        count: 2,
        enabled: true,
    };
    let session = autosurgeon_cat::reconcile(&v2, &session)?;

    let hydrated: Config = autosurgeon_cat::hydrate(session.document())?;
    assert_eq!(v2, hydrated);
    Ok(())
}

#[test]
fn round_trip_newtype() -> Result<(), autosurgeon_cat::Error> {
    let session = make_session();
    let root = NodeRef::Root;
    let original = NewtypeWrapper(123);
    let session = original.reconcile(&session, root, "wrapped")?;
    let hydrated = <NewtypeWrapper as autosurgeon_cat::Hydrate>::hydrate(
        session.document(),
        &autosurgeon_cat::resolve_key(session.document(), root, "wrapped")?,
    )?;
    assert_eq!(original, hydrated);
    Ok(())
}

#[test]
fn round_trip_float() -> Result<(), autosurgeon_cat::Error> {
    let session = make_session();
    let original = WithFloat { value: 1.234_567 };
    let session = autosurgeon_cat::reconcile(&original, &session)?;
    let hydrated: WithFloat = autosurgeon_cat::hydrate(session.document())?;
    assert!((original.value - hydrated.value).abs() < f64::EPSILON);
    Ok(())
}

#[test]
fn resolve_key_reads_what_reconcile_wrote() -> Result<(), Error> {
    let session = make_session();
    let session = 5u64.reconcile(&session, NodeRef::Root, "n")?;
    assert_eq!(resolve_key(session.document(), NodeRef::Root, "n")?, DocValue::Uint(5));
    Ok(())
}
