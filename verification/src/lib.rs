//! Mapping between Rust types and `automerge_cat` documents.
//!
//! [`Hydrate`] constructs a Rust value from a document value;
//! [`Reconcile`] writes a Rust value into an editing session, skipping
//! scalar writes that would not change the document, so only real
//! changes produce new CRDT operations.
//!
//! | Rust type | Document form |
//! |-----------|---------------|
//! | named struct `{ a, b }` | map node with keys `"a"`, `"b"` |
//! | newtype struct `Foo(T)` | the form of `T` |
//! | unit enum variant | the string of its name |
//! | newtype enum variant | map `{ name: <inner> }` |
//! | struct enum variant | map `{ name: { field: ... } }` |
//! | `Vec<T>` | list node |
//! | `Option<T>` | `None` is an absent key, `Some(v)` the form of `v` |
//! | `bool` / `i64` / `u64` / `Float64` / `String` | the matching scalar |
use vstd::prelude::*;

pub mod document;
pub mod error;
pub mod hydrate;
pub mod laws;
pub mod reconcile;
pub mod variant;

pub use document::{DocValue, DocumentError, NodeRef, Position};
pub use error::Error;
pub use hydrate::{
    expect_map, hydrate_field, hydrate_optional_field, resolve_key, try_resolve_key, value_type_name,
    Hydrate, HydrateRoot,
};
pub use reconcile::{ensure_map, new_map, write_value, Reconcile, ReconcileRoot};
pub use variant::{ensure_variant_map, reconcile_unit_variant, select_variant, Variant};

pub use automerge_cat::{Document, Float64, Session};

verus! {

/// Hydrate a value from the document root.
pub fn hydrate<T: HydrateRoot>(doc: &automerge_cat::Document) -> (r: Result<T, Error>)
    ensures
        call_ensures(T::hydrate_root, (doc,), r),
{
    // called as a function value, so that its outcome is known by `call_ensures`
    let hydrate_root = T::hydrate_root;
    hydrate_root(doc)
}

/// Reconcile a value into the document root.
pub fn reconcile<T: ReconcileRoot>(value: &T, session: &automerge_cat::Session) -> (r: Result<
    automerge_cat::Session,
    Error,
>)
    ensures
        call_ensures(T::reconcile_root, (value, session), r),
        r matches Ok(s2) ==> document::session_later(*session, s2),
{
    // called as a function value, so that its outcome is known by `call_ensures`
    let reconcile_root = T::reconcile_root;
    reconcile_root(value, session)
}

} // verus!
