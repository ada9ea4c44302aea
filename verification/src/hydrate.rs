//! Hydrate: construct Rust values from document contents.
//!
//! [`Hydrate`] maps a document value to a Rust type; [`HydrateRoot`]
//! reads a struct directly from the document root map.  The helpers
//! resolve a map key to a single value (refusing unresolved concurrent
//! writes), check for map references, and name value variants.
use vstd::prelude::*;

use crate::document::{
    doc_get_key, doc_list_elements, doc_nodes, element_values, key_values, list_node, map_node,
    views, wrong_node, DocValue, NodeModel, NodeRef, ValueView,
};
use crate::error::{is_conflict, is_missing_key, Error};

verus! {

// ---------------------------------------------------------------------------
// Traits
// ---------------------------------------------------------------------------

/// Construct `Self` from a document value.
///
/// Scalars extract directly; compound types (structs, enums) expect a map
/// reference and read their fields from the nested map node.
pub trait Hydrate: Sized {
    /// Hydrate from a single resolved document value.
    fn hydrate(doc: &automerge_cat::Document, value: &DocValue) -> Result<Self, Error>;
}

/// Hydrate `Self` directly from the document root map.
pub trait HydrateRoot: Sized {
    /// Read all fields from the root map of `doc`.
    fn hydrate_root(doc: &automerge_cat::Document) -> Result<Self, Error>;
}

// ---------------------------------------------------------------------------
// Specifications
// ---------------------------------------------------------------------------

/// The name of a value's variant.
pub open spec fn variant_name(v: ValueView) -> &'static str {
    match v {
        ValueView::Null => "Null",
        ValueView::Bool(_) => "Bool",
        ValueView::Int(_) => "Int",
        ValueView::Uint(_) => "Uint",
        ValueView::Float(_) => "Float",
        ValueView::Str(_) => "Str",
        ValueView::MapRef(_) => "Map",
        ValueView::ListRef(_) => "List",
        ValueView::TextRef(_) => "Text",
    }
}

/// The error for a value of the wrong variant.
pub open spec fn mismatch(expected: &'static str, found: ValueView) -> Error {
    Error::TypeMismatch { expected, found: variant_name(found) }
}

/// What looking a key up in a map node finds.
pub enum Lookup {
    /// The node is missing or is not a map.
    NotMap,
    /// The key holds no value.
    Absent,
    /// The key holds exactly this value.
    Single(ValueView),
    /// The key holds several concurrent values.
    Conflict,
}

/// What the key `key` of the node `node` holds.
pub open spec fn lookup(nodes: Map<NodeRef, NodeModel>, node: NodeRef, key: Seq<char>) -> Lookup {
    match map_node(nodes, node) {
        None => Lookup::NotMap,
        Some(m) => {
            let vals = key_values(m, key);
            if vals.len() == 0 {
                Lookup::Absent
            } else if vals.len() == 1 {
                Lookup::Single(vals.choose())
            } else {
                Lookup::Conflict
            }
        },
    }
}

/// `Ok(x)` becomes `Ok(Some(x))`; errors pass through.
pub open spec fn some_of<T>(r: Result<T, Error>) -> Result<Option<T>, Error> {
    match r {
        Ok(x) => Ok(Some(x)),
        Err(e) => Err(e),
    }
}

/// Hydrating each of `vs` in `doc` as a `T` gives `r`: all of them in
/// order, or the error of the first that fails.
pub open spec fn hydrated_each<T: Hydrate>(
    doc: &automerge_cat::Document,
    vs: Seq<DocValue>,
    r: Result<Vec<T>, Error>,
) -> bool {
    match r {
        Ok(out) => out@.len() == vs.len() && forall|i: int|
            0 <= i < vs.len() ==> call_ensures(T::hydrate, (doc, &vs[i]), Ok::<T, Error>(#[trigger] out@[i])),
        Err(e) => exists|k: int|
            0 <= k < vs.len() && (forall|i: int|
                0 <= i < k ==> exists|x: T| call_ensures(T::hydrate, (doc, #[trigger] &vs[i]), Ok::<T, Error>(x)))
                && call_ensures(T::hydrate, (doc, &vs[k]), Err::<T, Error>(e)),
    }
}

// ---------------------------------------------------------------------------
// Helpers
// ---------------------------------------------------------------------------

/// Human-readable name for a value's variant.
pub fn value_type_name(value: &DocValue) -> (r: &'static str)
    ensures
        r == variant_name(value@),
{
    match value {
        DocValue::Null => "Null",
        DocValue::Bool(_) => "Bool",
        DocValue::Int(_) => "Int",
        DocValue::Uint(_) => "Uint",
        DocValue::Float(_) => "Float",
        DocValue::Str(_) => "Str",
        DocValue::MapRef(_) => "Map",
        DocValue::ListRef(_) => "List",
        DocValue::TextRef(_) => "Text",
    }
}

/// Extract the node of a map reference.
pub fn expect_map(value: &DocValue) -> (r: Result<NodeRef, Error>)
    ensures
        r == match value@ {
            ValueView::MapRef(id) => Ok(id),
            other => Err(mismatch("Map", other)),
        },
{
    match value {
        DocValue::MapRef(id) => Ok(*id),
        other => Err(Error::TypeMismatch { expected: "Map", found: value_type_name(other) }),
    }
}

/// Values read once each, with the set `vals`: as many as the set holds,
/// and a single one is the set's only member.
proof fn lemma_single_value(vs: Seq<DocValue>, vals: Set<ValueView>)
    requires
        views(vs).no_duplicates(),
        views(vs).to_set() == vals,
    ensures
        vals.len() == vs.len(),
        vs.len() == 1 ==> vals.choose() == vs[0]@ && vals == set![vs[0]@],
{
    views(vs).unique_seq_to_set();
    if vs.len() == 1 {
        assert(views(vs)[0] == vs[0]@);
        assert(vals =~= set![vs[0]@]);
        assert(vals.contains(vals.choose()));
    }
}

/// Try to resolve a map key to a single value: `None` when the key holds
/// no value, the value when it holds one, an error when it holds several
/// concurrent values or the node is not a map.
pub fn try_resolve_key(doc: &automerge_cat::Document, node: NodeRef, key: &str) -> (r: Result<
    Option<DocValue>,
    Error,
>)
    ensures
        match lookup(doc_nodes(*doc), node, key@) {
            Lookup::NotMap => r matches Err(Error::Document(e)) && wrong_node(doc_nodes(*doc), node, "map"@, e),
            Lookup::Absent => r == Ok::<Option<DocValue>, Error>(None),
            Lookup::Single(v) => r matches Ok(Some(x)) && x@ == v,
            Lookup::Conflict => r matches Err(e) && is_conflict(e, node, key@),
        },
{
    let values = match doc_get_key(doc, node, key) {
        Ok(values) => values,
        Err(e) => return Err(Error::Document(e)),
    };
    proof {
        lemma_single_value(values@, key_values(map_node(doc_nodes(*doc), node)->0, key@));
    }
    if values.len() == 0 {
        Ok(None)
    } else if values.len() == 1 {
        Ok(Some(values[0].clone()))
    } else {
        Err(Error::UnresolvedConcurrency { node, key: key.to_owned() })
    }
}

/// Resolve a map key to exactly one value.
pub fn resolve_key(doc: &automerge_cat::Document, node: NodeRef, key: &str) -> (r: Result<DocValue, Error>)
    ensures
        match lookup(doc_nodes(*doc), node, key@) {
            Lookup::NotMap => r matches Err(Error::Document(e)) && wrong_node(doc_nodes(*doc), node, "map"@, e),
            Lookup::Absent => r matches Err(e) && is_missing_key(e, node, key@),
            Lookup::Single(v) => r matches Ok(x) && x@ == v,
            Lookup::Conflict => r matches Err(e) && is_conflict(e, node, key@),
        },
{
    match try_resolve_key(doc, node, key)? {
        Some(v) => Ok(v),
        None => Err(Error::MissingKey { node, key: key.to_owned() }),
    }
}

/// Resolve a key and hydrate its value.
pub fn hydrate_field<T: Hydrate>(doc: &automerge_cat::Document, node: NodeRef, key: &str) -> (r: Result<T, Error>)
    ensures
        match lookup(doc_nodes(*doc), node, key@) {
            Lookup::NotMap => r matches Err(Error::Document(e)) && wrong_node(doc_nodes(*doc), node, "map"@, e),
            Lookup::Absent => r matches Err(e) && is_missing_key(e, node, key@),
            Lookup::Single(v) => exists|x: DocValue| x@ == v && call_ensures(T::hydrate, (doc, &x), r),
            Lookup::Conflict => r matches Err(e) && is_conflict(e, node, key@),
        },
{
    let v = resolve_key(doc, node, key)?;
    // called as a function value, so that its outcome is known by `call_ensures`
    let hydrate_value = T::hydrate;
    let r = hydrate_value(doc, &v);
    assert(call_ensures(T::hydrate, (doc, &v), r));
    r
}

/// Resolve a key and hydrate its value, an absent key giving `None`.
pub fn hydrate_optional_field<T: Hydrate>(doc: &automerge_cat::Document, node: NodeRef, key: &str) -> (r: Result<
    Option<T>,
    Error,
>)
    ensures
        match lookup(doc_nodes(*doc), node, key@) {
            Lookup::NotMap => r matches Err(Error::Document(e)) && wrong_node(doc_nodes(*doc), node, "map"@, e),
            Lookup::Absent => r == Ok::<Option<T>, Error>(None),
            Lookup::Single(v) => exists|x: DocValue, inner: Result<T, Error>|
                x@ == v && call_ensures(T::hydrate, (doc, &x), inner) && r == some_of(inner),
            Lookup::Conflict => r matches Err(e) && is_conflict(e, node, key@),
        },
{
    match try_resolve_key(doc, node, key)? {
        Some(v) => {
            // called as a function value, so that its outcome is known by `call_ensures`
            let hydrate_value = T::hydrate;
            let inner = hydrate_value(doc, &v);
            let r = match inner {
                Ok(x) => Ok(Some(x)),
                Err(e) => Err(e),
            };
            assert(call_ensures(T::hydrate, (doc, &v), inner) && r == some_of(inner));
            r
        },
        None => Ok(None),
    }
}

// ---------------------------------------------------------------------------
// Primitive impls
// ---------------------------------------------------------------------------

/// A `bool` from a `Bool` value.
pub open spec fn bool_from(v: ValueView) -> Result<bool, Error> {
    match v {
        ValueView::Bool(b) => Ok(b),
        other => Err(mismatch("Bool", other)),
    }
}

/// An `i64` from an `Int` value.
pub open spec fn int_from(v: ValueView) -> Result<i64, Error> {
    match v {
        ValueView::Int(n) => Ok(n),
        other => Err(mismatch("Int", other)),
    }
}

/// A `u64` from a `Uint` value.
pub open spec fn uint_from(v: ValueView) -> Result<u64, Error> {
    match v {
        ValueView::Uint(n) => Ok(n),
        other => Err(mismatch("Uint", other)),
    }
}

/// A float from a `Float` value.
pub open spec fn float_from(v: ValueView) -> Result<automerge_cat::Float64, Error> {
    match v {
        ValueView::Float(f) => Ok(f),
        other => Err(mismatch("Float", other)),
    }
}

/// The characters of a `String` from a `Str` value.
pub open spec fn chars_from(v: ValueView) -> Result<Seq<char>, Error> {
    match v {
        ValueView::Str(s) => Ok(s),
        other => Err(mismatch("Str", other)),
    }
}

impl Hydrate for bool {
    fn hydrate(_doc: &automerge_cat::Document, value: &DocValue) -> (r: Result<bool, Error>)
        ensures
            r == bool_from(value@),
    {
        match value {
            DocValue::Bool(b) => Ok(*b),
            other => Err(Error::TypeMismatch { expected: "Bool", found: value_type_name(other) }),
        }
    }
}

impl Hydrate for i64 {
    fn hydrate(_doc: &automerge_cat::Document, value: &DocValue) -> (r: Result<i64, Error>)
        ensures
            r == int_from(value@),
    {
        match value {
            DocValue::Int(n) => Ok(*n),
            other => Err(Error::TypeMismatch { expected: "Int", found: value_type_name(other) }),
        }
    }
}

impl Hydrate for u64 {
    fn hydrate(_doc: &automerge_cat::Document, value: &DocValue) -> (r: Result<u64, Error>)
        ensures
            r == uint_from(value@),
    {
        match value {
            DocValue::Uint(n) => Ok(*n),
            other => Err(Error::TypeMismatch { expected: "Uint", found: value_type_name(other) }),
        }
    }
}

impl Hydrate for automerge_cat::Float64 {
    fn hydrate(_doc: &automerge_cat::Document, value: &DocValue) -> (r: Result<automerge_cat::Float64, Error>)
        ensures
            r == float_from(value@),
    {
        match value {
            DocValue::Float(fl) => Ok(*fl),
            other => Err(Error::TypeMismatch { expected: "Float", found: value_type_name(other) }),
        }
    }
}

impl Hydrate for String {
    fn hydrate(_doc: &automerge_cat::Document, value: &DocValue) -> (r: Result<String, Error>)
        ensures
            match chars_from(value@) {
                Ok(s) => r matches Ok(x) && x@ == s,
                Err(e) => r == Err::<String, Error>(e),
            },
    {
        match value {
            DocValue::Str(s) => Ok(s.clone()),
            other => Err(Error::TypeMismatch { expected: "Str", found: value_type_name(other) }),
        }
    }
}

impl<T: Hydrate> Hydrate for Option<T> {
    fn hydrate(doc: &automerge_cat::Document, value: &DocValue) -> (r: Result<Option<T>, Error>)
        ensures
            value@ is Null ==> r == Ok::<Option<T>, Error>(None),
            !(value@ is Null) ==> exists|inner: Result<T, Error>|
                call_ensures(T::hydrate, (doc, value), inner) && r == some_of(inner),
    {
        match value {
            DocValue::Null => Ok(None),
            v => {
                // called as a function value, so that its outcome is known by `call_ensures`
                let hydrate_value = T::hydrate;
                let inner = hydrate_value(doc, v);
                let r = match inner {
                    Ok(x) => Ok(Some(x)),
                    Err(e) => Err(e),
                };
                assert(call_ensures(T::hydrate, (doc, value), inner) && r == some_of(inner));
                r
            },
        }
    }
}

impl<T: Hydrate> Hydrate for Vec<T> {
    fn hydrate(doc: &automerge_cat::Document, value: &DocValue) -> (r: Result<Vec<T>, Error>)
        ensures
            match value@ {
                ValueView::ListRef(id) => match list_node(doc_nodes(*doc), id) {
                    Some(es) => exists|vs: Seq<DocValue>| views(vs) == element_values(es) && hydrated_each(doc, vs, r),
                    None => r matches Err(Error::Document(e)) && wrong_node(doc_nodes(*doc), id, "list"@, e),
                },
                other => r == Err::<Vec<T>, Error>(mismatch("List", other)),
            },
    {
        match value {
            DocValue::ListRef(node_id) => {
                let values = match doc_list_elements(doc, *node_id) {
                    Ok(values) => values,
                    Err(e) => return Err(Error::Document(e)),
                };
                // called as a function value, so that its outcome is known by `call_ensures`
                let hydrate_value = T::hydrate;
                let mut out: Vec<T> = Vec::new();
                let mut i: usize = 0;
                while i < values.len()
                    invariant
                        i <= values@.len(),
                        out@.len() == i,
                        hydrate_value == T::hydrate,
                        value@ == ValueView::ListRef(*node_id),
                        list_node(doc_nodes(*doc), *node_id) is Some,
                        views(values@) == element_values(list_node(doc_nodes(*doc), *node_id)->0),
                        forall|j: int|
                            0 <= j < i ==> call_ensures(T::hydrate, (doc, &values@[j]), Ok::<T, Error>(#[trigger] out@[j])),
                    decreases values@.len() - i,
                {
                    let item = hydrate_value(doc, &values[i]);
                    match item {
                        Ok(x) => {
                            out.push(x);
                            i = i + 1;
                        },
                        Err(e) => {
                            assert(forall|j: int|
                                0 <= j < i ==> exists|x: T| call_ensures(T::hydrate, (doc, #[trigger] &values@[j]), Ok::<T, Error>(x))) by {
                                assert forall|j: int| 0 <= j < i implies exists|x: T|
                                    call_ensures(T::hydrate, (doc, #[trigger] &values@[j]), Ok::<T, Error>(x)) by {
                                    assert(call_ensures(T::hydrate, (doc, &values@[j]), Ok::<T, Error>(out@[j])));
                                }
                            }
                            assert(hydrated_each(doc, values@, Err::<Vec<T>, Error>(e)));
                            assert(views(values@) == element_values(list_node(doc_nodes(*doc), *node_id)->0));
                            return Err(e);
                        },
                    }
                }
                assert(hydrated_each(doc, values@, Ok::<Vec<T>, Error>(out)));
                Ok(out)
            },
            other => Err(Error::TypeMismatch { expected: "List", found: value_type_name(other) }),
        }
    }
}

} // verus!
