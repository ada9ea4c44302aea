//! Reconcile: write Rust values into editing sessions.
//!
//! [`Reconcile::reconcile`] writes a value at a map key;
//! [`Reconcile::to_value`] turns a value into a document value, creating
//! the containers it needs.  [`ReconcileRoot`] writes a struct's fields
//! directly into the root map.  The scalar impls here (and unit enum
//! variants, through [`crate::variant::reconcile_unit_variant`]) skip the
//! write when the key already holds exactly that value, so unchanged
//! fields produce no new operation; the trait itself promises only that
//! the session moves forward.
use vstd::prelude::*;

use crate::document::{
    doc_get_key, earlier_position, float64_eq, key_values, key_written, lemma_fresh_next,
    lemma_grown_trans, lemma_insert_later, lemma_later_trans, lemma_one_step_later,
    lemma_same_session_later, list_node, map_node, next_tag, node_lt, one_step, same_session,
    session_clock, session_clock_value, session_copy, session_create_list, session_create_map,
    session_delete_key, session_document, session_fresh, session_grown, session_later,
    session_list_insert, session_nodes, session_replica_value, session_set_key, session_tags,
    views, wrong_node, DocValue, DocumentError, NodeModel, NodeRef, Position, ValueView,
};
use crate::error::Error;

verus! {

// ---------------------------------------------------------------------------
// Traits
// ---------------------------------------------------------------------------

/// Write `Self` into a document.
///
/// [`reconcile`](Self::reconcile) targets a key of a map node;
/// [`to_value`](Self::to_value) produces a standalone value (used when
/// inserting list elements).  Neither moves the session's clock back or
/// reuses a tag; `to_value` only creates nodes and leaves every existing
/// node as it was.
pub trait Reconcile {
    /// Write this value at `key` in the map node `node`.
    fn reconcile(&self, session: &automerge_cat::Session, node: NodeRef, key: &str) -> (r: Result<
        automerge_cat::Session,
        Error,
    >)
        ensures
            r matches Ok(s2) ==> session_later(*session, s2),
    ;

    /// Convert to a document value, creating container nodes as needed.
    fn to_value(&self, session: &automerge_cat::Session) -> (r: Result<(automerge_cat::Session, DocValue), Error>)
        ensures
            r matches Ok((s2, _)) ==> session_grown(*session, s2),
    ;
}

/// Reconcile `Self` directly into the document root map.
pub trait ReconcileRoot {
    /// Write all fields into the root map of the session's document.
    fn reconcile_root(&self, session: &automerge_cat::Session) -> (r: Result<automerge_cat::Session, Error>)
        ensures
            r matches Ok(s2) ==> session_later(*session, s2),
    ;
}

// ---------------------------------------------------------------------------
// Specifications
// ---------------------------------------------------------------------------

/// `r` is the outcome of writing `target` at `key` of the map node `node`
/// as one operation of `s`.
pub open spec fn written_once(
    s: automerge_cat::Session,
    node: NodeRef,
    key: Seq<char>,
    target: ValueView,
    r: Result<automerge_cat::Session, Error>,
) -> bool {
    &&& !session_tags(s).contains(next_tag(s)) ==> r is Ok
    &&& r matches Err(e) ==> session_tags(s).contains(next_tag(s)) && e == Error::Document(
        DocumentError::DuplicateOp { replica: next_tag(s).0, timestamp: next_tag(s).1 },
    )
    &&& r matches Ok(s2) ==> {
        &&& one_step(s, s2)
        &&& map_node(session_nodes(s2), node) is Some
        &&& key_written(
            session_nodes(s),
            session_nodes(s2),
            node,
            key,
            key_values(map_node(session_nodes(s2), node)->0, key),
        )
        &&& !session_tags(s).contains(next_tag(s)) ==> key_values(map_node(session_nodes(s2), node)->0, key)
            == set![target]
    }
}

/// `r` is the outcome of removing every value of `key` of the map node
/// `node` as one operation of `s`.
pub open spec fn deleted_once(
    s: automerge_cat::Session,
    node: NodeRef,
    key: Seq<char>,
    r: Result<automerge_cat::Session, Error>,
) -> bool {
    &&& !session_tags(s).contains(next_tag(s)) ==> r is Ok
    &&& r matches Err(e) ==> session_tags(s).contains(next_tag(s)) && e == Error::Document(
        DocumentError::DuplicateOp { replica: next_tag(s).0, timestamp: next_tag(s).1 },
    )
    &&& r matches Ok(s2) ==> one_step(s, s2) && key_written(session_nodes(s), session_nodes(s2), node, key, Set::empty())
}

/// `r` is the outcome of smart-writing the scalar `target` at `key` of the
/// map node `node`: nothing is written when the key already holds exactly
/// `target`.
pub open spec fn scalar_reconciled(
    s: automerge_cat::Session,
    node: NodeRef,
    key: Seq<char>,
    target: ValueView,
    r: Result<automerge_cat::Session, Error>,
) -> bool {
    match map_node(session_nodes(s), node) {
        None => r matches Err(Error::Document(e)) && wrong_node(session_nodes(s), node, "map"@, e),
        Some(m) => if key_values(m, key) == set![target] {
            r matches Ok(s2) && same_session(s, s2)
        } else if session_clock(s) == u64::MAX {
            r == Err::<automerge_cat::Session, Error>(Error::ClockExhausted)
        } else {
            written_once(s, node, key, target, r)
        },
    }
}

/// `r` gives `v` back with the session unchanged.
pub open spec fn returned_as(
    s: automerge_cat::Session,
    v: ValueView,
    r: Result<(automerge_cat::Session, DocValue), Error>,
) -> bool {
    r matches Ok((s2, x)) && same_session(s, s2) && x@ == v
}


/// `r` is the outcome of creating a new map node and writing a reference
/// to it at `key` of the map node `node`, as two operations of `s`.
pub open spec fn map_created_at(
    s: automerge_cat::Session,
    node: NodeRef,
    key: Seq<char>,
    r: Result<(automerge_cat::Session, NodeRef), Error>,
) -> bool {
    &&& session_clock(s) == u64::MAX ==> r == Err::<(automerge_cat::Session, NodeRef), Error>(Error::ClockExhausted)
    &&& session_fresh(s) && session_clock(s) < u64::MAX - 1 ==> r is Ok
    &&& r matches Err(e) ==> e == Error::ClockExhausted || (!session_fresh(s) && e is Document)
    &&& r matches Ok((s2, id)) ==> {
        &&& id == (NodeRef::Created { replica: next_tag(s).0, timestamp: next_tag(s).1 })
        &&& !session_nodes(s).contains_key(id)
        &&& session_later(s, s2)
        &&& session_clock(s2) == session_clock(s) + 2
        &&& map_node(session_nodes(s2), node) is Some
        &&& key_written(
            session_nodes(s).insert(id, NodeModel::Keyed(Map::empty())),
            session_nodes(s2),
            node,
            key,
            key_values(map_node(session_nodes(s2), node)->0, key),
        )
        &&& session_fresh(s) ==> key_values(map_node(session_nodes(s2), node)->0, key) == set![
            ValueView::MapRef(id),
        ]
    }
}

/// `r` is the outcome of finding or creating the map node at `key` of the
/// map node `node`: an existing map reference there is kept (the least
/// one, when there are several), otherwise a new map is created.
pub open spec fn map_ensured(
    s: automerge_cat::Session,
    node: NodeRef,
    key: Seq<char>,
    r: Result<(automerge_cat::Session, NodeRef), Error>,
) -> bool {
    match map_node(session_nodes(s), node) {
        None => r matches Err(Error::Document(e)) && wrong_node(session_nodes(s), node, "map"@, e),
        Some(m) => if exists|n: NodeRef| #[trigger] key_values(m, key).contains(ValueView::MapRef(n)) {
            &&& r matches Ok((s2, id)) && same_session(s, s2) && key_values(m, key).contains(
                ValueView::MapRef(id),
            ) && forall|n: NodeRef|
                #[trigger] key_values(m, key).contains(ValueView::MapRef(n)) && n != id ==> node_lt(id, n)
        } else {
            map_created_at(s, node, key, r)
        },
    }
}


/// `r` is the outcome of clearing `key` of the map node `node`: nothing is
/// written when the key holds no value.
pub open spec fn cleared_at(
    s: automerge_cat::Session,
    node: NodeRef,
    key: Seq<char>,
    r: Result<automerge_cat::Session, Error>,
) -> bool {
    match map_node(session_nodes(s), node) {
        None => r matches Err(Error::Document(e)) && wrong_node(session_nodes(s), node, "map"@, e),
        Some(m) => if key_values(m, key).len() == 0 {
            r matches Ok(s2) && same_session(s, s2)
        } else if session_clock(s) == u64::MAX {
            r == Err::<automerge_cat::Session, Error>(Error::ClockExhausted)
        } else {
            deleted_once(s, node, key, r)
        },
    }
}

/// `r` is the outcome of writing `v` at `key` of the map node `node` of
/// `s`, without skipping.
pub open spec fn value_set_at(
    s: automerge_cat::Session,
    node: NodeRef,
    key: Seq<char>,
    v: ValueView,
    r: Result<automerge_cat::Session, Error>,
) -> bool {
    match map_node(session_nodes(s), node) {
        None => r matches Err(Error::Document(e)) && wrong_node(session_nodes(s), node, "map"@, e),
        Some(_) => if session_clock(s) == u64::MAX {
            r == Err::<automerge_cat::Session, Error>(Error::ClockExhausted)
        } else {
            written_once(s, node, key, v, r)
        },
    }
}

/// `v` is a value that `to_value` gave for `item`, from some session.
pub open spec fn made_from<T: Reconcile>(item: T, v: ValueView) -> bool {
    exists|a: automerge_cat::Session, b: automerge_cat::Session, x: DocValue|
        x@ == v && #[trigger] call_ensures(
            T::to_value,
            (&item, &a),
            Ok::<(automerge_cat::Session, DocValue), Error>((b, x)),
        )
}

/// The elements `es` of a list node are, in order, the values that
/// `to_value` gave for `items`.
pub open spec fn listed_from<T: Reconcile>(items: Seq<T>, es: Seq<((u64, u64), ValueView)>) -> bool {
    &&& es.len() == items.len()
    &&& forall|i: int| 0 <= i < items.len() ==> #[trigger] made_from(items[i], es[i].1)
}

/// Some call of `to_value` on one of `items` returned a session whose
/// clock is at least `c`.
pub open spec fn element_reached<T: Reconcile>(items: Seq<T>, c: int) -> bool {
    exists|i: int, a: automerge_cat::Session, b: automerge_cat::Session, x: DocValue|
        0 <= i < items.len() && #[trigger] call_ensures(
            T::to_value,
            (&items[i], &a),
            Ok::<(automerge_cat::Session, DocValue), Error>((b, x)),
        ) && session_clock(b) >= c
}

/// Some call of `to_value` on one of `items` failed with `e`.
pub open spec fn element_failed<T: Reconcile>(items: Seq<T>, e: Error) -> bool {
    exists|i: int, a: automerge_cat::Session|
        0 <= i < items.len() && #[trigger] call_ensures(
            T::to_value,
            (&items[i], &a),
            Err::<(automerge_cat::Session, DocValue), Error>(e),
        )
}

/// A call of `to_value` on `item` returned a session whose clock is one
/// below `c`.
pub open spec fn finished_before<T: Reconcile>(item: T, c: int) -> bool {
    exists|a: automerge_cat::Session, b: automerge_cat::Session, x: DocValue|
        #[trigger] call_ensures(
            T::to_value,
            (&item, &a),
            Ok::<(automerge_cat::Session, DocValue), Error>((b, x)),
        ) && session_clock(b) + 1 == c
}

/// Every node that `b` has and `a` has not is in `nodes`, unchanged.
pub open spec fn made_nodes_kept(
    a: automerge_cat::Session,
    b: automerge_cat::Session,
    nodes: Map<NodeRef, NodeModel>,
) -> bool {
    forall|n: NodeRef|
        #[trigger] session_nodes(b).contains_key(n) && !session_nodes(a).contains_key(n) ==> nodes.contains_key(n)
            && nodes[n] == session_nodes(b)[n]
}

/// `v` is a value that `to_value` gave for `item`, called on a session
/// whose coming tags were new and which had every node of `before`; every
/// node that this call made is in `nodes`, unchanged.
pub open spec fn made_after<T: Reconcile>(
    item: T,
    v: ValueView,
    before: Set<NodeRef>,
    nodes: Map<NodeRef, NodeModel>,
) -> bool {
    exists|a: automerge_cat::Session, b: automerge_cat::Session, x: DocValue|
        x@ == v && session_fresh(a) && before.subset_of(session_nodes(a).dom()) && made_nodes_kept(a, b, nodes)
            && #[trigger] call_ensures(
            T::to_value,
            (&item, &a),
            Ok::<(automerge_cat::Session, DocValue), Error>((b, x)),
        )
}

/// `r` is the outcome of turning `items` into a new list node of `s`:
/// the list is created, then each item's document form is appended.
pub open spec fn list_made<T: Reconcile>(
    items: Seq<T>,
    s: automerge_cat::Session,
    r: Result<(automerge_cat::Session, DocValue), Error>,
) -> bool {
    &&& session_clock(s) == u64::MAX ==> r == Err::<(automerge_cat::Session, DocValue), Error>(
        Error::ClockExhausted,
    )
    &&& session_fresh(s) && session_clock(s) < u64::MAX && items.len() == 0 ==> r is Ok
    &&& r == Err::<(automerge_cat::Session, DocValue), Error>(Error::ClockExhausted) ==> session_clock(s)
        == u64::MAX || element_reached(items, u64::MAX as int) || element_failed(items, Error::ClockExhausted)
    &&& r matches Err(e) ==> e == Error::ClockExhausted || (!session_fresh(s) && e is Document)
        || element_failed(items, e)
    &&& r matches Ok((s2, v)) ==> {
        let id = NodeRef::Created { replica: next_tag(s).0, timestamp: next_tag(s).1 };
        &&& v == DocValue::ListRef(id)
        &&& !session_nodes(s).contains_key(id)
        &&& session_grown(s, s2)
        &&& list_node(session_nodes(s2), id) is Some
        &&& items.len() == 0 ==> session_clock(s2) == session_clock(s) + 1
        &&& items.len() > 0 ==> finished_before(items.last(), session_clock(s2) as int)
        &&& session_fresh(s) ==> listed_from(items, list_node(session_nodes(s2), id)->0)
        &&& session_fresh(s) ==> forall|i: int|
            0 <= i < items.len() ==> #[trigger] made_after(
                items[i],
                list_node(session_nodes(s2), id)->0[i].1,
                session_nodes(s).dom(),
                session_nodes(s2),
            )
    }
}

// ---------------------------------------------------------------------------
// Helpers
// ---------------------------------------------------------------------------

/// Whether two values are the same.
fn same_value(a: &DocValue, b: &DocValue) -> (r: bool)
    ensures
        r == (a@ == b@),
{
    match (a, b) {
        (DocValue::Null, DocValue::Null) => true,
        (DocValue::Bool(x), DocValue::Bool(y)) => *x == *y,
        (DocValue::Int(x), DocValue::Int(y)) => *x == *y,
        (DocValue::Uint(x), DocValue::Uint(y)) => *x == *y,
        (DocValue::Float(x), DocValue::Float(y)) => float64_eq(x, y),
        (DocValue::Str(x), DocValue::Str(y)) => *x == *y,
        (DocValue::MapRef(x), DocValue::MapRef(y)) => *x == *y,
        (DocValue::ListRef(x), DocValue::ListRef(y)) => *x == *y,
        (DocValue::TextRef(x), DocValue::TextRef(y)) => *x == *y,
        _ => false,
    }
}

/// Write a scalar value, skipping the write when the document already
/// holds exactly that value.
pub(crate) fn reconcile_scalar(session: &automerge_cat::Session, node: NodeRef, key: &str, target: &DocValue) -> (r: Result<
    automerge_cat::Session,
    Error,
>)
    ensures
        scalar_reconciled(*session, node, key@, target@, r),
{
    let doc = session_document(session);
    let values = match doc_get_key(doc, node, key) {
        Ok(values) => values,
        Err(e) => return Err(Error::Document(e)),
    };
    let ghost m = map_node(session_nodes(*session), node)->0;
    proof {
        views(values@).unique_seq_to_set();
    }
    let already_matches = values.len() == 1 && same_value(&values[0], target);
    proof {
        if values.len() == 1 {
            assert(views(values@)[0] == values@[0]@);
            assert(views(values@).to_set() =~= set![values@[0]@]);
        }
        if key_values(m, key@) == set![target@] {
            assert(views(values@).to_set().contains(target@));
            assert(values.len() == 1);
            assert(views(values@).contains(target@));
        }
    }
    if already_matches {
        Ok(session_copy(session))
    } else if session_clock_value(session) == u64::MAX {
        Err(Error::ClockExhausted)
    } else {
        match session_set_key(session, node, key, target) {
            Ok(s2) => Ok(s2),
            Err(e) => Err(Error::Document(e)),
        }
    }
}

/// Ensure a map container exists at `key` in the map node `node`: keep
/// the map that the key already refers to, or create an empty map and
/// set the key to it.
pub fn ensure_map(session: &automerge_cat::Session, node: NodeRef, key: &str) -> (r: Result<
    (automerge_cat::Session, NodeRef),
    Error,
>)
    ensures
        map_ensured(*session, node, key@, r),
        r matches Ok((s2, _)) ==> session_later(*session, s2),
{
    let doc = session_document(session);
    let values = match doc_get_key(doc, node, key) {
        Ok(values) => values,
        Err(e) => return Err(Error::Document(e)),
    };
    let ghost m = map_node(session_nodes(*session), node)->0;
    let ghost vals = key_values(m, key@);
    let mut i: usize = 0;
    #[verifier::loop_isolation(false)]
    while i < values.len()
        invariant
            i <= values@.len(),
            views(values@).to_set() == vals,
            forall|j: int| 0 <= j < i ==> !(#[trigger] values@[j] is MapRef),
        decreases values@.len() - i,
    {
        if let DocValue::MapRef(id) = &values[i] {
            let id = *id;
            let s2 = session_copy(session);
            proof {
                lemma_same_session_later(*session, s2);
                assert(views(values@)[i as int] == ValueView::MapRef(id));
                assert(vals.contains(ValueView::MapRef(id)));
                assert forall|n: NodeRef|
                    #[trigger] vals.contains(ValueView::MapRef(n)) && n != id implies node_lt(id, n) by {
                    let j = choose|j: int| 0 <= j < views(values@).len() && views(values@)[j] == ValueView::MapRef(n);
                    assert(values@[j]@ == views(values@)[j]);
                    assert(values@[j] is MapRef);
                    assert(j > i);
                }
            }
            return Ok((s2, id));
        }
        i = i + 1;
    }
    proof {
        assert forall|n: NodeRef| !(#[trigger] vals.contains(ValueView::MapRef(n))) by {
            if vals.contains(ValueView::MapRef(n)) {
                let j = choose|j: int| 0 <= j < views(values@).len() && views(values@)[j] == ValueView::MapRef(n);
                assert(values@[j]@ == views(values@)[j]);
            }
        }
    }
    if session_clock_value(session) == u64::MAX {
        let doc = session_document(session);
        return match doc_get_key(doc, node, key) {
            Ok(_) => Err(Error::ClockExhausted),
            Err(e) => Err(Error::Document(e)),
        };
    }
    let (s1, id) = match session_create_map(session) {
        Ok(created) => created,
        Err(e) => {
            proof {
                lemma_fresh_next(*session);
            }
            return Err(Error::Document(e));
        },
    };
    proof {
        lemma_one_step_later(*session, s1);
    }
    if session_clock_value(&s1) == u64::MAX {
        return Err(Error::ClockExhausted);
    }
    let s2 = match session_set_key(&s1, node, key, &DocValue::MapRef(id)) {
        Ok(s2) => s2,
        Err(e) => return Err(Error::Document(e)),
    };
    proof {
        lemma_one_step_later(s1, s2);
        lemma_later_trans(*session, s1, s2);
        assert(map_node(session_nodes(s1), node) == Some(m));
    }
    Ok((s2, id))
}

/// A smart scalar write that succeeds gives a later state.
proof fn lemma_scalar_later(
    s: automerge_cat::Session,
    node: NodeRef,
    key: Seq<char>,
    target: ValueView,
    r: Result<automerge_cat::Session, Error>,
)
    requires
        scalar_reconciled(s, node, key, target, r),
    ensures
        r matches Ok(s2) ==> session_later(s, s2),
{
    if let Ok(s2) = r {
        if same_session(s, s2) {
            lemma_same_session_later(s, s2);
        } else {
            lemma_one_step_later(s, s2);
        }
    }
}

/// A key write that succeeds gives a later state.
proof fn lemma_value_set_later(
    s: automerge_cat::Session,
    node: NodeRef,
    key: Seq<char>,
    v: ValueView,
    r: Result<automerge_cat::Session, Error>,
)
    requires
        value_set_at(s, node, key, v, r),
    ensures
        r matches Ok(s2) ==> session_later(s, s2),
{
    if let Ok(s2) = r {
        lemma_one_step_later(s, s2);
    }
}

/// Write `target` at `key` of the map node `node` as one operation,
/// whatever the key held before.
pub fn write_value(session: &automerge_cat::Session, node: NodeRef, key: &str, target: &DocValue) -> (r: Result<
    automerge_cat::Session,
    Error,
>)
    ensures
        value_set_at(*session, node, key@, target@, r),
        r matches Ok(s2) ==> session_later(*session, s2),
{
    if session_clock_value(session) == u64::MAX {
        let doc = session_document(session);
        return match doc_get_key(doc, node, key) {
            Ok(_) => Err(Error::ClockExhausted),
            Err(e) => Err(Error::Document(e)),
        };
    }
    let r = match session_set_key(session, node, key, target) {
        Ok(s2) => Ok(s2),
        Err(e) => Err(Error::Document(e)),
    };
    proof {
        lemma_value_set_later(*session, node, key@, target@, r);
    }
    r
}

/// `r` is the outcome of creating a new empty map node as one operation
/// of `s`.
pub open spec fn map_made(s: automerge_cat::Session, r: Result<(automerge_cat::Session, NodeRef), Error>) -> bool {
    &&& session_clock(s) == u64::MAX ==> r == Err::<(automerge_cat::Session, NodeRef), Error>(Error::ClockExhausted)
    &&& session_fresh(s) && session_clock(s) < u64::MAX ==> r is Ok
    &&& r matches Err(e) ==> e == Error::ClockExhausted || (!session_fresh(s) && e is Document)
    &&& r matches Ok((s2, id)) ==> {
        &&& id == (NodeRef::Created { replica: next_tag(s).0, timestamp: next_tag(s).1 })
        &&& one_step(s, s2)
        &&& !session_nodes(s).contains_key(id)
        &&& session_nodes(s2) == session_nodes(s).insert(id, NodeModel::Keyed(Map::empty()))
    }
}

/// Create a new, empty map node.
pub fn new_map(session: &automerge_cat::Session) -> (r: Result<(automerge_cat::Session, NodeRef), Error>)
    ensures
        map_made(*session, r),
        r matches Ok((s2, _)) ==> session_grown(*session, s2),
{
    if session_clock_value(session) == u64::MAX {
        return Err(Error::ClockExhausted);
    }
    match session_create_map(session) {
        Ok((s2, id)) => {
            proof {
                lemma_one_step_later(*session, s2);
            }
            Ok((s2, id))
        },
        Err(e) => {
            proof {
                lemma_fresh_next(*session);
            }
            Err(Error::Document(e))
        },
    }
}

// ---------------------------------------------------------------------------
// Primitive impls
// ---------------------------------------------------------------------------

impl Reconcile for bool {
    fn reconcile(&self, session: &automerge_cat::Session, node: NodeRef, key: &str) -> (r: Result<
        automerge_cat::Session,
        Error,
    >)
        ensures
            scalar_reconciled(*session, node, key@, ValueView::Bool(*self), r),
    {
        let r = reconcile_scalar(session, node, key, &DocValue::Bool(*self));
        proof {
            lemma_scalar_later(*session, node, key@, ValueView::Bool(*self), r);
        }
        r
    }

    fn to_value(&self, session: &automerge_cat::Session) -> (r: Result<(automerge_cat::Session, DocValue), Error>)
        ensures
            returned_as(*session, ValueView::Bool(*self), r),
    {
        let s2 = session_copy(session);
        proof {
            lemma_same_session_later(*session, s2);
        }
        Ok((s2, DocValue::Bool(*self)))
    }
}

impl Reconcile for i64 {
    fn reconcile(&self, session: &automerge_cat::Session, node: NodeRef, key: &str) -> (r: Result<
        automerge_cat::Session,
        Error,
    >)
        ensures
            scalar_reconciled(*session, node, key@, ValueView::Int(*self), r),
    {
        let r = reconcile_scalar(session, node, key, &DocValue::Int(*self));
        proof {
            lemma_scalar_later(*session, node, key@, ValueView::Int(*self), r);
        }
        r
    }

    fn to_value(&self, session: &automerge_cat::Session) -> (r: Result<(automerge_cat::Session, DocValue), Error>)
        ensures
            returned_as(*session, ValueView::Int(*self), r),
    {
        let s2 = session_copy(session);
        proof {
            lemma_same_session_later(*session, s2);
        }
        Ok((s2, DocValue::Int(*self)))
    }
}

impl Reconcile for u64 {
    fn reconcile(&self, session: &automerge_cat::Session, node: NodeRef, key: &str) -> (r: Result<
        automerge_cat::Session,
        Error,
    >)
        ensures
            scalar_reconciled(*session, node, key@, ValueView::Uint(*self), r),
    {
        let r = reconcile_scalar(session, node, key, &DocValue::Uint(*self));
        proof {
            lemma_scalar_later(*session, node, key@, ValueView::Uint(*self), r);
        }
        r
    }

    fn to_value(&self, session: &automerge_cat::Session) -> (r: Result<(automerge_cat::Session, DocValue), Error>)
        ensures
            returned_as(*session, ValueView::Uint(*self), r),
    {
        let s2 = session_copy(session);
        proof {
            lemma_same_session_later(*session, s2);
        }
        Ok((s2, DocValue::Uint(*self)))
    }
}

impl Reconcile for automerge_cat::Float64 {
    fn reconcile(&self, session: &automerge_cat::Session, node: NodeRef, key: &str) -> (r: Result<
        automerge_cat::Session,
        Error,
    >)
        ensures
            scalar_reconciled(*session, node, key@, ValueView::Float(*self), r),
    {
        let r = reconcile_scalar(session, node, key, &DocValue::Float(*self));
        proof {
            lemma_scalar_later(*session, node, key@, ValueView::Float(*self), r);
        }
        r
    }

    fn to_value(&self, session: &automerge_cat::Session) -> (r: Result<(automerge_cat::Session, DocValue), Error>)
        ensures
            returned_as(*session, ValueView::Float(*self), r),
    {
        let s2 = session_copy(session);
        proof {
            lemma_same_session_later(*session, s2);
        }
        Ok((s2, DocValue::Float(*self)))
    }
}

impl Reconcile for String {
    fn reconcile(&self, session: &automerge_cat::Session, node: NodeRef, key: &str) -> (r: Result<
        automerge_cat::Session,
        Error,
    >)
        ensures
            scalar_reconciled(*session, node, key@, ValueView::Str(self@), r),
    {
        let r = reconcile_scalar(session, node, key, &DocValue::Str(self.clone()));
        proof {
            lemma_scalar_later(*session, node, key@, ValueView::Str(self@), r);
        }
        r
    }

    fn to_value(&self, session: &automerge_cat::Session) -> (r: Result<(automerge_cat::Session, DocValue), Error>)
        ensures
            returned_as(*session, ValueView::Str(self@), r),
    {
        let s2 = session_copy(session);
        proof {
            lemma_same_session_later(*session, s2);
        }
        Ok((s2, DocValue::Str(self.clone())))
    }
}

impl<T: Reconcile> Reconcile for Option<T> {
    fn reconcile(&self, session: &automerge_cat::Session, node: NodeRef, key: &str) -> (r: Result<
        automerge_cat::Session,
        Error,
    >)
        ensures
            self is None ==> cleared_at(*session, node, key@, r),
            self matches Some(v) ==> call_ensures(T::reconcile, (&v, session, node, key), r),
    {
        match self {
            None => {
                let doc = session_document(session);
                let values = match doc_get_key(doc, node, key) {
                    Ok(values) => values,
                    Err(e) => return Err(Error::Document(e)),
                };
                proof {
                    views(values@).unique_seq_to_set();
                }
                if values.len() == 0 {
                    let s2 = session_copy(session);
                    proof {
                        lemma_same_session_later(*session, s2);
                    }
                    Ok(s2)
                } else if session_clock_value(session) == u64::MAX {
                    Err(Error::ClockExhausted)
                } else {
                    match session_delete_key(session, node, key) {
                        Ok(s2) => {
                            proof {
                                lemma_one_step_later(*session, s2);
                            }
                            Ok(s2)
                        },
                        Err(e) => Err(Error::Document(e)),
                    }
                }
            },
            Some(v) => {
                // called as a function value, so that its outcome is known by `call_ensures`
                let reconcile_inner = T::reconcile;
                reconcile_inner(v, session, node, key)
            },
        }
    }

    fn to_value(&self, session: &automerge_cat::Session) -> (r: Result<(automerge_cat::Session, DocValue), Error>)
        ensures
            self is None ==> returned_as(*session, ValueView::Null, r),
            self matches Some(v) ==> call_ensures(T::to_value, (&v, session), r),
    {
        match self {
            None => {
                let s2 = session_copy(session);
                proof {
                    lemma_same_session_later(*session, s2);
                }
                Ok((s2, DocValue::Null))
            },
            Some(v) => {
                // called as a function value, so that its outcome is known by `call_ensures`
                let value_of = T::to_value;
                value_of(v, session)
            },
        }
    }
}

impl<T: Reconcile> Reconcile for Vec<T> {
    fn reconcile(&self, session: &automerge_cat::Session, node: NodeRef, key: &str) -> (r: Result<
        automerge_cat::Session,
        Error,
    >)
        ensures
            exists|made: Result<(automerge_cat::Session, DocValue), Error>|
                list_made(self@, *session, made) && match made {
                    Err(e) => r == Err::<automerge_cat::Session, Error>(e),
                    Ok((s1, v)) => value_set_at(s1, node, key@, v@, r),
                },
            session_fresh(*session) && session_clock(*session) < u64::MAX - 1 && self@.len() == 0 && map_node(
                session_nodes(*session),
                node,
            ) is Some ==> r is Ok,
            r == Err::<automerge_cat::Session, Error>(Error::ClockExhausted) ==> session_clock(*session)
                >= u64::MAX - 1 || element_reached(self@, u64::MAX - 1) || element_failed(
                self@,
                Error::ClockExhausted,
            ),
    {
        let made = self.to_value(session);
        match made {
            Err(e) => Err(e),
            Ok((s1, value)) => {
                let r = write_value(&s1, node, key, &value);
                proof {
                    if r is Ok {
                        lemma_later_trans(*session, s1, r->Ok_0);
                    }
                    if session_nodes(*session).contains_key(node) {
                        assert(session_nodes(s1)[node] == session_nodes(*session)[node]);
                    }
                    if self@.len() == 0 {
                        lemma_fresh_next(s1);
                    }
                    if r == Err::<automerge_cat::Session, Error>(Error::ClockExhausted) && self@.len() > 0
                        && session_clock(s1) == u64::MAX {
                        assert(finished_before(self@.last(), session_clock(s1) as int));
                        assert(self@.last() == self@[self@.len() - 1]);
                        assert(element_reached(self@, u64::MAX - 1));
                    }
                }
                r
            },
        }
    }

    fn to_value(&self, session: &automerge_cat::Session) -> (r: Result<(automerge_cat::Session, DocValue), Error>)
        ensures
            list_made(self@, *session, r),
    {
        if session_clock_value(session) == u64::MAX {
            return Err(Error::ClockExhausted);
        }
        let (s1, list_id) = match session_create_list(session) {
            Ok(created) => created,
            Err(e) => {
                proof {
                    lemma_fresh_next(*session);
                }
                return Err(Error::Document(e));
            },
        };
        proof {
            lemma_one_step_later(*session, s1);
        }
        let ghost s0 = *session;
        // called as a function value, so that its outcome is known by `call_ensures`
        let value_of = T::to_value;
        let mut cur = s1;
        let mut prev = Position::Head;
        let mut i: usize = 0;
        while i < self.len()
            invariant
                i <= self@.len(),
                value_of == T::to_value,
                s0 == *session,
                session_clock(s0) < u64::MAX,
                list_id == (NodeRef::Created { replica: next_tag(s0).0, timestamp: next_tag(s0).1 }),
                !session_nodes(s0).contains_key(list_id),
                session_grown(s0, cur),
                list_node(session_nodes(cur), list_id) is Some,
                i == 0 ==> session_clock(cur) == session_clock(s0) + 1,
                i > 0 ==> finished_before(self@[i - 1], session_clock(cur) as int),
                i > 0 ==> prev is After,
                earlier_position(cur, prev),
                session_fresh(s0) ==> {
                    let es = list_node(session_nodes(cur), list_id)->0;
                    &&& listed_from(self@.take(i as int), es)
                    &&& forall|j: int|
                        0 <= j < i ==> #[trigger] made_after(
                            self@[j],
                            es[j].1,
                            session_nodes(s0).dom().insert(list_id),
                            session_nodes(cur),
                        )
                    &&& i == 0 ==> prev == Position::Head
                    &&& i > 0 ==> prev == (Position::After { replica: es.last().0.0, timestamp: es.last().0.1 })
                },
            decreases self@.len() - i,
        {
            let (next, x) = match value_of(&self[i], &cur) {
                Ok(made) => made,
                Err(e) => {
                    assert(call_ensures(T::to_value, (&self@[i as int], &cur), Err::<(automerge_cat::Session, DocValue), Error>(e)));
                    assert(element_failed(self@, e));
                    return Err(e);
                },
            };
            let ghost xg = x;
            let ghost es = list_node(session_nodes(cur), list_id)->0;
            assert(call_ensures(T::to_value, (&self@[i as int], &cur), Ok::<(automerge_cat::Session, DocValue), Error>((next, xg))));
            proof {
                lemma_grown_trans(s0, cur, next);
                assert(session_nodes(next).contains_key(list_id));
                assert(session_nodes(next)[list_id] == session_nodes(cur)[list_id]);
            }
            if session_clock_value(&next) == u64::MAX {
                assert(element_reached(self@, u64::MAX as int));
                return Err(Error::ClockExhausted);
            }
            let replica = session_replica_value(&next);
            let clock = session_clock_value(&next);
            let inserted = match session_list_insert(&next, list_id, prev, x) {
                Ok(inserted) => inserted,
                Err(e) => {
                    proof {
                        lemma_fresh_next(next);
                    }
                    return Err(Error::Document(e));
                },
            };
            proof {
                assert(finished_before(self@[i as int], session_clock(inserted) as int));
                lemma_insert_later(next, inserted, prev);
                lemma_later_trans(s0, next, inserted);
                assert forall|n: NodeRef| #[trigger] session_nodes(s0).contains_key(n) implies session_nodes(
                    inserted,
                ).contains_key(n) && session_nodes(inserted)[n] == session_nodes(s0)[n] by {
                    assert(session_nodes(next).contains_key(n));
                }
                if session_fresh(s0) {
                    lemma_fresh_next(next);
                    let es2 = list_node(session_nodes(inserted), list_id)->0;
                    assert(es2 == es.push((next_tag(next), xg@)));
                    assert(made_from(self@[i as int], xg@));
                    assert forall|j: int| 0 <= j < i + 1 implies #[trigger] made_from(self@.take(i + 1)[j], es2[j].1) by {
                        if j < i {
                            assert(es2[j] == es[j]);
                            assert(self@.take(i + 1)[j] == self@.take(i as int)[j]);
                        } else {
                            assert(self@.take(i + 1)[j] == self@[i as int]);
                        }
                    }
                    let before = session_nodes(s0).dom().insert(list_id);
                    assert forall|j: int| 0 <= j < i + 1 implies #[trigger] made_after(
                        self@[j],
                        es2[j].1,
                        before,
                        session_nodes(inserted),
                    ) by {
                        if j < i {
                            assert(es2[j] == es[j]);
                            assert(made_after(self@[j], es[j].1, before, session_nodes(cur)));
                            let (a, b, y) = choose|a: automerge_cat::Session, b: automerge_cat::Session, y: DocValue|
                                y@ == es[j].1 && session_fresh(a) && before.subset_of(session_nodes(a).dom())
                                    && made_nodes_kept(a, b, session_nodes(cur)) && #[trigger] call_ensures(
                                    T::to_value,
                                    (&self@[j], &a),
                                    Ok::<(automerge_cat::Session, DocValue), Error>((b, y)),
                                );
                            assert forall|n: NodeRef|
                                #[trigger] session_nodes(b).contains_key(n) && !session_nodes(a).contains_key(n) implies session_nodes(
                                    inserted,
                                ).contains_key(n) && session_nodes(inserted)[n] == session_nodes(b)[n] by {
                                assert(before.contains(list_id));
                                assert(n != list_id);
                                assert(session_nodes(cur).contains_key(n));
                                assert(session_nodes(next).contains_key(n));
                            }
                            assert(made_nodes_kept(a, b, session_nodes(inserted)));
                        } else {
                            assert(es2[j] == (next_tag(next), xg@));
                            assert forall|n: NodeRef| #[trigger] before.contains(n) implies session_nodes(cur).contains_key(n) by {
                                if n != list_id {
                                    assert(session_nodes(s0).contains_key(n));
                                }
                            }
                            assert(before.subset_of(session_nodes(cur).dom()));
                            assert forall|n: NodeRef|
                                #[trigger] session_nodes(next).contains_key(n) && !session_nodes(cur).contains_key(n) implies session_nodes(
                                    inserted,
                                ).contains_key(n) && session_nodes(inserted)[n] == session_nodes(next)[n] by {
                                assert(n != list_id);
                            }
                            assert(made_nodes_kept(cur, next, session_nodes(inserted)));
                            assert(call_ensures(T::to_value, (&self@[i as int], &cur), Ok::<(automerge_cat::Session, DocValue), Error>((next, xg))));
                        }
                    }
                }
            }
            cur = inserted;
            prev = Position::After { replica, timestamp: clock };
            i = i + 1;
        }
        proof {
            assert(self@.take(self@.len() as int) =~= self@);
            if session_fresh(s0) {
                let es = list_node(session_nodes(cur), list_id)->0;
                assert forall|j: int| 0 <= j < self@.len() implies #[trigger] made_after(
                    self@[j],
                    es[j].1,
                    session_nodes(s0).dom(),
                    session_nodes(cur),
                ) by {
                    let before = session_nodes(s0).dom().insert(list_id);
                    assert(made_after(self@[j], es[j].1, before, session_nodes(cur)));
                    let (a, b, y) = choose|a: automerge_cat::Session, b: automerge_cat::Session, y: DocValue|
                        y@ == es[j].1 && session_fresh(a) && before.subset_of(session_nodes(a).dom())
                            && made_nodes_kept(a, b, session_nodes(cur)) && #[trigger] call_ensures(
                            T::to_value,
                            (&self@[j], &a),
                            Ok::<(automerge_cat::Session, DocValue), Error>((b, y)),
                        );
                    assert(session_nodes(s0).dom().subset_of(session_nodes(a).dom()));
                }
            }
            if self@.len() > 0 {
                assert(self@.last() == self@[self@.len() - 1]);
            }
        }
        Ok((cur, DocValue::ListRef(list_id)))
    }
}

} // verus!
