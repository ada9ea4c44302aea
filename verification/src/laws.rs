//! Laws of the document mapping: what a read gives back of a write,
//! when a write is skipped, and what a write leaves alone.
use vstd::prelude::*;

use crate::document::{
    element_values, key_values, lemma_fresh_next, lemma_one_step_later, lemma_same_session_later,
    list_node, live_keys, map_node, next_tag, node_lt, same_session, session_clock, session_fresh,
    session_grown, session_nodes, views, DocValue, NodeModel, NodeRef, ValueView, doc_nodes,
};
use crate::error::Error;
use crate::hydrate::{
    bool_from, chars_from, float_from, hydrated_each, int_from, lookup, uint_from, Hydrate, Lookup,
};
use crate::reconcile::{
    cleared_at, list_made, listed_from, made_after, made_from, made_nodes_kept, map_ensured, map_made,
    scalar_reconciled, value_set_at, Reconcile,
};
use crate::variant::{least_key, named_at, others_removed, wrapped_read, Variant};

verus! {

/// A one-element set has one element, which `choose` picks.
proof fn lemma_single(v: ValueView)
    ensures
        set![v].len() == 1,
        set![v].choose() == v,
{
    assert(set![v] == Set::<ValueView>::empty().insert(v));
    assert(set![v].len() == 1);
    assert(set![v].contains(set![v].choose()));
}

/// Read after write: on a session whose coming tags are new, reconciling
/// a scalar at a key of a map node succeeds, and the key then resolves to
/// exactly that scalar.
pub proof fn law_scalar_write_then_read(
    s: automerge_cat::Session,
    node: NodeRef,
    key: Seq<char>,
    target: ValueView,
    r: Result<automerge_cat::Session, Error>,
)
    requires
        session_fresh(s),
        session_clock(s) < u64::MAX,
        map_node(session_nodes(s), node) is Some,
        scalar_reconciled(s, node, key, target, r),
    ensures
        r matches Ok(s2) && session_fresh(s2) && lookup(session_nodes(s2), node, key) == Lookup::Single(target),
{
    lemma_fresh_next(s);
    lemma_single(target);
    if let Ok(s2) = r {
        if !same_session(s, s2) {
            lemma_one_step_later(s, s2);
        }
    }
}

/// Read after an unconditional write: on a session whose coming tags are
/// new, `write_value` at a key of a map node succeeds, and the key then
/// resolves to exactly the written value (as for a unit enum variant's
/// name, or a list reference).
pub proof fn law_value_write_then_read(
    s: automerge_cat::Session,
    node: NodeRef,
    key: Seq<char>,
    v: ValueView,
    r: Result<automerge_cat::Session, Error>,
)
    requires
        session_fresh(s),
        session_clock(s) < u64::MAX,
        map_node(session_nodes(s), node) is Some,
        value_set_at(s, node, key, v, r),
    ensures
        r matches Ok(s2) && session_fresh(s2) && lookup(session_nodes(s2), node, key) == Lookup::Single(v),
{
    lemma_fresh_next(s);
    lemma_single(v);
    if let Ok(s2) = r {
        lemma_one_step_later(s, s2);
    }
}

/// Each scalar type reads back from its own document form.
pub proof fn law_scalars_decode(b: bool, i: i64, u: u64, f: automerge_cat::Float64, s: Seq<char>)
    ensures
        bool_from(ValueView::Bool(b)) == Ok::<bool, Error>(b),
        int_from(ValueView::Int(i)) == Ok::<i64, Error>(i),
        uint_from(ValueView::Uint(u)) == Ok::<u64, Error>(u),
        float_from(ValueView::Float(f)) == Ok::<automerge_cat::Float64, Error>(f),
        chars_from(ValueView::Str(s)) == Ok::<Seq<char>, Error>(s),
{
}

/// Smart reconciliation: reconciling the scalar that a key already holds
/// again writes nothing; the session, its clock included, is unchanged.
pub proof fn law_unchanged_scalar_is_skipped(
    s: automerge_cat::Session,
    node: NodeRef,
    key: Seq<char>,
    target: ValueView,
    r1: Result<automerge_cat::Session, Error>,
    r2: Result<automerge_cat::Session, Error>,
)
    requires
        session_fresh(s),
        session_clock(s) < u64::MAX,
        map_node(session_nodes(s), node) is Some,
        scalar_reconciled(s, node, key, target, r1),
        r1 is Ok,
        scalar_reconciled(r1->Ok_0, node, key, target, r2),
    ensures
        r2 matches Ok(s3) && same_session(r1->Ok_0, s3),
{
    lemma_fresh_next(s);
    if !same_session(s, r1->Ok_0) {
        lemma_one_step_later(s, r1->Ok_0);
    }
}

/// Fields are independent: reconciling a scalar at one key leaves what
/// every other key of every map node holds as it was.
pub proof fn law_write_leaves_other_keys(
    s: automerge_cat::Session,
    node: NodeRef,
    key: Seq<char>,
    target: ValueView,
    r: Result<automerge_cat::Session, Error>,
    other_node: NodeRef,
    other_key: Seq<char>,
)
    requires
        scalar_reconciled(s, node, key, target, r),
        r is Ok,
        other_node != node || other_key != key,
    ensures
        lookup(session_nodes(r->Ok_0), other_node, other_key) == lookup(session_nodes(s), other_node, other_key),
{
    let s2 = r->Ok_0;
    if !same_session(s, s2) && other_node == node {
        assert(key_values(map_node(session_nodes(s2), node)->0, other_key) == key_values(
            map_node(session_nodes(s), node)->0,
            other_key,
        ));
    }
    if !same_session(s, s2) && other_node != node && session_nodes(s).contains_key(other_node) {
        assert(session_nodes(s2)[other_node] == session_nodes(s)[other_node]);
    }
}

/// Clearing an optional field: on a session whose coming tags are new,
/// reconciling `None` at a key of a map node succeeds and leaves the key
/// holding no value, so it reads back as `None`.
pub proof fn law_clear_then_read_absent(
    s: automerge_cat::Session,
    node: NodeRef,
    key: Seq<char>,
    r: Result<automerge_cat::Session, Error>,
)
    requires
        session_fresh(s),
        session_clock(s) < u64::MAX,
        map_node(session_nodes(s), node) is Some,
        cleared_at(s, node, key, r),
    ensures
        r matches Ok(s2) && session_fresh(s2) && lookup(session_nodes(s2), node, key) == Lookup::Absent,
{
    lemma_fresh_next(s);
    if let Ok(s2) = r {
        if !same_session(s, s2) {
            lemma_one_step_later(s, s2);
        }
    }
}

/// Lists read back element by element: when every element's document
/// form hydrates back to that element, a list made from `items`
/// hydrates back to `items`.
pub proof fn law_list_round_trip<T: Hydrate + Reconcile>(
    doc: &automerge_cat::Document,
    items: Seq<T>,
    es: Seq<((u64, u64), ValueView)>,
    vs: Seq<DocValue>,
    r: Result<Vec<T>, Error>,
)
    requires
        listed_from(items, es),
        views(vs) == element_values(es),
        hydrated_each(doc, vs, r),
        forall|i: int, x: DocValue, out: Result<T, Error>|
            0 <= i < items.len() && #[trigger] made_from(items[i], x@) && #[trigger] call_ensures(
                T::hydrate,
                (doc, &x),
                out,
            ) ==> out == Ok::<T, Error>(items[i]),
    ensures
        r matches Ok(w) && w@ == items,
{
    assert(views(vs).len() == vs.len());
    assert(element_values(es).len() == es.len());
    assert forall|i: int| 0 <= i < vs.len() implies #[trigger] made_from(items[i], vs[i]@) by {
        assert(views(vs)[i] == vs[i]@);
        assert(element_values(es)[i] == es[i].1);
        assert(made_from(items[i], es[i].1));
    }
    match r {
        Ok(w) => {
            assert forall|i: int| 0 <= i < items.len() implies w@[i] == items[i] by {
                assert(made_from(items[i], vs[i]@));
                assert(call_ensures(T::hydrate, (doc, &vs[i]), Ok::<T, Error>(w@[i])));
            }
            assert(w@ =~= items);
        },
        Err(e) => {
            let k = choose|k: int|
                0 <= k < vs.len() && (forall|i: int|
                    0 <= i < k ==> exists|x: T| call_ensures(T::hydrate, (doc, #[trigger] &vs[i]), Ok::<T, Error>(x)))
                    && call_ensures(T::hydrate, (doc, &vs[k]), Err::<T, Error>(e));
            assert(made_from(items[k], vs[k]@));
        },
    }
}

/// A list field reads back: on a session whose coming tags are new, once
/// `Vec::reconcile` has written `items` at a key of a map node, the key
/// resolves to a reference to a list node whose elements are, in order,
/// the document forms of `items`.
pub proof fn law_list_reconcile_then_read<T: Reconcile>(
    s: automerge_cat::Session,
    node: NodeRef,
    key: Seq<char>,
    items: Seq<T>,
    r: Result<automerge_cat::Session, Error>,
)
    requires
        session_fresh(s),
        map_node(session_nodes(s), node) is Some,
        r is Ok,
        exists|made: Result<(automerge_cat::Session, DocValue), Error>|
            list_made(items, s, made) && match made {
                Err(e) => r == Err::<automerge_cat::Session, Error>(e),
                Ok((s1, v)) => value_set_at(s1, node, key, v@, r),
            },
    ensures
        exists|id: NodeRef|
            {
                &&& lookup(session_nodes(r->Ok_0), node, key) == Lookup::Single(ValueView::ListRef(id))
                &&& list_node(session_nodes(r->Ok_0), id) is Some
                &&& listed_from(items, list_node(session_nodes(r->Ok_0), id)->0)
            },
{
    let made = choose|made: Result<(automerge_cat::Session, DocValue), Error>|
        list_made(items, s, made) && match made {
            Err(e) => r == Err::<automerge_cat::Session, Error>(e),
            Ok((s1, v)) => value_set_at(s1, node, key, v@, r),
        };
    let (s1, v) = made->Ok_0;
    let s2 = r->Ok_0;
    let id = NodeRef::Created { replica: next_tag(s).0, timestamp: next_tag(s).1 };
    assert(v@ == ValueView::ListRef(id));
    assert(session_nodes(s1).contains_key(node));
    assert(session_nodes(s1)[node] == session_nodes(s)[node]);
    assert(map_node(session_nodes(s1), node) is Some);
    lemma_fresh_next(s1);
    lemma_single(v@);
    assert(id != node);
    assert(session_nodes(s2)[id] == session_nodes(s1)[id]);
    assert(lookup(session_nodes(s2), node, key) == Lookup::Single(ValueView::ListRef(id)));
    assert(listed_from(items, list_node(session_nodes(s1), id)->0));
    assert(list_node(session_nodes(s2), id) == list_node(session_nodes(s1), id));
}

/// `u64` elements hydrate back: the document form that `to_value` gives
/// for a `u64` hydrates to that `u64`.
pub proof fn law_u64_elements_hydrate_back(doc: &automerge_cat::Document, items: Seq<u64>)
    ensures
        forall|i: int, x: DocValue, out: Result<u64, Error>|
            0 <= i < items.len() && #[trigger] made_from(items[i], x@) && #[trigger] call_ensures(
                u64::hydrate,
                (doc, &x),
                out,
            ) ==> out == Ok::<u64, Error>(items[i]),
{
}

/// A nested struct's map reads back: on a session whose coming tags are
/// new, when a key of a map node holds nothing or exactly one map
/// reference, `ensure_map` at that key succeeds and the key then resolves
/// to the map it returns: the one referenced, or a new empty map.
pub proof fn law_ensure_map_then_read(
    s: automerge_cat::Session,
    node: NodeRef,
    key: Seq<char>,
    held: Option<NodeRef>,
    r: Result<(automerge_cat::Session, NodeRef), Error>,
)
    requires
        session_fresh(s),
        session_clock(s) < u64::MAX - 1,
        map_node(session_nodes(s), node) is Some,
        key_values(map_node(session_nodes(s), node)->0, key) == match held {
            None => Set::<ValueView>::empty(),
            Some(n) => set![ValueView::MapRef(n)],
        },
        map_ensured(s, node, key, r),
    ensures
        r matches Ok((s2, id)) && session_fresh(s2) && lookup(session_nodes(s2), node, key) == Lookup::Single(
            ValueView::MapRef(id),
        ),
        held matches Some(n) ==> (r matches Ok((_, id)) && id == n),
        held is None ==> (r matches Ok((s2, id)) && map_node(session_nodes(s2), id) == Some(
            Map::<Seq<char>, Set<ValueView>>::empty(),
        )),
{
    let m = map_node(session_nodes(s), node)->0;
    match held {
        Some(n) => {
            assert(key_values(m, key).contains(ValueView::MapRef(n)));
            let (s2, id) = r->Ok_0;
            assert(key_values(m, key).contains(ValueView::MapRef(id)));
            assert(id == n);
            lemma_single(ValueView::MapRef(n));
            lemma_same_session_later(s, s2);
        },
        None => {
            assert(forall|n: NodeRef| !(#[trigger] key_values(m, key).contains(ValueView::MapRef(n))));
            let (s2, id) = r->Ok_0;
            lemma_single(ValueView::MapRef(id));
        },
    }
}

/// `ensure_map` twice finds the same map: after the map at a key has been
/// ensured, ensuring it again returns that map and writes nothing.  This
/// holds when the key already referred to a map, or when the session's
/// coming tags are new, so that the reference written is not lost.
pub proof fn law_ensure_map_twice(
    s: automerge_cat::Session,
    node: NodeRef,
    key: Seq<char>,
    r1: Result<(automerge_cat::Session, NodeRef), Error>,
    r2: Result<(automerge_cat::Session, NodeRef), Error>,
)
    requires
        map_node(session_nodes(s), node) is Some,
        session_fresh(s) || exists|n: NodeRef| #[trigger]
            key_values(map_node(session_nodes(s), node)->0, key).contains(ValueView::MapRef(n)),
        map_ensured(s, node, key, r1),
        r1 is Ok,
        map_ensured(r1->Ok_0.0, node, key, r2),
    ensures
        r2 matches Ok((s3, id2)) && id2 == r1->Ok_0.1 && same_session(r1->Ok_0.0, s3),
{
    let (s1, id1) = r1->Ok_0;
    let m1 = map_node(session_nodes(s1), node)->0;
    assert(key_values(m1, key).contains(ValueView::MapRef(id1))) by {
        let m = map_node(session_nodes(s), node)->0;
        if !(exists|n: NodeRef| #[trigger] key_values(m, key).contains(ValueView::MapRef(n))) {
            assert(key_values(m1, key) == set![ValueView::MapRef(id1)]);
        }
    }
    let (s3, id2) = r2->Ok_0;
    if id2 != id1 {
        let m = map_node(session_nodes(s), node)->0;
        if exists|n: NodeRef| #[trigger] key_values(m, key).contains(ValueView::MapRef(n)) {
            assert(node_lt(id1, id2));
            assert(node_lt(id2, id1));
        } else {
            assert(key_values(m1, key) == set![ValueView::MapRef(id1)]);
            assert(key_values(m1, key).contains(ValueView::MapRef(id2)));
        }
    }
}

/// A newtype or struct variant reads back: when a variant map holds only
/// the key `name`, with the single value `v`, and `name` is the `i`-th
/// wrapped variant, reading the variant gives that variant and `v`.
pub proof fn law_wrapped_variant_reads_back(
    nodes: Map<NodeRef, NodeModel>,
    id: NodeRef,
    name: Seq<char>,
    v: ValueView,
    wrapped: Seq<&'static str>,
    i: int,
    r: Result<Variant, Error>,
)
    requires
        map_node(nodes, id) is Some,
        key_values(map_node(nodes, id)->0, name) == set![v],
        forall|k: Seq<char>| k != name ==> (#[trigger] key_values(map_node(nodes, id)->0, k)).len() == 0,
        named_at(wrapped, name, i),
        wrapped_read(nodes, id, name, wrapped, r),
    ensures
        least_key(map_node(nodes, id)->0, name),
        r matches Ok(Variant::Wrapped { index, value }) && index == i && value@ == v,
{
    let m = map_node(nodes, id)->0;
    lemma_single(v);
    assert(live_keys(m).contains(name));
    assert(wrapped[i]@ == name);
    if let Ok(Variant::Wrapped { index, value }) = r {
        if index != i {
            if (index as int) < i {
                assert(wrapped[index as int]@ != name);
            } else {
                assert(wrapped[i]@ != name);
            }
        }
    }
}

/// A variant switch reads back: on a session whose coming tags are new,
/// once `ensure_variant_map` has given the wrapper map `w` for the
/// variant `name` and a scalar `v` has been reconciled at `name` of `w`,
/// the wrapper holds that key alone, with `v` alone, so reading the
/// variant gives the variant `name` and `v`, whatever variant the key
/// held before.
pub proof fn law_variant_switch_reads_back(
    s: automerge_cat::Session,
    node: NodeRef,
    key: Seq<char>,
    name: Seq<char>,
    s2: automerge_cat::Session,
    w: NodeRef,
    v: ValueView,
    s3: automerge_cat::Session,
    wrapped: Seq<&'static str>,
    i: int,
    r: Result<Variant, Error>,
)
    requires
        session_fresh(s),
        exists|e: Result<(automerge_cat::Session, NodeRef), Error>|
            #[trigger] map_ensured(s, node, key, e) && match e {
                Err(_) => false,
                Ok((s1, w1)) => others_removed(s1, w1, name, Ok((s2, w))),
            },
        scalar_reconciled(s2, w, name, v, Ok::<automerge_cat::Session, Error>(s3)),
        named_at(wrapped, name, i),
        wrapped_read(session_nodes(s3), w, name, wrapped, r),
    ensures
        least_key(map_node(session_nodes(s3), w)->0, name),
        r matches Ok(Variant::Wrapped { index, value }) && index == i && value@ == v,
{
    let e = choose|e: Result<(automerge_cat::Session, NodeRef), Error>|
        #[trigger] map_ensured(s, node, key, e) && match e {
            Err(_) => false,
            Ok((s1, w1)) => others_removed(s1, w1, name, Ok((s2, w))),
        };
    let (s1, w1) = e->Ok_0;
    let m = map_node(session_nodes(s), node)->0;
    if !(exists|n: NodeRef| #[trigger] key_values(m, key).contains(ValueView::MapRef(n))) {
        assert(session_fresh(s1));
    }
    assert(session_fresh(s2));
    lemma_fresh_next(s2);
    let m2 = map_node(session_nodes(s2), w)->0;
    let m3 = map_node(session_nodes(s3), w)->0;
    assert(key_values(m3, name) == set![v]) by {
        lemma_single(v);
        if key_values(m2, name) != set![v] {
            assert(session_clock(s2) < u64::MAX);
        }
    }
    assert forall|k: Seq<char>| k != name implies (#[trigger] key_values(m3, k)).len() == 0 by {
        if key_values(m2, name) != set![v] {
            assert(key_values(m3, k) == key_values(m2, k));
        }
        assert(!live_keys(m2).contains(k));
    }
    law_wrapped_variant_reads_back(session_nodes(s3), w, name, v, wrapped, i, r);
}

/// The fields of a struct read back: writing scalars at distinct keys of
/// a map node one after the other, on a session whose coming tags are
/// new, leaves each key holding exactly its scalar.
pub proof fn law_fields_read_back(
    node: NodeRef,
    keys: Seq<Seq<char>>,
    targets: Seq<ValueView>,
    sessions: Seq<automerge_cat::Session>,
)
    requires
        keys.len() == targets.len(),
        sessions.len() == keys.len() + 1,
        keys.no_duplicates(),
        session_fresh(sessions[0]),
        map_node(session_nodes(sessions[0]), node) is Some,
        forall|i: int|
            0 <= i < keys.len() ==> session_clock(#[trigger] sessions[i]) < u64::MAX && scalar_reconciled(
                sessions[i],
                node,
                keys[i],
                targets[i],
                Ok::<automerge_cat::Session, Error>(sessions[i + 1]),
            ),
    ensures
        session_fresh(sessions.last()),
        map_node(session_nodes(sessions.last()), node) is Some,
        forall|i: int|
            0 <= i < keys.len() ==> lookup(session_nodes(sessions.last()), node, #[trigger] keys[i])
                == Lookup::Single(targets[i]),
    decreases keys.len(),
{
    let n = keys.len() as int;
    if n > 0 {
        let k2 = keys.drop_last();
        let t2 = targets.drop_last();
        let s2 = sessions.drop_last();
        assert forall|i: int| 0 <= i < k2.len() implies session_clock(#[trigger] s2[i]) < u64::MAX
            && scalar_reconciled(s2[i], node, k2[i], t2[i], Ok::<automerge_cat::Session, Error>(s2[i + 1])) by {
            assert(s2[i] == sessions[i]);
            assert(s2[i + 1] == sessions[i + 1]);
        }
        assert(k2.no_duplicates());
        law_fields_read_back(node, k2, t2, s2);
        let before = sessions[n - 1];
        let after = sessions[n];
        assert(before == s2.last());
        assert(scalar_reconciled(before, node, keys[n - 1], targets[n - 1], Ok::<automerge_cat::Session, Error>(after)));
        law_scalar_write_then_read(before, node, keys[n - 1], targets[n - 1], Ok(after));
        assert(map_node(session_nodes(after), node) is Some);
        assert forall|i: int| 0 <= i < n implies lookup(session_nodes(sessions.last()), node, #[trigger] keys[i])
            == Lookup::Single(targets[i]) by {
            if i < n - 1 {
                assert(keys[i] != keys[n - 1]);
                assert(k2[i] == keys[i]);
                law_write_leaves_other_keys(before, node, keys[n - 1], targets[n - 1], Ok(after), node, keys[i]);
            }
        }
    }
}

/// Reconciling a struct again writes nothing: when every key already
/// holds exactly its scalar, writing them all again leaves the session,
/// its clock included, as it was.
pub proof fn law_unchanged_fields_skipped(
    node: NodeRef,
    keys: Seq<Seq<char>>,
    targets: Seq<ValueView>,
    sessions: Seq<automerge_cat::Session>,
)
    requires
        keys.len() == targets.len(),
        sessions.len() == keys.len() + 1,
        map_node(session_nodes(sessions[0]), node) is Some,
        forall|i: int|
            0 <= i < keys.len() ==> key_values(map_node(session_nodes(sessions[0]), node)->0, #[trigger] keys[i])
                == set![targets[i]],
        forall|i: int|
            0 <= i < keys.len() ==> scalar_reconciled(
                #[trigger] sessions[i],
                node,
                keys[i],
                targets[i],
                Ok::<automerge_cat::Session, Error>(sessions[i + 1]),
            ),
    ensures
        same_session(sessions[0], sessions.last()),
    decreases keys.len(),
{
    let n = keys.len() as int;
    if n > 0 {
        let k2 = keys.drop_last();
        let t2 = targets.drop_last();
        let s2 = sessions.drop_last();
        assert forall|i: int| 0 <= i < k2.len() implies scalar_reconciled(
            #[trigger] s2[i],
            node,
            k2[i],
            t2[i],
            Ok::<automerge_cat::Session, Error>(s2[i + 1]),
        ) by {
            assert(s2[i] == sessions[i]);
            assert(s2[i + 1] == sessions[i + 1]);
        }
        assert forall|i: int| 0 <= i < k2.len() implies key_values(map_node(session_nodes(s2[0]), node)->0, #[trigger] k2[i])
            == set![t2[i]] by {
            assert(k2[i] == keys[i]);
        }
        law_unchanged_fields_skipped(node, k2, t2, s2);
        let before = sessions[n - 1];
        assert(before == s2.last());
        assert(scalar_reconciled(before, node, keys[n - 1], targets[n - 1], Ok::<automerge_cat::Session, Error>(sessions[n])));
        assert(key_values(map_node(session_nodes(before), node)->0, keys[n - 1]) == set![targets[n - 1]]);
    }
}

/// `r` is the outcome of reconciling a field of a struct at `key` of the
/// map node `node`: a scalar for `Some`, an absent `Option` for `None`.
pub open spec fn field_reconciled(
    s: automerge_cat::Session,
    node: NodeRef,
    key: Seq<char>,
    target: Option<ValueView>,
    r: Result<automerge_cat::Session, Error>,
) -> bool {
    match target {
        Some(t) => scalar_reconciled(s, node, key, t, r),
        None => cleared_at(s, node, key, r),
    }
}

/// The map contents `m` hold the field `target` at `key`: exactly that
/// scalar for `Some`, no value for `None`.
pub open spec fn field_holds(m: Map<Seq<char>, Set<ValueView>>, key: Seq<char>, target: Option<ValueView>) -> bool {
    match target {
        Some(t) => key_values(m, key) == set![t],
        None => key_values(m, key).len() == 0,
    }
}

/// Reconciling a struct with optional fields again writes nothing: when
/// every key already holds its field (its scalar, or nothing for an
/// absent `Option`), writing them all again leaves the session, its clock
/// included, as it was.
pub proof fn law_unchanged_optional_fields_skipped(
    node: NodeRef,
    keys: Seq<Seq<char>>,
    targets: Seq<Option<ValueView>>,
    sessions: Seq<automerge_cat::Session>,
)
    requires
        keys.len() == targets.len(),
        sessions.len() == keys.len() + 1,
        map_node(session_nodes(sessions[0]), node) is Some,
        forall|i: int|
            0 <= i < keys.len() ==> field_holds(map_node(session_nodes(sessions[0]), node)->0, #[trigger] keys[i], targets[i]),
        forall|i: int|
            0 <= i < keys.len() ==> field_reconciled(
                #[trigger] sessions[i],
                node,
                keys[i],
                targets[i],
                Ok::<automerge_cat::Session, Error>(sessions[i + 1]),
            ),
    ensures
        same_session(sessions[0], sessions.last()),
    decreases keys.len(),
{
    let n = keys.len() as int;
    if n > 0 {
        let k2 = keys.drop_last();
        let t2 = targets.drop_last();
        let s2 = sessions.drop_last();
        assert forall|i: int| 0 <= i < k2.len() implies field_reconciled(
            #[trigger] s2[i],
            node,
            k2[i],
            t2[i],
            Ok::<automerge_cat::Session, Error>(s2[i + 1]),
        ) by {
            assert(s2[i] == sessions[i]);
            assert(s2[i + 1] == sessions[i + 1]);
            assert(k2[i] == keys[i]);
            assert(field_reconciled(sessions[i], node, keys[i], targets[i], Ok::<automerge_cat::Session, Error>(sessions[i + 1])));
        }
        assert forall|i: int| 0 <= i < k2.len() implies field_holds(map_node(session_nodes(s2[0]), node)->0, #[trigger] k2[i], t2[i]) by {
            assert(k2[i] == keys[i]);
            assert(field_holds(map_node(session_nodes(sessions[0]), node)->0, keys[i], targets[i]));
        }
        law_unchanged_optional_fields_skipped(node, k2, t2, s2);
        let before = sessions[n - 1];
        assert(before == s2.last());
        assert(field_reconciled(before, node, keys[n - 1], targets[n - 1], Ok::<automerge_cat::Session, Error>(sessions[n])));
        assert(field_holds(map_node(session_nodes(sessions[0]), node)->0, keys[n - 1], targets[n - 1]));
    }
}

/// Reconciling a nested struct again writes nothing: when a key holds
/// exactly one map reference `id`, `ensure_map` there returns `id` and
/// leaves the session as it was; and when every field key of that map
/// already holds its field, writing the fields again leaves the session,
/// its clock included, as it was.
pub proof fn law_unchanged_nested_struct_skipped(
    s: automerge_cat::Session,
    node: NodeRef,
    key: Seq<char>,
    id: NodeRef,
    r1: Result<(automerge_cat::Session, NodeRef), Error>,
    keys: Seq<Seq<char>>,
    targets: Seq<Option<ValueView>>,
    sessions: Seq<automerge_cat::Session>,
)
    requires
        map_node(session_nodes(s), node) is Some,
        key_values(map_node(session_nodes(s), node)->0, key) == set![ValueView::MapRef(id)],
        map_node(session_nodes(s), id) is Some,
        keys.len() == targets.len(),
        sessions.len() == keys.len() + 1,
        forall|i: int|
            0 <= i < keys.len() ==> field_holds(map_node(session_nodes(s), id)->0, #[trigger] keys[i], targets[i]),
        map_ensured(s, node, key, r1),
        r1 is Ok ==> sessions[0] == r1->Ok_0.0,
        forall|i: int|
            0 <= i < keys.len() ==> field_reconciled(
                #[trigger] sessions[i],
                id,
                keys[i],
                targets[i],
                Ok::<automerge_cat::Session, Error>(sessions[i + 1]),
            ),
    ensures
        r1 matches Ok((s1, w)) && w == id && same_session(s, s1),
        same_session(s, sessions.last()),
{
    let m = map_node(session_nodes(s), node)->0;
    assert(key_values(m, key).contains(ValueView::MapRef(id)));
    let (s1, w) = r1->Ok_0;
    assert(key_values(m, key).contains(ValueView::MapRef(w)));
    assert(w == id);
    law_unchanged_optional_fields_skipped(id, keys, targets, sessions);
}

/// A newtype or struct variant's wrapper is kept as it is: when a key
/// holds exactly one map reference `w`, and that map holds the variant's
/// key `name` alone, `ensure_variant_map` there returns `w` and leaves the
/// session as it was.
pub proof fn law_variant_wrapper_kept(
    s: automerge_cat::Session,
    node: NodeRef,
    key: Seq<char>,
    w: NodeRef,
    name: Seq<char>,
    r1: Result<(automerge_cat::Session, NodeRef), Error>,
)
    requires
        map_node(session_nodes(s), node) is Some,
        key_values(map_node(session_nodes(s), node)->0, key) == set![ValueView::MapRef(w)],
        map_node(session_nodes(s), w) is Some,
        forall|k: Seq<char>| k != name ==> (#[trigger] key_values(map_node(session_nodes(s), w)->0, k)).len() == 0,
        exists|e: Result<(automerge_cat::Session, NodeRef), Error>|
            #[trigger] map_ensured(s, node, key, e) && match e {
                Err(x) => r1 == Err::<(automerge_cat::Session, NodeRef), Error>(x),
                Ok((s1, w1)) => others_removed(s1, w1, name, r1),
            },
    ensures
        r1 matches Ok((s1, w1)) && w1 == w && same_session(s, s1),
{
    let m = map_node(session_nodes(s), node)->0;
    let e = choose|e: Result<(automerge_cat::Session, NodeRef), Error>|
        #[trigger] map_ensured(s, node, key, e) && match e {
            Err(x) => r1 == Err::<(automerge_cat::Session, NodeRef), Error>(x),
            Ok((s1, w1)) => others_removed(s1, w1, name, r1),
        };
    assert(key_values(m, key).contains(ValueView::MapRef(w)));
    let (s1, w1) = e->Ok_0;
    assert(key_values(m, key).contains(ValueView::MapRef(w1)));
    assert(w1 == w);
    let mw = map_node(session_nodes(s1), w)->0;
    assert forall|k: Seq<char>| live_keys(mw).contains(k) implies set![name].contains(k) by {
        if k != name {
            assert(key_values(mw, k).len() == 0);
        }
    }
}

/// Reconciling a newtype variant again writes nothing: when its wrapper
/// map at a key holds the variant's key `name` alone, with exactly the
/// scalar `v`, reconciling the same variant leaves the session, its clock
/// included, as it was.
pub proof fn law_unchanged_newtype_variant_skipped(
    s: automerge_cat::Session,
    node: NodeRef,
    key: Seq<char>,
    w: NodeRef,
    name: Seq<char>,
    v: ValueView,
    r1: Result<(automerge_cat::Session, NodeRef), Error>,
    r2: Result<automerge_cat::Session, Error>,
)
    requires
        map_node(session_nodes(s), node) is Some,
        key_values(map_node(session_nodes(s), node)->0, key) == set![ValueView::MapRef(w)],
        map_node(session_nodes(s), w) is Some,
        key_values(map_node(session_nodes(s), w)->0, name) == set![v],
        forall|k: Seq<char>| k != name ==> (#[trigger] key_values(map_node(session_nodes(s), w)->0, k)).len() == 0,
        exists|e: Result<(automerge_cat::Session, NodeRef), Error>|
            #[trigger] map_ensured(s, node, key, e) && match e {
                Err(x) => r1 == Err::<(automerge_cat::Session, NodeRef), Error>(x),
                Ok((s1, w1)) => others_removed(s1, w1, name, r1),
            },
        r1 is Ok ==> scalar_reconciled(r1->Ok_0.0, r1->Ok_0.1, name, v, r2),
    ensures
        r1 matches Ok((s1, w1)) && w1 == w && same_session(s, s1),
        r2 matches Ok(s2) && same_session(s, s2),
{
    law_variant_wrapper_kept(s, node, key, w, name, r1);
}

/// Reconciling a struct variant again writes nothing: when its wrapper
/// map at a key holds the variant's key `name` alone, referring to the
/// map `inner` alone, and every field key of `inner` already holds its
/// field, reconciling the same variant leaves the session, its clock
/// included, as it was.
pub proof fn law_unchanged_struct_variant_skipped(
    s: automerge_cat::Session,
    node: NodeRef,
    key: Seq<char>,
    w: NodeRef,
    name: Seq<char>,
    inner: NodeRef,
    r1: Result<(automerge_cat::Session, NodeRef), Error>,
    r2: Result<(automerge_cat::Session, NodeRef), Error>,
    keys: Seq<Seq<char>>,
    targets: Seq<Option<ValueView>>,
    sessions: Seq<automerge_cat::Session>,
)
    requires
        map_node(session_nodes(s), node) is Some,
        key_values(map_node(session_nodes(s), node)->0, key) == set![ValueView::MapRef(w)],
        map_node(session_nodes(s), w) is Some,
        key_values(map_node(session_nodes(s), w)->0, name) == set![ValueView::MapRef(inner)],
        forall|k: Seq<char>| k != name ==> (#[trigger] key_values(map_node(session_nodes(s), w)->0, k)).len() == 0,
        map_node(session_nodes(s), inner) is Some,
        keys.len() == targets.len(),
        sessions.len() == keys.len() + 1,
        forall|i: int|
            0 <= i < keys.len() ==> field_holds(map_node(session_nodes(s), inner)->0, #[trigger] keys[i], targets[i]),
        exists|e: Result<(automerge_cat::Session, NodeRef), Error>|
            #[trigger] map_ensured(s, node, key, e) && match e {
                Err(x) => r1 == Err::<(automerge_cat::Session, NodeRef), Error>(x),
                Ok((s1, w1)) => others_removed(s1, w1, name, r1),
            },
        r1 is Ok ==> map_ensured(r1->Ok_0.0, r1->Ok_0.1, name, r2),
        r2 is Ok ==> sessions[0] == r2->Ok_0.0,
        forall|i: int|
            0 <= i < keys.len() ==> field_reconciled(
                #[trigger] sessions[i],
                inner,
                keys[i],
                targets[i],
                Ok::<automerge_cat::Session, Error>(sessions[i + 1]),
            ),
    ensures
        r1 matches Ok((s1, w1)) && w1 == w && same_session(s, s1),
        r2 matches Ok((s2, i2)) && i2 == inner && same_session(s, s2),
        same_session(s, sessions.last()),
{
    law_variant_wrapper_kept(s, node, key, w, name, r1);
    let (s1, w1) = r1->Ok_0;
    assert forall|i: int| 0 <= i < keys.len() implies field_holds(
        map_node(session_nodes(s1), inner)->0,
        #[trigger] keys[i],
        targets[i],
    ) by {
        assert(field_holds(map_node(session_nodes(s), inner)->0, keys[i], targets[i]));
    }
    law_unchanged_nested_struct_skipped(s1, w, name, inner, r2, keys, targets, sessions);
}

/// A variant's document form reads back: on a session whose coming tags
/// are new, when a new map `w` is made, the inner value's document form
/// `x` is made (growing the session only), and `x` is written at the
/// variant's key `name` of `w`, reading the variant from `w` gives that
/// variant and `x`.
pub proof fn law_variant_value_reads_back(
    s: automerge_cat::Session,
    s1: automerge_cat::Session,
    w: NodeRef,
    s2: automerge_cat::Session,
    x: ValueView,
    name: Seq<char>,
    s3: automerge_cat::Session,
    wrapped: Seq<&'static str>,
    i: int,
    r: Result<Variant, Error>,
)
    requires
        session_fresh(s),
        map_made(s, Ok((s1, w))),
        session_grown(s1, s2),
        value_set_at(s2, w, name, x, Ok::<automerge_cat::Session, Error>(s3)),
        named_at(wrapped, name, i),
        wrapped_read(session_nodes(s3), w, name, wrapped, r),
    ensures
        least_key(map_node(session_nodes(s3), w)->0, name),
        r matches Ok(Variant::Wrapped { index, value }) && index == i && value@ == x,
{
    lemma_one_step_later(s, s1);
    assert(session_fresh(s2));
    lemma_fresh_next(s2);
    assert(session_nodes(s1).contains_key(w));
    assert(session_nodes(s2)[w] == session_nodes(s1)[w]);
    let m2 = map_node(session_nodes(s2), w)->0;
    assert(m2 == Map::<Seq<char>, Set<ValueView>>::empty());
    let m3 = map_node(session_nodes(s3), w)->0;
    assert forall|k: Seq<char>| k != name implies (#[trigger] key_values(m3, k)).len() == 0 by {
        assert(key_values(m3, k) == key_values(m2, k));
    }
    law_wrapped_variant_reads_back(session_nodes(s3), w, name, x, wrapped, i, r);
}

/// A list's document form reads back wherever what made it is kept: when
/// `Vec::to_value` has made the list `x` for `items` on a session whose
/// coming tags are new, and a document keeps, unchanged, every node that
/// this call made (the list and the containers of its elements), then
/// hydrating `x` there gives `items` back, provided each element's
/// document form hydrates back to that element in that document.
pub proof fn law_list_form_reads_back<U: Hydrate + Reconcile>(
    doc: &automerge_cat::Document,
    items: Seq<U>,
    a: automerge_cat::Session,
    b: automerge_cat::Session,
    x: DocValue,
    y: DocValue,
    out: Result<Vec<U>, Error>,
)
    requires
        session_fresh(a),
        list_made(items, a, Ok::<(automerge_cat::Session, DocValue), Error>((b, x))),
        made_nodes_kept(a, b, doc_nodes(*doc)),
        y@ == x@,
        call_ensures(<Vec<U> as Hydrate>::hydrate, (doc, &y), out),
        forall|i: int, z: DocValue, o: Result<U, Error>|
            0 <= i < items.len() && #[trigger] made_after(items[i], z@, Set::empty(), doc_nodes(*doc))
                && #[trigger] call_ensures(U::hydrate, (doc, &z), o) ==> o == Ok::<U, Error>(items[i]),
    ensures
        out matches Ok(w) && w@ == items,
{
    let id = NodeRef::Created { replica: next_tag(a).0, timestamp: next_tag(a).1 };
    assert(y@ == ValueView::ListRef(id));
    assert(session_nodes(b).contains_key(id));
    let es = list_node(session_nodes(b), id)->0;
    assert(doc_nodes(*doc).contains_key(id) && doc_nodes(*doc)[id] == session_nodes(b)[id]);
    assert(list_node(doc_nodes(*doc), id) == Some(es));
    let vs = choose|vs: Seq<DocValue>| views(vs) == element_values(es) && hydrated_each(doc, vs, out);
    assert(listed_from(items, es));
    assert(views(vs).len() == vs.len());
    assert(element_values(es).len() == es.len());
    assert forall|i: int| 0 <= i < vs.len() implies #[trigger] made_after(
        items[i],
        vs[i]@,
        Set::empty(),
        doc_nodes(*doc),
    ) by {
        assert(views(vs)[i] == vs[i]@);
        assert(element_values(es)[i] == es[i].1);
        assert(made_after(items[i], es[i].1, session_nodes(a).dom(), session_nodes(b)));
        let (ai, bi, xi) = choose|ai: automerge_cat::Session, bi: automerge_cat::Session, xi: DocValue|
            xi@ == es[i].1 && session_fresh(ai) && session_nodes(a).dom().subset_of(session_nodes(ai).dom())
                && made_nodes_kept(ai, bi, session_nodes(b)) && #[trigger] call_ensures(
                U::to_value,
                (&items[i], &ai),
                Ok::<(automerge_cat::Session, DocValue), Error>((bi, xi)),
            );
        assert forall|n: NodeRef|
            #[trigger] session_nodes(bi).contains_key(n) && !session_nodes(ai).contains_key(n) implies doc_nodes(
                *doc,
            ).contains_key(n) && doc_nodes(*doc)[n] == session_nodes(bi)[n] by {
            assert(session_nodes(b).contains_key(n));
            assert(!session_nodes(a).contains_key(n));
        }
        assert(Set::<NodeRef>::empty().subset_of(session_nodes(ai).dom()));
        assert(made_nodes_kept(ai, bi, doc_nodes(*doc)));
    }
    match out {
        Ok(w) => {
            assert forall|i: int| 0 <= i < items.len() implies w@[i] == items[i] by {
                assert(made_after(items[i], vs[i]@, Set::empty(), doc_nodes(*doc)));
                assert(call_ensures(U::hydrate, (doc, &vs[i]), Ok::<U, Error>(w@[i])));
            }
            assert(w@ =~= items);
        },
        Err(e) => {
            let k = choose|k: int|
                0 <= k < vs.len() && (forall|i: int|
                    0 <= i < k ==> exists|t: U| call_ensures(U::hydrate, (doc, #[trigger] &vs[i]), Ok::<U, Error>(t)))
                    && call_ensures(U::hydrate, (doc, &vs[k]), Err::<U, Error>(e));
            assert(made_after(items[k], vs[k]@, Set::empty(), doc_nodes(*doc)));
        },
    }
}

/// A list written by `to_value` reads back: on a session whose coming
/// tags are new, the list that `Vec::to_value` makes for `items`
/// hydrates back to `items` in the document of the session it returns,
/// every element's containers included, provided each element's document
/// form hydrates back to that element there.
pub proof fn law_list_to_value_reads_back<U: Hydrate + Reconcile>(
    doc: &automerge_cat::Document,
    items: Seq<U>,
    s: automerge_cat::Session,
    s2: automerge_cat::Session,
    v: DocValue,
    out: Result<Vec<U>, Error>,
)
    requires
        session_fresh(s),
        list_made(items, s, Ok::<(automerge_cat::Session, DocValue), Error>((s2, v))),
        doc_nodes(*doc) == session_nodes(s2),
        call_ensures(<Vec<U> as Hydrate>::hydrate, (doc, &v), out),
        forall|i: int, z: DocValue, o: Result<U, Error>|
            0 <= i < items.len() && #[trigger] made_after(items[i], z@, Set::empty(), doc_nodes(*doc))
                && #[trigger] call_ensures(U::hydrate, (doc, &z), o) ==> o == Ok::<U, Error>(items[i]),
    ensures
        out matches Ok(w) && w@ == items,
{
    law_list_form_reads_back(doc, items, s, s2, v, v, out);
}

/// Lists of lists read back: on a session whose coming tags are new, the
/// list that `Vec::to_value` makes for `items`, whose elements are lists
/// themselves, hydrates back, list by list, to `items` in the document of
/// the session it returns, provided each inner element's document form
/// hydrates back to that element there.
pub proof fn law_nested_lists_read_back<U: Hydrate + Reconcile>(
    doc: &automerge_cat::Document,
    items: Seq<Vec<U>>,
    s: automerge_cat::Session,
    s2: automerge_cat::Session,
    v: DocValue,
    out: Result<Vec<Vec<U>>, Error>,
)
    requires
        session_fresh(s),
        list_made(items, s, Ok::<(automerge_cat::Session, DocValue), Error>((s2, v))),
        doc_nodes(*doc) == session_nodes(s2),
        call_ensures(<Vec<Vec<U>> as Hydrate>::hydrate, (doc, &v), out),
        forall|i: int, k: int, z: DocValue, o: Result<U, Error>|
            0 <= i < items.len() && 0 <= k < items[i]@.len() && #[trigger] made_after(
                items[i]@[k],
                z@,
                Set::empty(),
                doc_nodes(*doc),
            ) && #[trigger] call_ensures(U::hydrate, (doc, &z), o) ==> o == Ok::<U, Error>(items[i]@[k]),
    ensures
        out matches Ok(w) && w@.len() == items.len() && forall|i: int| 0 <= i < items.len() ==> (#[trigger] w@[i])@
            == items[i]@,
{
    let id = NodeRef::Created { replica: next_tag(s).0, timestamp: next_tag(s).1 };
    let es = list_node(session_nodes(s2), id)->0;
    assert(list_node(doc_nodes(*doc), id) == Some(es));
    let vs = choose|vs: Seq<DocValue>| views(vs) == element_values(es) && hydrated_each(doc, vs, out);
    assert(listed_from(items, es));
    assert(views(vs).len() == vs.len());
    assert(element_values(es).len() == es.len());
    assert forall|i: int, o: Result<Vec<U>, Error>|
        0 <= i < vs.len() && #[trigger] call_ensures(<Vec<U> as Hydrate>::hydrate, (doc, &vs[i]), o) implies (o matches Ok(
            t,
        ) && t@ == items[i]@) by {
        assert(views(vs)[i] == vs[i]@);
        assert(element_values(es)[i] == es[i].1);
        assert(made_after(items[i], es[i].1, session_nodes(s).dom(), session_nodes(s2)));
        let (ai, bi, xi) = choose|ai: automerge_cat::Session, bi: automerge_cat::Session, xi: DocValue|
            xi@ == es[i].1 && session_fresh(ai) && session_nodes(s).dom().subset_of(session_nodes(ai).dom())
                && made_nodes_kept(ai, bi, session_nodes(s2)) && #[trigger] call_ensures(
                <Vec<U> as Reconcile>::to_value,
                (&items[i], &ai),
                Ok::<(automerge_cat::Session, DocValue), Error>((bi, xi)),
            );
        assert(list_made(items[i]@, ai, Ok::<(automerge_cat::Session, DocValue), Error>((bi, xi))));
        assert forall|k: int, z: DocValue, o2: Result<U, Error>|
            0 <= k < items[i]@.len() && #[trigger] made_after(items[i]@[k], z@, Set::empty(), doc_nodes(*doc))
                && #[trigger] call_ensures(U::hydrate, (doc, &z), o2) implies o2 == Ok::<U, Error>(items[i]@[k]) by {}
        law_list_form_reads_back(doc, items[i]@, ai, bi, xi, vs[i], o);
    }
    match out {
        Ok(w) => {
            assert forall|i: int| 0 <= i < items.len() implies (#[trigger] w@[i])@ == items[i]@ by {
                assert(call_ensures(<Vec<U> as Hydrate>::hydrate, (doc, &vs[i]), Ok::<Vec<U>, Error>(w@[i])));
            }
        },
        Err(e) => {
            let k = choose|k: int|
                0 <= k < vs.len() && (forall|i: int|
                    0 <= i < k ==> exists|t: Vec<U>| call_ensures(<Vec<U> as Hydrate>::hydrate, (doc, #[trigger] &vs[i]), Ok::<Vec<U>, Error>(t)))
                    && call_ensures(<Vec<U> as Hydrate>::hydrate, (doc, &vs[k]), Err::<Vec<U>, Error>(e));
            assert(call_ensures(<Vec<U> as Hydrate>::hydrate, (doc, &vs[k]), Err::<Vec<U>, Error>(e)));
        },
    }
}

} // verus!
