//! The document form of enums.
//!
//! A unit variant is the string of its name; a newtype or struct variant
//! is a map with the single key of its name, holding the inner value or
//! the map of its fields.  [`select_variant`] reads back which variant a
//! value holds; [`reconcile_unit_variant`] writes a unit variant in place
//! and [`ensure_variant_map`] finds or makes the wrapper map of a newtype
//! or struct variant, holding no key but the variant's name.
use vstd::prelude::*;

use crate::document::{
    chars_lt, doc_keys, doc_nodes, key_values, lemma_fresh_next, lemma_later_trans,
    lemma_one_step_later, lemma_same_session_later, live_keys, map_node, same_session,
    session_clock, session_clock_value, session_copy, session_delete_key, session_document,
    session_fresh, session_later, session_nodes, wrong_node, DocValue, NodeModel, NodeRef,
    ValueView,
};
use crate::error::{is_conflict, Error};
use crate::hydrate::{lookup, resolve_key, value_type_name, variant_name, Lookup};
use crate::reconcile::{ensure_map, map_ensured, reconcile_scalar, scalar_reconciled};

verus! {

/// The variant that a document value holds.
#[derive(Debug, PartialEq)]
pub enum Variant {
    /// The unit variant with this index among the unit variants.
    Unit(usize),
    /// The variant with this index among the newtype and struct variants,
    /// with the value stored under its name.
    Wrapped { index: usize, value: DocValue },
}

/// `i` is the first position in `names` of the name `s`.
pub open spec fn named_at(names: Seq<&'static str>, s: Seq<char>, i: int) -> bool {
    &&& 0 <= i < names.len()
    &&& names[i]@ == s
    &&& forall|j: int| 0 <= j < i ==> (#[trigger] names[j])@ != s
}

/// `s` is one of `names`.
pub open spec fn has_name(names: Seq<&'static str>, s: Seq<char>) -> bool {
    exists|i: int| 0 <= i < names.len() && (#[trigger] names[i])@ == s
}

/// `k` is the least key, in the order of strings, that holds a value in `m`.
pub open spec fn least_key(m: Map<Seq<char>, Set<ValueView>>, k: Seq<char>) -> bool {
    &&& live_keys(m).contains(k)
    &&& forall|k2: Seq<char>| #[trigger] live_keys(m).contains(k2) && k2 != k ==> chars_lt(k, k2)
}

/// `r` is the variant read from the variant map `id`, whose least key is
/// `k`, among the newtype and struct variants `wrapped`.
pub open spec fn wrapped_read(
    nodes: Map<NodeRef, NodeModel>,
    id: NodeRef,
    k: Seq<char>,
    wrapped: Seq<&'static str>,
    r: Result<Variant, Error>,
) -> bool {
    if has_name(wrapped, k) {
        match lookup(nodes, id, k) {
            Lookup::Single(v) => r matches Ok(Variant::Wrapped { index, value }) && named_at(
                wrapped,
                k,
                index as int,
            ) && value@ == v,
            Lookup::Conflict => r matches Err(e) && is_conflict(e, id, k),
            _ => false,
        }
    } else {
        r matches Err(Error::UnknownVariant { variant }) && variant@ == k
    }
}

/// `r` is the outcome of removing from the map node `w` of `s` every key
/// but `keep`, one operation per key: what `keep` holds and every other
/// node stay as they were.  Nothing is written when no other key holds a
/// value.  One operation is needed per key at most, so the clock runs out
/// only when it is too close to its end for that.
pub open spec fn others_removed(
    s: automerge_cat::Session,
    w: NodeRef,
    keep: Seq<char>,
    r: Result<(automerge_cat::Session, NodeRef), Error>,
) -> bool {
    match map_node(session_nodes(s), w) {
        None => r matches Err(Error::Document(e)) && wrong_node(session_nodes(s), w, "map"@, e),
        Some(m) => {
            &&& live_keys(m).subset_of(set![keep]) ==> (r matches Ok((s2, id)) && id == w && same_session(s, s2))
            &&& session_fresh(s) && session_clock(s) + live_keys(m).len() <= u64::MAX ==> r is Ok
            &&& r == Err::<(automerge_cat::Session, NodeRef), Error>(Error::ClockExhausted) ==> session_clock(s)
                + live_keys(m).len() > u64::MAX
            &&& r matches Err(e) ==> e == Error::ClockExhausted || (!session_fresh(s) && e is Document)
            &&& r matches Ok((s2, id)) ==> {
                &&& id == w
                &&& session_later(s, s2)
                &&& session_nodes(s2).dom() == session_nodes(s).dom()
                &&& forall|n: NodeRef| #[trigger]
                    session_nodes(s).contains_key(n) && n != w ==> session_nodes(s2)[n] == session_nodes(s)[n]
                &&& map_node(session_nodes(s2), w) is Some
                &&& live_keys(map_node(session_nodes(s2), w)->0).subset_of(set![keep])
                &&& key_values(map_node(session_nodes(s2), w)->0, keep) == key_values(m, keep)
            }
        },
    }
}

/// No sequence of characters is before itself.
proof fn lemma_chars_lt_irreflexive(a: Seq<char>)
    ensures
        !chars_lt(a, a),
    decreases a.len(),
{
    if a.len() > 0 {
        lemma_chars_lt_irreflexive(a.drop_first());
    }
}

/// Write the unit variant `name` at `key` of the map node `node`: its
/// name as a string, skipped when the key already holds exactly it.
pub fn reconcile_unit_variant(session: &automerge_cat::Session, node: NodeRef, key: &str, name: &str) -> (r:
    Result<automerge_cat::Session, Error>)
    ensures
        scalar_reconciled(*session, node, key@, ValueView::Str(name@), r),
{
    reconcile_scalar(session, node, key, &DocValue::Str(name.to_owned()))
}

/// Find or make the wrapper map of the newtype or struct variant
/// `variant` at `key` of the map node `node`, then remove from it every
/// key but `variant`, so that it names that variant alone.
pub fn ensure_variant_map(session: &automerge_cat::Session, node: NodeRef, key: &str, variant: &str) -> (r:
    Result<(automerge_cat::Session, NodeRef), Error>)
    ensures
        exists|e: Result<(automerge_cat::Session, NodeRef), Error>|
            #[trigger] map_ensured(*session, node, key@, e) && match e {
                Err(x) => r == Err::<(automerge_cat::Session, NodeRef), Error>(x),
                Ok((s1, w)) => others_removed(s1, w, variant@, r),
            },
        r matches Ok((s2, _)) ==> session_later(*session, s2),
{
    let ensured = ensure_map(session, node, key);
    let (s1, w) = match ensured {
        Ok(found) => found,
        Err(e) => return Err(e),
    };
    let r = remove_other_keys(&s1, w, variant);
    proof {
        if r is Ok {
            lemma_later_trans(*session, s1, r->Ok_0.0);
        }
    }
    r
}

/// Remove from the map node `w` every key but `keep`, in ascending order.
fn remove_other_keys(s1: &automerge_cat::Session, w: NodeRef, keep: &str) -> (r: Result<
    (automerge_cat::Session, NodeRef),
    Error,
>)
    ensures
        others_removed(*s1, w, keep@, r),
{
    let keys = match doc_keys(session_document(s1), w) {
        Ok(keys) => keys,
        Err(e) => return Err(Error::Document(e)),
    };
    let ghost m = map_node(session_nodes(*s1), w)->0;
    let ghost ks = keys@.map_values(|k: String| k@);
    proof {
        assert forall|i: int, j: int| 0 <= i < j < ks.len() implies ks[i] != ks[j] by {
            assert(chars_lt(keys@[i]@, keys@[j]@));
            lemma_chars_lt_irreflexive(ks[i]);
        }
        assert(ks.no_duplicates());
        assert forall|k: Seq<char>| live_keys(m).contains(k) <==> ks.to_set().contains(k) by {
            if live_keys(m).contains(k) {
                let i = choose|i: int| 0 <= i < keys@.len() && #[trigger] keys@[i]@ == k;
                assert(ks[i] == k);
            }
            if ks.to_set().contains(k) {
                let i = choose|i: int| 0 <= i < ks.len() && ks[i] == k;
                assert(keys@[i]@ == k);
            }
        }
        assert(live_keys(m) =~= ks.to_set());
        ks.unique_seq_to_set();
        assert forall|j: int| 0 <= j < keys@.len() implies live_keys(m).contains(#[trigger] keys@[j]@) by {
            assert(ks[j] == keys@[j]@);
            assert(ks.to_set().contains(ks[j]));
        }
    }
    let keep_name = keep.to_owned();
    let mut cur = session_copy(s1);
    proof {
        lemma_same_session_later(*s1, cur);
    }
    let mut removed_any = false;
    let mut i: usize = 0;
    while i < keys.len()
        invariant
            i <= keys@.len(),
            keep_name@ == keep@,
            live_keys(m).len() == keys@.len(),
            map_node(session_nodes(*s1), w) == Some(m),
            session_later(*s1, cur),
            session_clock(cur) <= session_clock(*s1) + i,
            !removed_any ==> same_session(*s1, cur),
            session_nodes(cur).dom() == session_nodes(*s1).dom(),
            forall|n: NodeRef| #[trigger]
                session_nodes(*s1).contains_key(n) && n != w ==> session_nodes(cur)[n] == session_nodes(*s1)[n],
            map_node(session_nodes(cur), w) is Some,
            forall|k: Seq<char>|
                #[trigger] key_values(map_node(session_nodes(cur), w)->0, k) == key_values(m, k) || (k != keep@
                    && key_values(map_node(session_nodes(cur), w)->0, k) == Set::<ValueView>::empty()),
            forall|j: int|
                0 <= j < i && (#[trigger] keys@[j])@ != keep@ ==> key_values(
                    map_node(session_nodes(cur), w)->0,
                    keys@[j]@,
                ) == Set::<ValueView>::empty(),
            removed_any ==> exists|j: int| 0 <= j < i && (#[trigger] keys@[j])@ != keep@,
            live_keys(m).subset_of(set![keep@]) ==> !removed_any,
            forall|j: int| 0 <= j < keys@.len() ==> live_keys(m).contains(#[trigger] keys@[j]@),
        decreases keys@.len() - i,
    {
        if !(keys[i] == keep_name) {
            proof {
                assert(live_keys(m).contains(keys@[i as int]@));
                assert(keys@[i as int]@ != keep@);
                assert(!set![keep@].contains(keys@[i as int]@));
                assert(!live_keys(m).subset_of(set![keep@]));
            }
            if session_clock_value(&cur) == u64::MAX {
                return Err(Error::ClockExhausted);
            }
            let ghost before = cur;
            let ghost mb = map_node(session_nodes(cur), w)->0;
            cur = match session_delete_key(&cur, w, keys[i].as_str()) {
                Ok(s2) => s2,
                Err(e) => {
                    proof {
                        lemma_fresh_next(before);
                    }
                    return Err(Error::Document(e));
                },
            };
            proof {
                lemma_one_step_later(before, cur);
                lemma_later_trans(*s1, before, cur);
                assert forall|k: Seq<char>|
                    #[trigger] key_values(map_node(session_nodes(cur), w)->0, k) == key_values(m, k) || (k
                        != keep@ && key_values(map_node(session_nodes(cur), w)->0, k) == Set::<ValueView>::empty()) by {
                    if k != keys@[i as int]@ {
                        assert(key_values(map_node(session_nodes(cur), w)->0, k) == key_values(mb, k));
                    }
                }
                assert forall|n: NodeRef| #[trigger]
                    session_nodes(*s1).contains_key(n) && n != w implies session_nodes(cur)[n] == session_nodes(*s1)[n] by {
                    assert(session_nodes(before).contains_key(n));
                }
            }
            removed_any = true;
        }
        i = i + 1;
    }
    proof {
        let mc = map_node(session_nodes(cur), w)->0;
        assert forall|k: Seq<char>| live_keys(mc).contains(k) implies set![keep@].contains(k) by {
            assert(key_values(mc, k) == key_values(m, k));
            assert(live_keys(m).contains(k));
            let j = choose|j: int| 0 <= j < keys@.len() && #[trigger] keys@[j]@ == k;
            if k != keep@ {
                assert(key_values(mc, keys@[j]@) == Set::<ValueView>::empty());
            }
        }
        if live_keys(m).subset_of(set![keep@]) && removed_any {
            let j = choose|j: int| 0 <= j < i && (#[trigger] keys@[j])@ != keep@;
            assert(ks[j] == keys@[j]@);
            assert(ks.to_set().contains(keys@[j]@));
        }
    }
    Ok((cur, w))
}

/// The position of `s` in `names`, if it is there.
fn position(names: &[&'static str], s: &String) -> (r: Option<usize>)
    ensures
        match r {
            Some(i) => named_at(names@, s@, i as int),
            None => !has_name(names@, s@),
        },
{
    let mut i: usize = 0;
    while i < names.len()
        invariant
            i <= names@.len(),
            forall|j: int| 0 <= j < i ==> (#[trigger] names@[j])@ != s@,
        decreases names@.len() - i,
    {
        let name = names[i].to_owned();
        if name == *s {
            return Some(i);
        }
        i = i + 1;
    }
    None
}

/// Read which variant `value` holds, given the names of the unit
/// variants and of the newtype and struct variants.  A string is a unit
/// variant's name; a map names the variant by its first key, whose value
/// is returned with it.
pub fn select_variant(
    doc: &automerge_cat::Document,
    value: &DocValue,
    unit_variants: &[&'static str],
    wrapped_variants: &[&'static str],
) -> (r: Result<Variant, Error>)
    ensures
        if value@ is Str && unit_variants@.len() > 0 {
            let s = value@->Str_0;
            if has_name(unit_variants@, s) {
                r matches Ok(Variant::Unit(i)) && named_at(unit_variants@, s, i as int)
            } else {
                r matches Err(Error::UnknownVariant { variant }) && variant@ == s
            }
        } else if value@ is MapRef && wrapped_variants@.len() > 0 {
            let id = value@->MapRef_0;
            match map_node(doc_nodes(*doc), id) {
                None => r matches Err(Error::Document(e)) && wrong_node(doc_nodes(*doc), id, "map"@, e),
                Some(m) => if live_keys(m).is_empty() {
                    r == Err::<Variant, Error>(
                        Error::TypeMismatch { expected: "non-empty map (enum variant)", found: "empty map" },
                    )
                } else {
                    exists|k: Seq<char>|
                        #[trigger] least_key(m, k) && wrapped_read(doc_nodes(*doc), id, k, wrapped_variants@, r)
                },
            }
        } else {
            r == Err::<Variant, Error>(
                Error::TypeMismatch { expected: "Str or Map (enum)", found: variant_name(value@) },
            )
        },
{
    match value {
        DocValue::Str(s) if unit_variants.len() > 0 => match position(unit_variants, s) {
            Some(i) => Ok(Variant::Unit(i)),
            None => Err(Error::UnknownVariant { variant: s.clone() }),
        },
        DocValue::MapRef(id) if wrapped_variants.len() > 0 => {
            let keys = match doc_keys(doc, *id) {
                Ok(keys) => keys,
                Err(e) => return Err(Error::Document(e)),
            };
            let ghost m = map_node(doc_nodes(*doc), *id)->0;
            if keys.len() == 0 {
                proof {
                    assert forall|k: Seq<char>| !live_keys(m).contains(k) by {}
                    assert(live_keys(m) =~= Set::empty());
                }
                return Err(
                    Error::TypeMismatch { expected: "non-empty map (enum variant)", found: "empty map" },
                );
            }
            let key = &keys[0];
            proof {
                assert(live_keys(m).contains(key@));
                assert(!live_keys(m).is_empty());
                assert forall|k2: Seq<char>| #[trigger] live_keys(m).contains(k2) && k2 != key@ implies chars_lt(
                    key@,
                    k2,
                ) by {
                    let j = choose|j: int| 0 <= j < keys@.len() && #[trigger] keys@[j]@ == k2;
                    assert(j != 0);
                    assert(chars_lt(keys@[0]@, keys@[j]@));
                }
                assert(least_key(m, key@));
            }
            let index = match position(wrapped_variants, key) {
                Some(index) => index,
                None => return Err(Error::UnknownVariant { variant: key.clone() }),
            };
            let inner = resolve_key(doc, *id, key.as_str())?;
            Ok(Variant::Wrapped { index, value: inner })
        },
        other => Err(Error::TypeMismatch { expected: "Str or Map (enum)", found: value_type_name(other) }),
    }
}

} // verus!
