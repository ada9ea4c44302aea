//! The document layer: the library's plain view of `automerge_cat`
//! values, node identities and errors, the abstract model of a
//! document and of an editing session, and the trusted calls into
//! `automerge_cat` that read and edit them.
use vstd::prelude::*;

use automerge_cat::Error as OutsideError;

verus! {

// ---------------------------------------------------------------------------
// Outside types, carried through opaquely
// ---------------------------------------------------------------------------

/// A CRDT document of `automerge_cat`.
#[verifier::external_type_specification]
#[verifier::external_body]
pub struct ExDocument(automerge_cat::Document);

/// A local editing session of `automerge_cat` (document, log, replica, clock).
#[verifier::external_type_specification]
#[verifier::external_body]
pub struct ExSession(automerge_cat::Session);

/// A total-ordered 64-bit float of `automerge_cat`.
#[verifier::external_type_specification]
#[verifier::external_body]
pub struct ExFloat64(automerge_cat::Float64);

/// A node identity of `automerge_cat`.
#[verifier::external_type_specification]
#[verifier::external_body]
pub struct ExOutsideNodeId(automerge_cat::NodeId);

/// A value of `automerge_cat`.
#[verifier::external_type_specification]
#[verifier::external_body]
pub struct ExOutsideValue(automerge_cat::Value);

/// An error of `automerge_cat`.
#[verifier::external_type_specification]
#[verifier::external_body]
pub struct ExOutsideError(OutsideError);

/// A list insertion position of `automerge_cat`.
#[verifier::external_type_specification]
#[verifier::external_body]
pub struct ExOutsideOrigin(automerge_cat::Origin);

// ---------------------------------------------------------------------------
// Plain values
// ---------------------------------------------------------------------------

/// Identity of a container node: the root map, or a container created
/// by the operation with the tag `(replica, timestamp)`.
#[derive(Clone, Copy, PartialEq, Eq, Structural, Debug)]
pub enum NodeRef {
    Root,
    Created { replica: u64, timestamp: u64 },
}

/// A scalar document value, or a reference to a container node.
#[derive(Debug, PartialEq)]
pub enum DocValue {
    Null,
    Bool(bool),
    Int(i64),
    Uint(u64),
    Float(automerge_cat::Float64),
    Str(String),
    MapRef(NodeRef),
    ListRef(NodeRef),
    TextRef(NodeRef),
}

/// The mathematical form of a [`DocValue`]: strings are sequences of characters.
pub enum ValueView {
    Null,
    Bool(bool),
    Int(i64),
    Uint(u64),
    Float(automerge_cat::Float64),
    Str(Seq<char>),
    MapRef(NodeRef),
    ListRef(NodeRef),
    TextRef(NodeRef),
}

impl View for DocValue {
    type V = ValueView;

    open spec fn view(&self) -> ValueView {
        match self {
            DocValue::Null => ValueView::Null,
            DocValue::Bool(b) => ValueView::Bool(*b),
            DocValue::Int(n) => ValueView::Int(*n),
            DocValue::Uint(n) => ValueView::Uint(*n),
            DocValue::Float(f) => ValueView::Float(*f),
            DocValue::Str(s) => ValueView::Str(s@),
            DocValue::MapRef(id) => ValueView::MapRef(*id),
            DocValue::ListRef(id) => ValueView::ListRef(*id),
            DocValue::TextRef(id) => ValueView::TextRef(*id),
        }
    }
}

impl Clone for DocValue {
    fn clone(&self) -> (r: DocValue)
        ensures
            r == *self,
    {
        match self {
            DocValue::Null => DocValue::Null,
            DocValue::Bool(b) => DocValue::Bool(*b),
            DocValue::Int(n) => DocValue::Int(*n),
            DocValue::Uint(n) => DocValue::Uint(*n),
            DocValue::Float(f) => DocValue::Float(*f),
            DocValue::Str(s) => DocValue::Str(s.clone()),
            DocValue::MapRef(id) => DocValue::MapRef(*id),
            DocValue::ListRef(id) => DocValue::ListRef(*id),
            DocValue::TextRef(id) => DocValue::TextRef(*id),
        }
    }
}

/// Where a list element is inserted: at the head, or right after the
/// element with the tag `(replica, timestamp)`.
#[derive(Clone, Copy, PartialEq, Eq, Structural, Debug)]
pub enum Position {
    Head,
    After { replica: u64, timestamp: u64 },
}

/// An error reported by the document layer.
#[derive(Debug, PartialEq)]
pub enum DocumentError {
    /// The target node does not exist in the document.
    NodeNotFound { node: NodeRef },
    /// A map operation was attempted on a list node, or the reverse.
    WrongNodeType { node: NodeRef, expected: &'static str },
    /// A container with this identity already exists.
    NodeAlreadyExists { node: NodeRef },
    /// An operation with the tag `(replica, timestamp)` is already logged.
    DuplicateOp { replica: u64, timestamp: u64 },
    /// A character index is out of bounds.
    IndexOutOfBounds { index: usize, len: usize },
}

// ---------------------------------------------------------------------------
// The model of a document and of a session
// ---------------------------------------------------------------------------

/// The observable contents of a container node.  A map node maps each
/// key to the set of its currently observed values (a key that is
/// absent has no observed value); a list node holds its visible
/// elements, in order, each with the tag of the operation that
/// inserted it.
pub enum NodeModel {
    Keyed(Map<Seq<char>, Set<ValueView>>),
    Listed(Seq<((u64, u64), ValueView)>),
}

/// The container nodes of a document, by identity.
pub uninterp spec fn doc_nodes(doc: automerge_cat::Document) -> Map<NodeRef, NodeModel>;

/// The container nodes of the session's current document.
pub uninterp spec fn session_nodes(s: automerge_cat::Session) -> Map<NodeRef, NodeModel>;

/// The session's logical clock: the timestamp its next operation gets.
pub uninterp spec fn session_clock(s: automerge_cat::Session) -> u64;

/// The replica that the session edits for.
pub uninterp spec fn session_replica(s: automerge_cat::Session) -> u64;

/// The operation tags `(replica, timestamp)` that the session records: in
/// its document, those of map register entries and tombstones, of list
/// elements, their tombstones and origins, and of created nodes; in its
/// log, those of the logged operations.
pub uninterp spec fn session_tags(s: automerge_cat::Session) -> Set<(u64, u64)>;

/// The tag that the session's next operation gets.
pub open spec fn next_tag(s: automerge_cat::Session) -> (u64, u64) {
    (session_replica(s), session_clock(s))
}

/// No tag of the session's own replica is at or beyond its clock, so the
/// tags of its coming operations are new.
pub open spec fn session_fresh(s: automerge_cat::Session) -> bool {
    forall|t: (u64, u64)|
        #[trigger] session_tags(s).contains(t) && t.0 == session_replica(s) ==> t.1 < session_clock(s)
}

/// The observed values of `key` in a map node's contents.
pub open spec fn key_values(m: Map<Seq<char>, Set<ValueView>>, key: Seq<char>) -> Set<ValueView> {
    if m.contains_key(key) {
        m[key]
    } else {
        Set::empty()
    }
}

/// The keys of a map node that hold at least one observed value.
pub open spec fn live_keys(m: Map<Seq<char>, Set<ValueView>>) -> Set<Seq<char>> {
    Set::new(|k: Seq<char>| key_values(m, k).len() > 0)
}

/// `e` is what the document reports when `node` is asked for as a
/// container of the kind `kind` but is not one.
pub open spec fn wrong_node(nodes: Map<NodeRef, NodeModel>, node: NodeRef, kind: Seq<char>, e: DocumentError) -> bool {
    if !nodes.contains_key(node) {
        e == DocumentError::NodeNotFound { node }
    } else {
        e matches DocumentError::WrongNodeType { node: n, expected } && n == node && expected@ == kind
    }
}

/// The map contents of `node`, if it is a map node.
pub open spec fn map_node(nodes: Map<NodeRef, NodeModel>, node: NodeRef) -> Option<Map<Seq<char>, Set<ValueView>>> {
    if nodes.contains_key(node) {
        match nodes[node] {
            NodeModel::Keyed(m) => Some(m),
            NodeModel::Listed(_) => None,
        }
    } else {
        None
    }
}

/// The elements of `node`, if it is a list node.
pub open spec fn list_node(nodes: Map<NodeRef, NodeModel>, node: NodeRef) -> Option<Seq<((u64, u64), ValueView)>> {
    if nodes.contains_key(node) {
        match nodes[node] {
            NodeModel::Listed(es) => Some(es),
            NodeModel::Keyed(_) => None,
        }
    } else {
        None
    }
}

/// The views of a sequence of values.
pub open spec fn views(vs: Seq<DocValue>) -> Seq<ValueView> {
    vs.map_values(|v: DocValue| v@)
}

/// The values of a list node's elements, in order.
pub open spec fn element_values(es: Seq<((u64, u64), ValueView)>) -> Seq<ValueView> {
    es.map_values(|e: ((u64, u64), ValueView)| e.1)
}

/// Strict lexicographic order on character sequences (by code point),
/// which is the order of `str`.
pub open spec fn chars_lt(a: Seq<char>, b: Seq<char>) -> bool
    decreases a.len(),
{
    if a.len() == 0 {
        b.len() > 0
    } else if b.len() == 0 {
        false
    } else if (a[0] as u32) < (b[0] as u32) {
        true
    } else if a[0] == b[0] {
        chars_lt(a.drop_first(), b.drop_first())
    } else {
        false
    }
}

/// The order of node identities: the root first, then created nodes
/// by replica, then by timestamp.
pub open spec fn node_lt(a: NodeRef, b: NodeRef) -> bool {
    match (a, b) {
        (NodeRef::Root, NodeRef::Created { .. }) => true,
        (NodeRef::Created { replica: r1, timestamp: t1 }, NodeRef::Created { replica: r2, timestamp: t2 }) =>
            r1 < r2 || (r1 == r2 && t1 < t2),
        _ => false,
    }
}

/// `nodes2` is `nodes` with only the key `key` of the map node `node`
/// changed, to hold the observed values `vals`.
pub open spec fn key_written(
    nodes: Map<NodeRef, NodeModel>,
    nodes2: Map<NodeRef, NodeModel>,
    node: NodeRef,
    key: Seq<char>,
    vals: Set<ValueView>,
) -> bool {
    &&& nodes2.dom() == nodes.dom()
    &&& forall|n: NodeRef| #[trigger] nodes.contains_key(n) && n != node ==> nodes2[n] == nodes[n]
    &&& map_node(nodes, node) is Some
    &&& map_node(nodes2, node) is Some
    &&& key_values(map_node(nodes2, node)->0, key) == vals
    &&& forall|k: Seq<char>|
        k != key ==> #[trigger] key_values(map_node(nodes2, node)->0, k) == key_values(
            map_node(nodes, node)->0,
            k,
        )
}

/// `s2` follows `s` by exactly one operation of `s`'s replica.
pub open spec fn one_step(s: automerge_cat::Session, s2: automerge_cat::Session) -> bool {
    &&& session_clock(s) < u64::MAX
    &&& session_clock(s2) == session_clock(s) + 1
    &&& session_replica(s2) == session_replica(s)
    &&& session_tags(s2) == session_tags(s).insert(next_tag(s))
}

/// The tag that a list position names, if any.
pub open spec fn position_tags(p: Position) -> Set<(u64, u64)> {
    match p {
        Position::Head => Set::empty(),
        Position::After { replica, timestamp } => set![(replica, timestamp)],
    }
}

/// `p` is the head, or names a tag of `s`'s own replica from before its clock.
pub open spec fn earlier_position(s: automerge_cat::Session, p: Position) -> bool {
    match p {
        Position::Head => true,
        Position::After { replica, timestamp } => replica == session_replica(s) && timestamp < session_clock(s),
    }
}

/// `s2` follows `s` by one list insertion after `p`.
pub open spec fn insert_step(s: automerge_cat::Session, s2: automerge_cat::Session, p: Position) -> bool {
    &&& session_clock(s) < u64::MAX
    &&& session_clock(s2) == session_clock(s) + 1
    &&& session_replica(s2) == session_replica(s)
    &&& session_tags(s).insert(next_tag(s)).subset_of(session_tags(s2))
    &&& session_tags(s2).subset_of(session_tags(s).insert(next_tag(s)).union(position_tags(p)))
}

/// `s2` is a later state of `s`: the same replica, a clock not behind,
/// and, if the old session's coming tags were new, so are the new one's.
pub open spec fn session_later(s: automerge_cat::Session, s2: automerge_cat::Session) -> bool {
    &&& session_replica(s2) == session_replica(s)
    &&& session_clock(s) <= session_clock(s2)
    &&& (session_fresh(s) ==> session_fresh(s2))
}

/// `s2` is a later state of `s` in which every node of `s` is unchanged.
pub open spec fn session_grown(s: automerge_cat::Session, s2: automerge_cat::Session) -> bool {
    &&& session_later(s, s2)
    &&& forall|n: NodeRef| #[trigger]
        session_nodes(s).contains_key(n) ==> session_nodes(s2).contains_key(n) && session_nodes(
            s2,
        )[n] == session_nodes(s)[n]
}

/// Two sessions that agree on everything the model sees.
pub open spec fn same_session(s: automerge_cat::Session, s2: automerge_cat::Session) -> bool {
    &&& session_nodes(s2) == session_nodes(s)
    &&& session_clock(s2) == session_clock(s)
    &&& session_replica(s2) == session_replica(s)
    &&& session_tags(s2) == session_tags(s)
}

/// A session that agrees with another in every part is a later, grown state of it.
pub(crate) proof fn lemma_same_session_later(s: automerge_cat::Session, s2: automerge_cat::Session)
    requires
        same_session(s, s2),
    ensures
        session_later(s, s2),
        session_grown(s, s2),
{
}

/// A fresh session's next tag is new.
pub(crate) proof fn lemma_fresh_next(s: automerge_cat::Session)
    ensures
        session_fresh(s) ==> !session_tags(s).contains(next_tag(s)),
{
    if session_fresh(s) && session_tags(s).contains(next_tag(s)) {
        assert(next_tag(s).1 < session_clock(s));
    }
}

/// One operation gives a later state.
pub(crate) proof fn lemma_one_step_later(s: automerge_cat::Session, s2: automerge_cat::Session)
    requires
        one_step(s, s2),
    ensures
        session_later(s, s2),
        session_fresh(s) ==> !session_tags(s).contains(next_tag(s)),
{
    if session_fresh(s) {
        assert forall|t: (u64, u64)|
            #[trigger] session_tags(s2).contains(t) && t.0 == session_replica(s2) implies t.1
            < session_clock(s2) by {
            if t != next_tag(s) {
                assert(session_tags(s).contains(t));
            }
        }
        if session_tags(s).contains(next_tag(s)) {
            assert(next_tag(s).1 < session_clock(s));
        }
    }
}

/// A list insertion after the head, or after an earlier tag of the same
/// replica, gives a later state.
pub(crate) proof fn lemma_insert_later(s: automerge_cat::Session, s2: automerge_cat::Session, p: Position)
    requires
        insert_step(s, s2, p),
        earlier_position(s, p),
    ensures
        session_later(s, s2),
{
    if session_fresh(s) {
        assert forall|t: (u64, u64)|
            #[trigger] session_tags(s2).contains(t) && t.0 == session_replica(s2) implies t.1
            < session_clock(s2) by {
            if t != next_tag(s) && !position_tags(p).contains(t) {
                assert(session_tags(s).contains(t));
            }
        }
    }
}

/// Later states compose.
pub(crate) proof fn lemma_later_trans(s1: automerge_cat::Session, s2: automerge_cat::Session, s3: automerge_cat::Session)
    requires
        session_later(s1, s2),
        session_later(s2, s3),
    ensures
        session_later(s1, s3),
{
}

/// Grown states compose.
pub(crate) proof fn lemma_grown_trans(s1: automerge_cat::Session, s2: automerge_cat::Session, s3: automerge_cat::Session)
    requires
        session_grown(s1, s2),
        session_grown(s2, s3),
    ensures
        session_grown(s1, s3),
{
    assert forall|n: NodeRef| #[trigger] session_nodes(s1).contains_key(n) implies session_nodes(
        s3,
    ).contains_key(n) && session_nodes(s3)[n] == session_nodes(s1)[n] by {
        assert(session_nodes(s2).contains_key(n));
    }
}

// ---------------------------------------------------------------------------
// Conversions between the plain values and those of `automerge_cat`, used
// only inside the trusted calls below; each converts one for one and has no
// contract of its own
// ---------------------------------------------------------------------------

/// A node identity in `automerge_cat`'s form, field for field.
#[verifier::external_body]
fn node_out(n: NodeRef) -> automerge_cat::NodeId {
    match n {
        NodeRef::Root => automerge_cat::NodeId::Root,
        NodeRef::Created { replica, timestamp } => automerge_cat::NodeId::Created(
            automerge_cat::Tag::new(automerge_cat::ReplicaId::new(replica), automerge_cat::Timestamp::new(timestamp)),
        ),
    }
}

/// A node identity of `automerge_cat` in the library's form, field for field.
#[verifier::external_body]
fn node_in(n: automerge_cat::NodeId) -> NodeRef {
    match n {
        automerge_cat::NodeId::Root => NodeRef::Root,
        automerge_cat::NodeId::Created(tag) => NodeRef::Created {
            replica: tag.replica().value(),
            timestamp: tag.timestamp().value(),
        },
    }
}

/// A value in `automerge_cat`'s form, variant for variant.
#[verifier::external_body]
fn value_out(v: &DocValue) -> automerge_cat::Value {
    match v {
        DocValue::Null => automerge_cat::Value::Null,
        DocValue::Bool(b) => automerge_cat::Value::Bool(*b),
        DocValue::Int(n) => automerge_cat::Value::Int(*n),
        DocValue::Uint(n) => automerge_cat::Value::Uint(*n),
        DocValue::Float(f) => automerge_cat::Value::Float(*f),
        DocValue::Str(s) => automerge_cat::Value::Str(s.clone()),
        DocValue::MapRef(id) => automerge_cat::Value::Map(node_out(*id)),
        DocValue::ListRef(id) => automerge_cat::Value::List(node_out(*id)),
        DocValue::TextRef(id) => automerge_cat::Value::Text(node_out(*id)),
    }
}

/// A value of `automerge_cat` in the library's form, variant for variant.
#[verifier::external_body]
fn value_in(v: &automerge_cat::Value) -> DocValue {
    match v {
        automerge_cat::Value::Null => DocValue::Null,
        automerge_cat::Value::Bool(b) => DocValue::Bool(*b),
        automerge_cat::Value::Int(n) => DocValue::Int(*n),
        automerge_cat::Value::Uint(n) => DocValue::Uint(*n),
        automerge_cat::Value::Float(f) => DocValue::Float(*f),
        automerge_cat::Value::Str(s) => DocValue::Str(s.clone()),
        automerge_cat::Value::Map(id) => DocValue::MapRef(node_in(*id)),
        automerge_cat::Value::List(id) => DocValue::ListRef(node_in(*id)),
        automerge_cat::Value::Text(id) => DocValue::TextRef(node_in(*id)),
    }
}

/// An error of `automerge_cat` in the library's form, variant for variant.
#[verifier::external_body]
fn error_in(e: OutsideError) -> DocumentError {
    match e {
        OutsideError::NodeNotFound { node } => DocumentError::NodeNotFound { node: node_in(node) },
        OutsideError::WrongNodeType { node, expected } => DocumentError::WrongNodeType {
            node: node_in(node),
            expected,
        },
        OutsideError::NodeAlreadyExists { node } => DocumentError::NodeAlreadyExists {
            node: node_in(node),
        },
        OutsideError::DuplicateOp { tag } => DocumentError::DuplicateOp {
            replica: tag.replica().value(),
            timestamp: tag.timestamp().value(),
        },
        OutsideError::IndexOutOfBounds { index, len } => DocumentError::IndexOutOfBounds { index, len },
    }
}

/// An error of the library's form as `automerge_cat`'s, variant for variant.
#[verifier::external_body]
fn error_out(e: &DocumentError) -> OutsideError {
    match e {
        DocumentError::NodeNotFound { node } => OutsideError::NodeNotFound { node: node_out(*node) },
        DocumentError::WrongNodeType { node, expected } => OutsideError::WrongNodeType {
            node: node_out(*node),
            expected,
        },
        DocumentError::NodeAlreadyExists { node } => OutsideError::NodeAlreadyExists {
            node: node_out(*node),
        },
        DocumentError::DuplicateOp { replica, timestamp } => OutsideError::DuplicateOp {
            tag: automerge_cat::Tag::new(automerge_cat::ReplicaId::new(*replica), automerge_cat::Timestamp::new(*timestamp)),
        },
        DocumentError::IndexOutOfBounds { index, len } => OutsideError::IndexOutOfBounds { index: *index, len: *len },
    }
}

/// A list position in `automerge_cat`'s form.
#[verifier::external_body]
fn origin_out(o: Position) -> automerge_cat::Origin {
    match o {
        Position::Head => automerge_cat::Origin::Head,
        Position::After { replica, timestamp } => automerge_cat::Origin::After(
            automerge_cat::Tag::new(automerge_cat::ReplicaId::new(replica), automerge_cat::Timestamp::new(timestamp)),
        ),
    }
}

// ---------------------------------------------------------------------------
// Trusted calls into `automerge_cat`
// ---------------------------------------------------------------------------

/// `Session::document`: the session's current document, whose nodes are
/// the session's nodes.
#[verifier::external_body]
pub(crate) fn session_document(s: &automerge_cat::Session) -> (d: &automerge_cat::Document)
    ensures
        doc_nodes(*d) == session_nodes(*s),
{
    s.document()
}

/// `Session::clock_value`: the session's clock.
#[verifier::external_body]
pub(crate) fn session_clock_value(s: &automerge_cat::Session) -> (c: u64)
    ensures
        c == session_clock(*s),
{
    s.clock_value()
}

/// `Session::replica`, as its number: the session's replica.
#[verifier::external_body]
pub(crate) fn session_replica_value(s: &automerge_cat::Session) -> (r: u64)
    ensures
        r == session_replica(*s),
{
    s.replica().value()
}

/// `Session::clone` (derived): a copy that agrees with the original in
/// every part.
#[verifier::external_body]
pub(crate) fn session_copy(s: &automerge_cat::Session) -> (r: automerge_cat::Session)
    ensures
        same_session(*s, r),
{
    s.clone()
}

/// `Float64`'s `==`: equal exactly when the two floats are the same
/// value (it compares by IEEE total order, which tells every bit
/// pattern apart).
#[verifier::external_body]
pub(crate) fn float64_eq(a: &automerge_cat::Float64, b: &automerge_cat::Float64) -> (r: bool)
    ensures
        r == (*a == *b),
{
    a == b
}

/// `Document::get_key`: the observed values of a key of a map node, each
/// once, Map references in ascending node order; an error when the node
/// is missing or is not a map.
#[verifier::external_body]
pub(crate) fn doc_get_key(d: &automerge_cat::Document, node: NodeRef, key: &str) -> (r: Result<Vec<DocValue>, DocumentError>)
    ensures
        match map_node(doc_nodes(*d), node) {
            Some(m) => r matches Ok(vs) && views(vs@).no_duplicates() && views(vs@).to_set()
                == key_values(m, key@) && (forall|i: int, j: int|
                0 <= i < j < vs@.len() && vs@[i] is MapRef && vs@[j] is MapRef ==> node_lt(
                    vs@[i]->MapRef_0,
                    vs@[j]->MapRef_0,
                )),
            None => r matches Err(e) && wrong_node(doc_nodes(*d), node, "map"@, e),
        },
{
    d.get_key(node_out(node), key).map(|set| set.into_iter().map(value_in).collect()).map_err(error_in)
}

/// `Document::keys`: the keys of a map node that hold a value, each
/// once, in ascending order; an error when the node is missing or is not
/// a map.
#[verifier::external_body]
pub(crate) fn doc_keys(d: &automerge_cat::Document, node: NodeRef) -> (r: Result<Vec<String>, DocumentError>)
    ensures
        match map_node(doc_nodes(*d), node) {
            Some(m) => r matches Ok(ks) && (forall|i: int, j: int|
                0 <= i < j < ks@.len() ==> chars_lt(#[trigger] ks@[i]@, #[trigger] ks@[j]@)) && (
            forall|k: Seq<char>| live_keys(m).contains(k) <==> exists|i: int|
                0 <= i < ks@.len() && #[trigger] ks@[i]@ == k),
            None => r matches Err(e) && wrong_node(doc_nodes(*d), node, "map"@, e),
        },
{
    d.keys(node_out(node)).map(|set| set.into_iter().map(|k| k.to_string()).collect()).map_err(error_in)
}

/// `Document::list_elements`: the values of a list node's visible
/// elements, in order; an error when the node is missing or is not a
/// list.
#[verifier::external_body]
pub(crate) fn doc_list_elements(d: &automerge_cat::Document, node: NodeRef) -> (r: Result<Vec<DocValue>, DocumentError>)
    ensures
        match list_node(doc_nodes(*d), node) {
            Some(es) => r matches Ok(vs) && views(vs@) == element_values(es),
            None => r matches Err(e) && wrong_node(doc_nodes(*d), node, "list"@, e),
        },
{
    d.list_elements(node_out(node)).map(|vs| vs.into_iter().map(value_in).collect()).map_err(error_in)
}

/// `Session::set_key`: writes `value` at `key` of the map node `node` as
/// one operation with the session's next tag.  With a new tag the key
/// then holds exactly `value`; otherwise the write may be refused as a
/// duplicate operation, or leave the key's values as they were.
#[verifier::external_body]
pub(crate) fn session_set_key(s: &automerge_cat::Session, node: NodeRef, key: &str, value: &DocValue) -> (r: Result<
    automerge_cat::Session,
    DocumentError,
>)
    requires
        session_clock(*s) < u64::MAX,
    ensures
        match map_node(session_nodes(*s), node) {
            None => r matches Err(e) && wrong_node(session_nodes(*s), node, "map"@, e),
            Some(m) => {
                &&& !session_tags(*s).contains(next_tag(*s)) ==> r is Ok
                &&& r matches Err(e) ==> session_tags(*s).contains(next_tag(*s)) && e
                    == DocumentError::DuplicateOp { replica: next_tag(*s).0, timestamp: next_tag(*s).1 }
                &&& r matches Ok(s2) ==> {
                    &&& one_step(*s, s2)
                    &&& map_node(session_nodes(s2), node) is Some
                    &&& key_written(
                        session_nodes(*s),
                        session_nodes(s2),
                        node,
                        key@,
                        key_values(map_node(session_nodes(s2), node)->0, key@),
                    )
                    &&& !session_tags(*s).contains(next_tag(*s)) ==> key_values(
                        map_node(session_nodes(s2), node)->0,
                        key@,
                    ) == set![value@]
                }
            },
        },
{
    s.set_key(node_out(node), key, &value_out(value)).map_err(error_in)
}

/// `Session::delete_key`: removes every observed value of `key` of the
/// map node `node`, as one operation with the session's next tag.
#[verifier::external_body]
pub(crate) fn session_delete_key(s: &automerge_cat::Session, node: NodeRef, key: &str) -> (r: Result<
    automerge_cat::Session,
    DocumentError,
>)
    requires
        session_clock(*s) < u64::MAX,
    ensures
        match map_node(session_nodes(*s), node) {
            None => r matches Err(e) && wrong_node(session_nodes(*s), node, "map"@, e),
            Some(m) => {
                &&& !session_tags(*s).contains(next_tag(*s)) ==> r is Ok
                &&& r matches Err(e) ==> session_tags(*s).contains(next_tag(*s)) && e
                    == DocumentError::DuplicateOp { replica: next_tag(*s).0, timestamp: next_tag(*s).1 }
                &&& r matches Ok(s2) ==> one_step(*s, s2) && key_written(
                    session_nodes(*s),
                    session_nodes(s2),
                    node,
                    key@,
                    Set::empty(),
                )
            },
        },
{
    s.delete_key(node_out(node), key).map_err(error_in)
}

/// `Session::create_map`: a new empty map node, identified by the
/// session's next tag, as one operation.
#[verifier::external_body]
pub(crate) fn session_create_map(s: &automerge_cat::Session) -> (r: Result<(automerge_cat::Session, NodeRef), DocumentError>)
    requires
        session_clock(*s) < u64::MAX,
    ensures
        !session_tags(*s).contains(next_tag(*s)) ==> r is Ok,
        r matches Err(e) ==> session_tags(*s).contains(next_tag(*s)),
        r matches Ok((s2, n)) ==> {
            &&& n == (NodeRef::Created { replica: next_tag(*s).0, timestamp: next_tag(*s).1 })
            &&& one_step(*s, s2)
            &&& !session_nodes(*s).contains_key(n)
            &&& session_nodes(s2) == session_nodes(*s).insert(n, NodeModel::Keyed(Map::empty()))
        },
{
    s.create_map().map(|(s2, n)| (s2, node_in(n))).map_err(error_in)
}

/// `Session::create_list`: a new empty list node, identified by the
/// session's next tag, as one operation.
#[verifier::external_body]
pub(crate) fn session_create_list(s: &automerge_cat::Session) -> (r: Result<(automerge_cat::Session, NodeRef), DocumentError>)
    requires
        session_clock(*s) < u64::MAX,
    ensures
        !session_tags(*s).contains(next_tag(*s)) ==> r is Ok,
        r matches Err(e) ==> session_tags(*s).contains(next_tag(*s)),
        r matches Ok((s2, n)) ==> {
            &&& n == (NodeRef::Created { replica: next_tag(*s).0, timestamp: next_tag(*s).1 })
            &&& one_step(*s, s2)
            &&& !session_nodes(*s).contains_key(n)
            &&& session_nodes(s2) == session_nodes(*s).insert(n, NodeModel::Listed(Seq::empty()))
        },
{
    s.create_list().map(|(s2, n)| (s2, node_in(n))).map_err(error_in)
}

/// `Session::list_insert`: inserts `value` into the list node `node`
/// after `origin`, as one operation with the session's next tag.  With a
/// new tag, inserting at the head of a list without visible elements, or
/// right after its last visible element, appends the value.
#[verifier::external_body]
pub(crate) fn session_list_insert(s: &automerge_cat::Session, node: NodeRef, origin: Position, value: DocValue) -> (r: Result<
    automerge_cat::Session,
    DocumentError,
>)
    requires
        session_clock(*s) < u64::MAX,
    ensures
        match list_node(session_nodes(*s), node) {
            None => r matches Err(e) && wrong_node(session_nodes(*s), node, "list"@, e),
            Some(es) => {
                &&& !session_tags(*s).contains(next_tag(*s)) ==> r is Ok
                &&& r matches Err(e) ==> session_tags(*s).contains(next_tag(*s)) && e
                    == DocumentError::DuplicateOp { replica: next_tag(*s).0, timestamp: next_tag(*s).1 }
                &&& r matches Ok(s2) ==> {
                    &&& insert_step(*s, s2, origin)
                    &&& session_nodes(s2).dom() == session_nodes(*s).dom()
                    &&& forall|n: NodeRef| #[trigger]
                        session_nodes(*s).contains_key(n) && n != node ==> session_nodes(s2)[n]
                            == session_nodes(*s)[n]
                    &&& list_node(session_nodes(s2), node) is Some
                    &&& (!session_tags(*s).contains(next_tag(*s)) && ((origin == Position::Head
                        && es.len() == 0) || (es.len() > 0 && origin == (Position::After {
                        replica: es.last().0.0,
                        timestamp: es.last().0.1,
                    })))) ==> list_node(session_nodes(s2), node)->0 == es.push(
                        (next_tag(*s), value@),
                    )
                }
            },
        },
{
    s.list_insert(node_out(node), origin_out(origin), value_out(&value)).map_err(error_in)
}

// ---------------------------------------------------------------------------
// Text forms that `automerge_cat` writes
// ---------------------------------------------------------------------------

/// The text that `automerge_cat`'s `Display` writes for its error `e`.
pub uninterp spec fn document_error_text(e: DocumentError) -> Seq<char>;

/// The text that `automerge_cat`'s derived `Debug` writes for the node
/// identity `n`.
pub uninterp spec fn node_text(n: NodeRef) -> Seq<char>;

/// `Display` of `automerge_cat::Error`: the error's text.
#[verifier::external_body]
pub(crate) fn document_error_display(e: &DocumentError) -> (r: String)
    ensures
        r@ == document_error_text(*e),
{
    format!("{}", error_out(e))
}

/// `Debug` of `automerge_cat::NodeId`: the node identity's text.
#[verifier::external_body]
pub(crate) fn node_debug(n: NodeRef) -> (r: String)
    ensures
        r@ == node_text(n),
{
    format!("{:?}", node_out(n))
}

} // verus!
