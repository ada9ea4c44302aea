//! Project-wide error type.
use vstd::prelude::*;

use crate::document::{
    document_error_display, document_error_text, node_debug, node_text, DocumentError, NodeRef,
};

verus! {

/// Errors produced during hydration or reconciliation.
#[derive(Debug, PartialEq)]
pub enum Error {
    /// An error from the underlying document layer.
    Document(DocumentError),
    /// A map key has no observed values.
    MissingKey {
        /// The map node that was queried.
        node: NodeRef,
        /// The key that was not found.
        key: String,
    },
    /// A map key has multiple concurrent values (unresolved conflict).
    UnresolvedConcurrency {
        /// The map node containing the conflict.
        node: NodeRef,
        /// The key with multiple values.
        key: String,
    },
    /// Expected a specific value variant but found another.
    TypeMismatch {
        /// The expected variant name.
        expected: &'static str,
        /// The variant name that was found.
        found: &'static str,
    },
    /// An unknown enum variant name was encountered during hydration.
    UnknownVariant {
        /// The variant name that was not recognised.
        variant: String,
    },
    /// The session's clock is at its largest value, so it cannot
    /// stamp another operation.
    ClockExhausted,
}

/// `e` reports the key `key` of the node `node` as missing.
pub open spec fn is_missing_key(e: Error, node: NodeRef, key: Seq<char>) -> bool {
    e matches Error::MissingKey { node: n, key: k } && n == node && k@ == key
}

/// `e` reports concurrent values at the key `key` of the node `node`.
pub open spec fn is_conflict(e: Error, node: NodeRef, key: Seq<char>) -> bool {
    e matches Error::UnresolvedConcurrency { node: n, key: k } && n == node && k@ == key
}

/// The text of an error, as it is displayed.
pub open spec fn message_text(e: Error) -> Seq<char> {
    match e {
        Error::Document(d) => "document error: "@ + document_error_text(d),
        Error::MissingKey { node, key } => "missing key \""@ + key@ + "\" in node "@ + node_text(node),
        Error::UnresolvedConcurrency { node, key } => "unresolved concurrent values at \""@ + key@
            + "\" in node "@ + node_text(node),
        Error::TypeMismatch { expected, found } => "type mismatch: expected "@ + expected@ + ", found "@
            + found@,
        Error::UnknownVariant { variant } => "unknown enum variant: \""@ + variant@ + "\""@,
        Error::ClockExhausted => "session clock exhausted"@,
    }
}

impl Error {
    /// The text of this error, as it is displayed.
    pub fn message(&self) -> (r: String)
        ensures
            r@ == message_text(*self),
    {
        let mut text = String::new();
        match self {
            Error::Document(d) => {
                text.append("document error: ");
                let inner = document_error_display(d);
                text.append(inner.as_str());
            },
            Error::MissingKey { node, key } => {
                text.append("missing key \"");
                text.append(key.as_str());
                text.append("\" in node ");
                let n = node_debug(*node);
                text.append(n.as_str());
            },
            Error::UnresolvedConcurrency { node, key } => {
                text.append("unresolved concurrent values at \"");
                text.append(key.as_str());
                text.append("\" in node ");
                let n = node_debug(*node);
                text.append(n.as_str());
            },
            Error::TypeMismatch { expected, found } => {
                text.append("type mismatch: expected ");
                text.append(expected);
                text.append(", found ");
                text.append(found);
            },
            Error::UnknownVariant { variant } => {
                text.append("unknown enum variant: \"");
                text.append(variant.as_str());
                text.append("\"");
            },
            Error::ClockExhausted => {
                text.append("session clock exhausted");
            },
        }
        proof {
            assert(Seq::<char>::empty() + message_text(*self) =~= message_text(*self));
        }
        text
    }
}

} // verus!
