# autosurgeon_cat

Mapping between Rust types and `automerge_cat` CRDT documents, with its
logic verified by Verus.

`Hydrate` reads a Rust value from a document value; `Reconcile` writes a
Rust value into an editing session.  Reconciling skips a scalar write when
the key already holds exactly that scalar, so only real changes produce new
CRDT operations.

## Layout

- `src/document.rs`: the library's plain forms of document values, node
  identities and document errors; the model of a document (its container
  nodes) and of a session (nodes, clock, replica, tags); the trusted calls
  into `automerge_cat`, each with the contract that its source shows.
- `src/hydrate.rs`: the `Hydrate` and `HydrateRoot` traits, key resolution,
  and the impls for `bool`, `i64`, `u64`, `Float64`, `String`, `Option<T>`
  and `Vec<T>`.
- `src/reconcile.rs`: the `Reconcile` and `ReconcileRoot` traits,
  `ensure_map`, smart scalar writes, and the impls for the same types.
- `src/variant.rs`: reading back which enum variant a value holds, and
  writing one: a unit variant's name with the same skipping as scalars,
  and the wrapper map of a newtype or struct variant, cleared of every
  other variant's key.
- `src/error.rs`: the error type and the text it is displayed with.
- `src/laws.rs`: read-after-write, skipped unchanged writes (scalar and
  optional fields, nested structs, newtype and struct variants), independence
  of keys, list and variant round trips (a variant switch included),
  idempotent `ensure_map`.
- `app/`: the derive expansions (token generation with `syn` and `quote`,
  as functions on `proc_macro2` token streams), the error type with
  `Display` and `std::error::Error`, and `f64` fields through `Float64`.

## Document form

| Rust type | Document form |
|-----------|---------------|
| named struct `{ a, b }` | map node with keys `"a"`, `"b"` |
| newtype struct `Foo(T)` | the form of `T` |
| unit enum variant | the string of its name |
| newtype enum variant | map `{ name: <inner> }` |
| struct enum variant | map `{ name: { field: ... } }` |
| `Vec<T>` | a new list node |
| `Option<T>` | `None` is an absent key; `Some(v)` the form of `v` |
| `bool` / `i64` / `u64` / `Float64` / `String` | the matching scalar |
