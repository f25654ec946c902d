//! A schema-mapping compiler for a columnar store: given a domain type
//! definition (a record or a tagged union), it derives a bidirectional,
//! null-tolerant storage representation — the shadow schema — together with
//! the cell and row codecs that persist and retrieve instances, so that
//! application code never hand-writes column mapping or encode/decode logic
//! per persisted type.
//!
//! The pipeline: `schema` classifies a definition and detects the two bypass
//! special cases (single-positional-field records, fieldless-variants-only
//! unions); `shadow` synthesizes the nullable storage record; `mapper` holds
//! the total forward (domain to shadow) and partial reverse (shadow to
//! domain) mappings; `codec` binds cell-level and row-level encode/decode
//! entry points and the static query descriptors; `laws` states and proves
//! the library's round-trip and error-taxonomy properties. `keyspace` and
//! `statements` carry the pure parts of the surrounding session layer:
//! keyspace naming, migration-script splitting and version bookkeeping.

pub mod codec;
pub mod errors;
pub mod keyspace;
pub mod laws;
pub mod mapper;
pub mod schema;
pub mod shadow;
pub mod statements;
pub mod text;
pub mod value;
