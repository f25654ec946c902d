use vstd::prelude::*;

verus! {

// ---------------------------------------------------------------------------
// Mapping errors (reverse mapping / decoding).
// ---------------------------------------------------------------------------

/// A failure of the reverse (shadow -> domain) mapping.
#[derive(Debug)]
pub enum MappingError {
    /// A required (Wrap-policy) slot was absent; carries the slot identifier.
    MissingValue(String),
    /// The discriminator text matched no known variant tag; carries the raw text.
    InvalidVariant(String),
}

/// Mathematical model of a `MappingError`.
pub enum MappingErrModel {
    MissingValue(Seq<char>),
    InvalidVariant(Seq<char>),
}

impl View for MappingError {
    type V = MappingErrModel;

    open spec fn view(&self) -> MappingErrModel {
        match self {
            MappingError::MissingValue(s) => MappingErrModel::MissingValue(s@),
            MappingError::InvalidVariant(s) => MappingErrModel::InvalidVariant(s@),
        }
    }
}

/// The wire-declared type is incompatible with the expected shape; the
/// decode was not attempted.
#[derive(PartialEq, Eq, Structural, Clone, Copy, Debug)]
pub struct TypeCheckError;

/// A build-time diagnostic: the domain type's shape cannot be mapped.
#[derive(PartialEq, Eq, Structural, Clone, Copy, Debug)]
pub enum ShapeError {
    UnsupportedShape,
}

// ---------------------------------------------------------------------------
// Decode errors of the generated codecs.
// ---------------------------------------------------------------------------

/// A failure while decoding a cell or a row.
#[derive(Debug)]
pub enum DecodeError {
    /// The wire-declared type does not match the expected shape; decode was
    /// not attempted.
    TypeCheck,
    /// The reverse mapping failed.
    Mapping(MappingError),
    /// Text-to-value parsing failed (enumeration decode); carries the raw text.
    Parse(String),
    /// A non-optional cell was absent on the wire.
    UnexpectedNull,
    /// A wire value did not conform to its declared type.
    WireShape,
}

/// Mathematical model of a `DecodeError`.
pub enum DecodeErrModel {
    TypeCheck,
    Mapping(MappingErrModel),
    Parse(Seq<char>),
    UnexpectedNull,
    WireShape,
}

impl View for DecodeError {
    type V = DecodeErrModel;

    open spec fn view(&self) -> DecodeErrModel {
        match self {
            DecodeError::TypeCheck => DecodeErrModel::TypeCheck,
            DecodeError::Mapping(e) => DecodeErrModel::Mapping(e@),
            DecodeError::Parse(s) => DecodeErrModel::Parse(s@),
            DecodeError::UnexpectedNull => DecodeErrModel::UnexpectedNull,
            DecodeError::WireShape => DecodeErrModel::WireShape,
        }
    }
}

// ---------------------------------------------------------------------------
// Session-layer error taxonomy. The storage driver lives outside this
// library; its failures arrive here as rendered text.
// ---------------------------------------------------------------------------

/// A statement failed to prepare.
#[derive(Debug)]
pub struct PrepareError {
    pub query: String,
    pub error: String,
}

/// Connecting to the store or selecting the working keyspace failed.
#[derive(Debug)]
pub enum LoadError {
    Load(String),
    KeyspaceSetup(String),
}

/// Setting up the application structure failed.
#[derive(Debug)]
pub enum SetupError {
    Execution(String),
    IntoRows(String),
}

/// A migration run failed.
#[derive(Debug)]
pub enum MigrationError {
    Migration { file: String, index: i32, error: String, statement: String },
    Execution(String),
    VersionQuery(String),
    IntoRows(String),
}

/// A query against the store failed.
#[derive(Debug)]
pub enum Error {
    PagerExecution(String),
    Execution(String),
    RowsResult(String),
    RowResult(String),
    NextRow(String),
    TypeCheck(String),
}

} // verus!
