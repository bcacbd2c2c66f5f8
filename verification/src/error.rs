use vstd::prelude::*;

verus! {

/// Why an embedded document's payload could not be read.
#[derive(Debug, Clone, Copy, PartialEq)]
pub enum FormatIssue {
    /// A binary-variant document with an empty payload.
    EmptyBinaryPayload,
    /// A binary-variant document whose leading version byte is not the
    /// expected one; the byte found is kept.
    BadVersionByte(u8),
    /// The document text is not well-formed.
    Syntax,
    /// A text payload is not valid UTF-8.
    InvalidUtf8,
}

/// Why a source value did not fit the requested shape.
#[derive(Debug, PartialEq)]
pub enum Mismatch {
    /// A non-optional scalar was requested over a null column.
    NullScalar,
    /// A non-optional array element was null.
    NullInArray,
    /// The source value's kind cannot satisfy the requested shape.
    WrongType,
    /// An integer does not fit the requested width.
    OutOfRange,
    /// A fixed-arity shape was requested over a source of another length.
    ColumnCount { expected: usize, found: usize },
    /// A record field matched no source key.
    MissingField(String),
    /// A source key matched no field of a record without flattened fields.
    UnknownField(String),
    /// A record field name occurred more than once among the source keys.
    DuplicateField(String),
    /// A multi-field record over a document object that lacks some of the
    /// record's keys; the expected names and the keys found are kept.
    MissingDocKeys { wanted: Vec<String>, present: Vec<String> },
    /// A key-value shape was requested over a non-object document.
    NotAnObject,
}

/// A failed decode.  Every failure aborts the whole row's decode.
#[derive(Debug, PartialEq)]
pub enum DecodeError {
    /// The row source failed to produce a column value; its message is
    /// surfaced verbatim.
    Access(String),
    /// A bad document envelope or unreadable document payload.
    Format(FormatIssue),
    /// The source value and the requested shape do not agree.
    TypeMismatch(Mismatch),
    /// An unrecognized type tag whose fallback string decode also failed;
    /// the raw tag text is kept.
    Unsupported(String),
    /// The driver-level conversion for a recognized tag rejected the
    /// payload; the target type name and the source tag text are kept.
    Driver { target: String, tag: String },
}

/// Mathematical model of a `Mismatch`.
pub enum MismatchModel {
    NullScalar,
    NullInArray,
    WrongType,
    OutOfRange,
    ColumnCount { expected: nat, found: nat },
    MissingField(Seq<char>),
    UnknownField(Seq<char>),
    DuplicateField(Seq<char>),
    MissingDocKeys { wanted: Seq<Seq<char>>, present: Seq<Seq<char>> },
    NotAnObject,
}

/// Mathematical model of a `DecodeError`.
pub enum ErrorModel {
    Access(Seq<char>),
    Format(FormatIssue),
    TypeMismatch(MismatchModel),
    Unsupported(Seq<char>),
    Driver { target: Seq<char>, tag: Seq<char> },
}

pub open spec fn names_model(names: Seq<String>) -> Seq<Seq<char>> {
    names.map_values(|s: String| s@)
}

impl Mismatch {
    pub open spec fn model(self) -> MismatchModel {
        match self {
            Mismatch::NullScalar => MismatchModel::NullScalar,
            Mismatch::NullInArray => MismatchModel::NullInArray,
            Mismatch::WrongType => MismatchModel::WrongType,
            Mismatch::OutOfRange => MismatchModel::OutOfRange,
            Mismatch::ColumnCount { expected, found } => MismatchModel::ColumnCount {
                expected: expected as nat,
                found: found as nat,
            },
            Mismatch::MissingField(n) => MismatchModel::MissingField(n@),
            Mismatch::UnknownField(n) => MismatchModel::UnknownField(n@),
            Mismatch::DuplicateField(n) => MismatchModel::DuplicateField(n@),
            Mismatch::MissingDocKeys { wanted, present } => MismatchModel::MissingDocKeys {
                wanted: names_model(wanted@),
                present: names_model(present@),
            },
            Mismatch::NotAnObject => MismatchModel::NotAnObject,
        }
    }
}

impl DecodeError {
    pub open spec fn model(self) -> ErrorModel {
        match self {
            DecodeError::Access(m) => ErrorModel::Access(m@),
            DecodeError::Format(f) => ErrorModel::Format(f),
            DecodeError::TypeMismatch(m) => ErrorModel::TypeMismatch(m.model()),
            DecodeError::Unsupported(t) => ErrorModel::Unsupported(t@),
            DecodeError::Driver { target, tag } => ErrorModel::Driver {
                target: target@,
                tag: tag@,
            },
        }
    }
}

} // verus!
