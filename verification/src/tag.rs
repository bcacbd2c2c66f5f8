use vstd::prelude::*;

verus! {

/// The runtime type tag of one column, as reported by the source's type
/// catalog.  The dispatch is a closed enumeration with an explicit unknown
/// arm that carries the raw tag text.
#[derive(Debug, Clone, PartialEq)]
pub enum TypeTag {
    Bool,
    Int2,
    Int4,
    Int8,
    Float4,
    Float8,
    Numeric,
    Char,
    Text,
    Varchar,
    Bpchar,
    Bytea,
    Date,
    Time,
    TimeTz,
    Timestamp,
    TimestampTz,
    Interval,
    Uuid,
    Json,
    Jsonb,
    BoolArray,
    Int4Array,
    TextArray,
    VarcharArray,
    JsonArray,
    JsonbArray,
    /// A tag this library does not recognize; the raw tag text is kept.
    Other(String),
    /// An array tag whose element kind this library does not recognize.
    OtherArray(String),
}

impl TypeTag {
    /// True for array-suffixed tags: their columns route to the array codec.
    pub open spec fn is_array(&self) -> bool {
        match *self {
            TypeTag::BoolArray
            | TypeTag::Int4Array
            | TypeTag::TextArray
            | TypeTag::VarcharArray
            | TypeTag::JsonArray
            | TypeTag::JsonbArray
            | TypeTag::OtherArray(_) => true,
            _ => false,
        }
    }

    /// True for embedded-document tags.
    pub open spec fn is_document(&self) -> bool {
        match *self {
            TypeTag::Json | TypeTag::Jsonb => true,
            _ => false,
        }
    }

    /// True for the binary document variant, whose payload starts with a
    /// version byte.
    pub open spec fn is_binary_document(&self) -> bool {
        *self == TypeTag::Jsonb
    }

    /// The element tag of a supported array tag.
    pub open spec fn element_tag(&self) -> TypeTag
        recommends
            self.is_array(),
    {
        match *self {
            TypeTag::BoolArray => TypeTag::Bool,
            TypeTag::Int4Array => TypeTag::Int4,
            TypeTag::TextArray => TypeTag::Text,
            TypeTag::VarcharArray => TypeTag::Varchar,
            TypeTag::JsonArray => TypeTag::Json,
            TypeTag::JsonbArray => TypeTag::Jsonb,
            _ => TypeTag::Bool,
        }
    }

    pub fn exec_is_array(&self) -> (r: bool)
        ensures
            r == self.is_array(),
    {
        match self {
            TypeTag::BoolArray
            | TypeTag::Int4Array
            | TypeTag::TextArray
            | TypeTag::VarcharArray
            | TypeTag::JsonArray
            | TypeTag::JsonbArray
            | TypeTag::OtherArray(_) => true,
            _ => false,
        }
    }

    pub fn exec_is_document(&self) -> (r: bool)
        ensures
            r == self.is_document(),
    {
        match self {
            TypeTag::Json | TypeTag::Jsonb => true,
            _ => false,
        }
    }

    /// The canonical text of a tag, as the source's catalog spells it.
    pub open spec fn name_model(&self) -> Seq<char> {
        match *self {
            TypeTag::Bool => "BOOL"@,
            TypeTag::Int2 => "INT2"@,
            TypeTag::Int4 => "INT4"@,
            TypeTag::Int8 => "INT8"@,
            TypeTag::Float4 => "FLOAT4"@,
            TypeTag::Float8 => "FLOAT8"@,
            TypeTag::Numeric => "NUMERIC"@,
            TypeTag::Char => "CHAR"@,
            TypeTag::Text => "TEXT"@,
            TypeTag::Varchar => "VARCHAR"@,
            TypeTag::Bpchar => "BPCHAR"@,
            TypeTag::Bytea => "BYTEA"@,
            TypeTag::Date => "DATE"@,
            TypeTag::Time => "TIME"@,
            TypeTag::TimeTz => "TIMETZ"@,
            TypeTag::Timestamp => "TIMESTAMP"@,
            TypeTag::TimestampTz => "TIMESTAMPTZ"@,
            TypeTag::Interval => "INTERVAL"@,
            TypeTag::Uuid => "UUID"@,
            TypeTag::Json => "JSON"@,
            TypeTag::Jsonb => "JSONB"@,
            TypeTag::BoolArray => "BOOL[]"@,
            TypeTag::Int4Array => "INT4[]"@,
            TypeTag::TextArray => "TEXT[]"@,
            TypeTag::VarcharArray => "VARCHAR[]"@,
            TypeTag::JsonArray => "JSON[]"@,
            TypeTag::JsonbArray => "JSONB[]"@,
            TypeTag::Other(ref s) => s@,
            TypeTag::OtherArray(ref s) => s@,
        }
    }

    /// The tag's text, used when an error reports the source type.
    pub fn name(&self) -> (r: String)
        ensures
            r@ == self.name_model(),
    {
        match self {
            TypeTag::Bool => String::from_str("BOOL"),
            TypeTag::Int2 => String::from_str("INT2"),
            TypeTag::Int4 => String::from_str("INT4"),
            TypeTag::Int8 => String::from_str("INT8"),
            TypeTag::Float4 => String::from_str("FLOAT4"),
            TypeTag::Float8 => String::from_str("FLOAT8"),
            TypeTag::Numeric => String::from_str("NUMERIC"),
            TypeTag::Char => String::from_str("CHAR"),
            TypeTag::Text => String::from_str("TEXT"),
            TypeTag::Varchar => String::from_str("VARCHAR"),
            TypeTag::Bpchar => String::from_str("BPCHAR"),
            TypeTag::Bytea => String::from_str("BYTEA"),
            TypeTag::Date => String::from_str("DATE"),
            TypeTag::Time => String::from_str("TIME"),
            TypeTag::TimeTz => String::from_str("TIMETZ"),
            TypeTag::Timestamp => String::from_str("TIMESTAMP"),
            TypeTag::TimestampTz => String::from_str("TIMESTAMPTZ"),
            TypeTag::Interval => String::from_str("INTERVAL"),
            TypeTag::Uuid => String::from_str("UUID"),
            TypeTag::Json => String::from_str("JSON"),
            TypeTag::Jsonb => String::from_str("JSONB"),
            TypeTag::BoolArray => String::from_str("BOOL[]"),
            TypeTag::Int4Array => String::from_str("INT4[]"),
            TypeTag::TextArray => String::from_str("TEXT[]"),
            TypeTag::VarcharArray => String::from_str("VARCHAR[]"),
            TypeTag::JsonArray => String::from_str("JSON[]"),
            TypeTag::JsonbArray => String::from_str("JSONB[]"),
            TypeTag::Other(s) => s.clone(),
            TypeTag::OtherArray(s) => s.clone(),
        }
    }

    pub fn exec_element_tag(&self) -> (r: TypeTag)
        ensures
            r == self.element_tag(),
    {
        match self {
            TypeTag::BoolArray => TypeTag::Bool,
            TypeTag::Int4Array => TypeTag::Int4,
            TypeTag::TextArray => TypeTag::Text,
            TypeTag::VarcharArray => TypeTag::Varchar,
            TypeTag::JsonArray => TypeTag::Json,
            TypeTag::JsonbArray => TypeTag::Jsonb,
            _ => TypeTag::Bool,
        }
    }
}

} // verus!
