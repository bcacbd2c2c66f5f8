use vstd::prelude::*;
use crate::tag::TypeTag;

verus! {

/// A calendar date, proleptic Gregorian, as plain values.
#[derive(Debug, Clone, Copy, PartialEq)]
pub struct DateParts {
    pub year: i32,
    pub month: u8,
    pub day: u8,
}

/// A time of day with microsecond precision.
#[derive(Debug, Clone, Copy, PartialEq)]
pub struct TimeParts {
    pub hour: u8,
    pub minute: u8,
    pub second: u8,
    pub micro: u32,
}

/// A point in time: date and time of day, with a fixed offset from UTC in
/// minutes.
#[derive(Debug, Clone, Copy, PartialEq)]
pub struct TimestampParts {
    pub date: DateParts,
    pub time: TimeParts,
    pub offset_minutes: i32,
}

/// An interval as the source stores it: months, days and microseconds are
/// independent components.
#[derive(Debug, Clone, Copy, PartialEq)]
pub struct IntervalParts {
    pub months: i32,
    pub days: i32,
    pub microseconds: i64,
}

pub open spec fn days_in_month(year: int, month: int) -> int {
    if month == 2 {
        if year % 4 == 0 && (year % 100 != 0 || year % 400 == 0) {
            29
        } else {
            28
        }
    } else if month == 4 || month == 6 || month == 9 || month == 11 {
        30
    } else {
        31
    }
}

impl DateParts {
    /// A well-formed calendar date in the range the source can produce.
    pub open spec fn wf(&self) -> bool {
        &&& -262144 <= self.year <= 262143
        &&& 1 <= self.month <= 12
        &&& 1 <= self.day <= days_in_month(self.year as int, self.month as int)
    }

    pub fn check(&self) -> (r: bool)
        ensures
            r == self.wf(),
    {
        let dim: u8 = if self.month == 2 {
            if self.year % 4 == 0 && (self.year % 100 != 0 || self.year % 400 == 0) {
                29
            } else {
                28
            }
        } else if self.month == 4 || self.month == 6 || self.month == 9 || self.month == 11 {
            30
        } else {
            31
        };
        -262144 <= self.year && self.year <= 262143 && 1 <= self.month && self.month <= 12
            && 1 <= self.day && self.day <= dim
    }
}

impl TimeParts {
    pub open spec fn wf(&self) -> bool {
        &&& self.hour < 24
        &&& self.minute < 60
        &&& self.second < 60
        &&& self.micro < 1000000
    }

    pub fn check(&self) -> (r: bool)
        ensures
            r == self.wf(),
    {
        self.hour < 24 && self.minute < 60 && self.second < 60 && self.micro < 1000000
    }
}

impl TimestampParts {
    pub open spec fn wf(&self) -> bool {
        &&& self.date.wf()
        &&& self.time.wf()
        &&& -1080 <= self.offset_minutes <= 1080
    }

    pub fn check(&self) -> (r: bool)
        ensures
            r == self.wf(),
    {
        self.date.check() && self.time.check() && -1080 <= self.offset_minutes
            && self.offset_minutes <= 1080
    }
}

/// The payload of one non-null column, as the driver's per-type conversion
/// hands it over.
#[derive(Debug, PartialEq)]
pub enum Prim {
    Bool(bool),
    I16(i16),
    I32(i32),
    I64(i64),
    /// Bit pattern of a 32-bit IEEE-754 value.
    F32Bits(u32),
    /// Bit pattern of a 64-bit IEEE-754 value.
    F64Bits(u64),
    Text(String),
    /// Raw bytes: a binary column, a 16-byte unique identifier, or the
    /// undecoded payload of an embedded document.
    Bytes(Vec<u8>),
    Date(DateParts),
    Time(TimeParts),
    Timestamp(TimestampParts),
    Interval(IntervalParts),
    /// An array column: an ordered sequence of possibly-null elements.
    Array(Vec<Option<Prim>>),
}

/// The undecoded, type-tagged, possibly-null payload of one column.
#[derive(Debug, PartialEq)]
pub struct RawValue {
    pub tag: TypeTag,
    /// `None` is a database null.
    pub data: Option<Prim>,
}

impl RawValue {
    pub open spec fn is_null(&self) -> bool {
        self.data is None
    }

    pub fn exec_is_null(&self) -> (r: bool)
        ensures
            r == self.is_null(),
    {
        match self.data {
            Option::None => true,
            Option::Some(_) => false,
        }
    }
}

/// One column of a row: a name and either a raw value or the row source's
/// report that it could not produce one.
#[derive(Debug, PartialEq)]
pub struct PgColumn {
    pub name: String,
    pub value: Result<RawValue, String>,
}

/// One query result item: an ordered sequence of named, typed columns.
#[derive(Debug, PartialEq)]
pub struct PgRow {
    pub columns: Vec<PgColumn>,
}

impl PgRow {
    pub open spec fn len(&self) -> nat {
        self.columns@.len()
    }
}

} // verus!
