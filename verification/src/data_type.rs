//! The logical column types that the fuzzer knows about, and their
//! correspondence with Arrow's physical data types.
use vstd::prelude::*;

verus! {

/// A logical type. It carries no detail such as a timestamp's time zone or a
/// decimal's precision: those belong to the generated values.
#[derive(Debug, Clone, Copy, PartialEq, Eq, Hash, Structural)]
pub enum FuzzerDataType {
    Int8,
    Int16,
    Int32,
    Int64,
    UInt8,
    UInt16,
    UInt32,
    UInt64,
    Float32,
    Float64,
    Boolean,
    /// Precision 1..=38 is stored as Decimal128 by DataFusion, 39..=76 as Decimal256.
    Decimal,
    Date32,
    /// Time of day with nanosecond precision.
    Time64Nanosecond,
    /// Timestamp with nanosecond precision.
    Timestamp,
    /// Interval with month, day and nanosecond components.
    IntervalMonthDayNano,
    String,
    Int8Array,
    /// List of Int32 values.
    Int32Array,
    Int64Array,
}

/// Time unit of an Arrow temporal type.
#[derive(Debug, Clone, Copy, PartialEq, Eq)]
pub enum ArrowTimeUnit {
    Second,
    Millisecond,
    Microsecond,
    Nanosecond,
}

/// Unit of an Arrow interval type.
#[derive(Debug, Clone, Copy, PartialEq, Eq)]
pub enum ArrowIntervalUnit {
    YearMonth,
    DayTime,
    MonthDayNano,
}

/// The Arrow data types that the fuzzer reads or produces, as plain values.
/// Every other Arrow type is `Other`.
#[derive(Debug, PartialEq, Eq)]
pub enum ArrowType {
    Int8,
    Int16,
    Int32,
    Int64,
    UInt8,
    UInt16,
    UInt32,
    UInt64,
    Float32,
    Float64,
    Boolean,
    /// Precision and scale.
    Decimal128(u8, i8),
    /// Precision and scale.
    Decimal256(u8, i8),
    Date32,
    Time64(ArrowTimeUnit),
    /// Unit and optional time zone.
    Timestamp(ArrowTimeUnit, Option<String>),
    Interval(ArrowIntervalUnit),
    Utf8,
    /// Element type and whether elements may be null.
    List(Box<ArrowType>, bool),
    Other,
}

impl ArrowType {
    /// A list type whose elements have the given type.
    pub fn new_list(element: ArrowType, nullable: bool) -> (r: ArrowType)
        ensures
            r == ArrowType::List(Box::new(element), nullable),
    {
        ArrowType::List(Box::new(element), nullable)
    }
}

/// The Arrow type that represents a fuzzer type in a schema.
pub open spec fn arrow_type_of(t: FuzzerDataType) -> ArrowType {
    match t {
        FuzzerDataType::Int8 => ArrowType::Int8,
        FuzzerDataType::Int16 => ArrowType::Int16,
        FuzzerDataType::Int32 => ArrowType::Int32,
        FuzzerDataType::Int64 => ArrowType::Int64,
        FuzzerDataType::UInt8 => ArrowType::UInt8,
        FuzzerDataType::UInt16 => ArrowType::UInt16,
        FuzzerDataType::UInt32 => ArrowType::UInt32,
        FuzzerDataType::UInt64 => ArrowType::UInt64,
        FuzzerDataType::Float32 => ArrowType::Float32,
        FuzzerDataType::Float64 => ArrowType::Float64,
        FuzzerDataType::Boolean => ArrowType::Boolean,
        FuzzerDataType::Decimal => ArrowType::Decimal128(10, 2),
        FuzzerDataType::Date32 => ArrowType::Date32,
        FuzzerDataType::Time64Nanosecond => ArrowType::Time64(ArrowTimeUnit::Nanosecond),
        FuzzerDataType::Timestamp => ArrowType::Timestamp(ArrowTimeUnit::Nanosecond, None),
        FuzzerDataType::IntervalMonthDayNano => ArrowType::Interval(ArrowIntervalUnit::MonthDayNano),
        FuzzerDataType::String => ArrowType::Utf8,
        FuzzerDataType::Int8Array => ArrowType::List(Box::new(ArrowType::Int8), true),
        FuzzerDataType::Int32Array => ArrowType::List(Box::new(ArrowType::Int32), true),
        FuzzerDataType::Int64Array => ArrowType::List(Box::new(ArrowType::Int64), true),
    }
}

/// The fuzzer type that an Arrow type stands for, if the fuzzer supports it.
/// Decimal128 and Decimal256 of any precision are both `Decimal`; a
/// timestamp's time zone and a list's element nullability are ignored.
pub open spec fn fuzzer_type_of(a: ArrowType) -> Option<FuzzerDataType> {
    match a {
        ArrowType::Int8 => Some(FuzzerDataType::Int8),
        ArrowType::Int16 => Some(FuzzerDataType::Int16),
        ArrowType::Int32 => Some(FuzzerDataType::Int32),
        ArrowType::Int64 => Some(FuzzerDataType::Int64),
        ArrowType::UInt8 => Some(FuzzerDataType::UInt8),
        ArrowType::UInt16 => Some(FuzzerDataType::UInt16),
        ArrowType::UInt32 => Some(FuzzerDataType::UInt32),
        ArrowType::UInt64 => Some(FuzzerDataType::UInt64),
        ArrowType::Float32 => Some(FuzzerDataType::Float32),
        ArrowType::Float64 => Some(FuzzerDataType::Float64),
        ArrowType::Boolean => Some(FuzzerDataType::Boolean),
        ArrowType::Decimal128(_, _) => Some(FuzzerDataType::Decimal),
        ArrowType::Decimal256(_, _) => Some(FuzzerDataType::Decimal),
        ArrowType::Date32 => Some(FuzzerDataType::Date32),
        ArrowType::Time64(ArrowTimeUnit::Nanosecond) => Some(FuzzerDataType::Time64Nanosecond),
        ArrowType::Timestamp(ArrowTimeUnit::Nanosecond, _) => Some(FuzzerDataType::Timestamp),
        ArrowType::Interval(ArrowIntervalUnit::MonthDayNano) => Some(
            FuzzerDataType::IntervalMonthDayNano,
        ),
        ArrowType::Utf8 => Some(FuzzerDataType::String),
        ArrowType::List(element, _) => match *element {
            ArrowType::Int8 => Some(FuzzerDataType::Int8Array),
            ArrowType::Int32 => Some(FuzzerDataType::Int32Array),
            ArrowType::Int64 => Some(FuzzerDataType::Int64Array),
            _ => None,
        },
        _ => None,
    }
}

/// The name used for columns of the type.
pub open spec fn display_name_of(t: FuzzerDataType) -> Seq<char> {
    match t {
        FuzzerDataType::Int8 => "int8"@,
        FuzzerDataType::Int16 => "int16"@,
        FuzzerDataType::Int32 => "int32"@,
        FuzzerDataType::Int64 => "int64"@,
        FuzzerDataType::UInt8 => "uint8"@,
        FuzzerDataType::UInt16 => "uint16"@,
        FuzzerDataType::UInt32 => "uint32"@,
        FuzzerDataType::UInt64 => "uint64"@,
        FuzzerDataType::Float32 => "float32"@,
        FuzzerDataType::Float64 => "float64"@,
        FuzzerDataType::Boolean => "boolean"@,
        FuzzerDataType::Decimal => "decimal128"@,
        FuzzerDataType::Date32 => "date32"@,
        FuzzerDataType::Time64Nanosecond => "time64_nanosecond"@,
        FuzzerDataType::Timestamp => "timestamp"@,
        FuzzerDataType::IntervalMonthDayNano => "interval_month_day_nano"@,
        FuzzerDataType::String => "string"@,
        FuzzerDataType::Int8Array => "int8_array"@,
        FuzzerDataType::Int32Array => "int32_array"@,
        FuzzerDataType::Int64Array => "int64_array"@,
    }
}

/// The SQL type name used in CREATE TABLE statements.
pub open spec fn sql_type_of(t: FuzzerDataType) -> Seq<char> {
    match t {
        FuzzerDataType::Int8 => "TINYINT"@,
        FuzzerDataType::Int16 => "SMALLINT"@,
        FuzzerDataType::Int32 => "INT"@,
        FuzzerDataType::Int64 => "BIGINT"@,
        FuzzerDataType::UInt8 => "TINYINT UNSIGNED"@,
        FuzzerDataType::UInt16 => "SMALLINT UNSIGNED"@,
        FuzzerDataType::UInt32 => "INT UNSIGNED"@,
        FuzzerDataType::UInt64 => "BIGINT UNSIGNED"@,
        FuzzerDataType::Float32 => "FLOAT"@,
        FuzzerDataType::Float64 => "DOUBLE"@,
        FuzzerDataType::Boolean => "BOOLEAN"@,
        FuzzerDataType::Decimal => "DECIMAL"@,
        FuzzerDataType::Date32 => "DATE"@,
        FuzzerDataType::Time64Nanosecond => "TIME"@,
        FuzzerDataType::Timestamp => "TIMESTAMP"@,
        FuzzerDataType::IntervalMonthDayNano => "INTERVAL"@,
        FuzzerDataType::String => "VARCHAR"@,
        FuzzerDataType::Int8Array => "TINYINT[]"@,
        FuzzerDataType::Int32Array => "INT[]"@,
        FuzzerDataType::Int64Array => "BIGINT[]"@,
    }
}

/// The numeric types: the integers, the floats and Decimal (not Boolean).
pub open spec fn is_numeric_type(t: FuzzerDataType) -> bool {
    ||| t is Int8
    ||| t is Int16
    ||| t is Int32
    ||| t is Int64
    ||| t is UInt8
    ||| t is UInt16
    ||| t is UInt32
    ||| t is UInt64
    ||| t is Float32
    ||| t is Float64
    ||| t is Decimal
}

/// The temporal types: dates, times, timestamps and intervals.
pub open spec fn is_time_type(t: FuzzerDataType) -> bool {
    ||| t is Date32
    ||| t is Time64Nanosecond
    ||| t is Timestamp
    ||| t is IntervalMonthDayNano
}

impl FuzzerDataType {
    /// The Arrow type that DataFusion uses for this type. Decimal has no
    /// precision of its own; its schema type is Decimal128(10, 2).
    pub fn to_datafusion_type(&self) -> (r: ArrowType)
        ensures
            r == arrow_type_of(*self),
    {
        match self {
            FuzzerDataType::Int8 => ArrowType::Int8,
            FuzzerDataType::Int16 => ArrowType::Int16,
            FuzzerDataType::Int32 => ArrowType::Int32,
            FuzzerDataType::Int64 => ArrowType::Int64,
            FuzzerDataType::UInt8 => ArrowType::UInt8,
            FuzzerDataType::UInt16 => ArrowType::UInt16,
            FuzzerDataType::UInt32 => ArrowType::UInt32,
            FuzzerDataType::UInt64 => ArrowType::UInt64,
            FuzzerDataType::Float32 => ArrowType::Float32,
            FuzzerDataType::Float64 => ArrowType::Float64,
            FuzzerDataType::Boolean => ArrowType::Boolean,
            FuzzerDataType::Decimal => ArrowType::Decimal128(10, 2),
            FuzzerDataType::Date32 => ArrowType::Date32,
            FuzzerDataType::Time64Nanosecond => ArrowType::Time64(ArrowTimeUnit::Nanosecond),
            FuzzerDataType::Timestamp => ArrowType::Timestamp(ArrowTimeUnit::Nanosecond, None),
            FuzzerDataType::IntervalMonthDayNano => ArrowType::Interval(
                ArrowIntervalUnit::MonthDayNano,
            ),
            FuzzerDataType::String => ArrowType::Utf8,
            FuzzerDataType::Int8Array => ArrowType::new_list(ArrowType::Int8, true),
            FuzzerDataType::Int32Array => ArrowType::new_list(ArrowType::Int32, true),
            FuzzerDataType::Int64Array => ArrowType::new_list(ArrowType::Int64, true),
        }
    }

    /// The fuzzer type of an Arrow type, or `None` where the fuzzer does not
    /// support it.
    pub fn from_datafusion_type(data_type: &ArrowType) -> (r: Option<Self>)
        ensures
            r == fuzzer_type_of(*data_type),
    {
        match data_type {
            ArrowType::Int8 => Some(FuzzerDataType::Int8),
            ArrowType::Int16 => Some(FuzzerDataType::Int16),
            ArrowType::Int32 => Some(FuzzerDataType::Int32),
            ArrowType::Int64 => Some(FuzzerDataType::Int64),
            ArrowType::UInt8 => Some(FuzzerDataType::UInt8),
            ArrowType::UInt16 => Some(FuzzerDataType::UInt16),
            ArrowType::UInt32 => Some(FuzzerDataType::UInt32),
            ArrowType::UInt64 => Some(FuzzerDataType::UInt64),
            ArrowType::Float32 => Some(FuzzerDataType::Float32),
            ArrowType::Float64 => Some(FuzzerDataType::Float64),
            ArrowType::Boolean => Some(FuzzerDataType::Boolean),
            ArrowType::Decimal128(_, _) => Some(FuzzerDataType::Decimal),
            ArrowType::Decimal256(_, _) => Some(FuzzerDataType::Decimal),
            ArrowType::Date32 => Some(FuzzerDataType::Date32),
            ArrowType::Time64(ArrowTimeUnit::Nanosecond) => Some(FuzzerDataType::Time64Nanosecond),
            ArrowType::Timestamp(ArrowTimeUnit::Nanosecond, _) => Some(FuzzerDataType::Timestamp),
            ArrowType::Interval(ArrowIntervalUnit::MonthDayNano) => Some(
                FuzzerDataType::IntervalMonthDayNano,
            ),
            ArrowType::Utf8 => Some(FuzzerDataType::String),
            ArrowType::List(element, _) => match &**element {
                ArrowType::Int8 => Some(FuzzerDataType::Int8Array),
                ArrowType::Int32 => Some(FuzzerDataType::Int32Array),
                ArrowType::Int64 => Some(FuzzerDataType::Int64Array),
                _ => None,
            },
            _ => None,
        }
    }

    /// The name used for columns of this type.
    pub fn display_name(&self) -> (r: &'static str)
        ensures
            r@ == display_name_of(*self),
    {
        match self {
            FuzzerDataType::Int8 => "int8",
            FuzzerDataType::Int16 => "int16",
            FuzzerDataType::Int32 => "int32",
            FuzzerDataType::Int64 => "int64",
            FuzzerDataType::UInt8 => "uint8",
            FuzzerDataType::UInt16 => "uint16",
            FuzzerDataType::UInt32 => "uint32",
            FuzzerDataType::UInt64 => "uint64",
            FuzzerDataType::Float32 => "float32",
            FuzzerDataType::Float64 => "float64",
            FuzzerDataType::Boolean => "boolean",
            FuzzerDataType::Decimal => "decimal128",
            FuzzerDataType::Date32 => "date32",
            FuzzerDataType::Time64Nanosecond => "time64_nanosecond",
            FuzzerDataType::Timestamp => "timestamp",
            FuzzerDataType::IntervalMonthDayNano => "interval_month_day_nano",
            FuzzerDataType::String => "string",
            FuzzerDataType::Int8Array => "int8_array",
            FuzzerDataType::Int32Array => "int32_array",
            FuzzerDataType::Int64Array => "int64_array",
        }
    }

    pub fn is_numeric(&self) -> (r: bool)
        ensures
            r == is_numeric_type(*self),
    {
        match self {
            FuzzerDataType::Int8
            | FuzzerDataType::Int16
            | FuzzerDataType::Int32
            | FuzzerDataType::Int64
            | FuzzerDataType::UInt8
            | FuzzerDataType::UInt16
            | FuzzerDataType::UInt32
            | FuzzerDataType::UInt64
            | FuzzerDataType::Float32
            | FuzzerDataType::Float64
            | FuzzerDataType::Decimal => true,
            FuzzerDataType::Boolean
            | FuzzerDataType::Date32
            | FuzzerDataType::Time64Nanosecond
            | FuzzerDataType::Timestamp
            | FuzzerDataType::IntervalMonthDayNano
            | FuzzerDataType::String
            | FuzzerDataType::Int8Array
            | FuzzerDataType::Int32Array
            | FuzzerDataType::Int64Array => false,
        }
    }

    pub fn is_time(&self) -> (r: bool)
        ensures
            r == is_time_type(*self),
    {
        match self {
            FuzzerDataType::Date32
            | FuzzerDataType::Time64Nanosecond
            | FuzzerDataType::Timestamp
            | FuzzerDataType::IntervalMonthDayNano => true,
            FuzzerDataType::Int8
            | FuzzerDataType::Int16
            | FuzzerDataType::Int32
            | FuzzerDataType::Int64
            | FuzzerDataType::UInt8
            | FuzzerDataType::UInt16
            | FuzzerDataType::UInt32
            | FuzzerDataType::UInt64
            | FuzzerDataType::Float32
            | FuzzerDataType::Float64
            | FuzzerDataType::Boolean
            | FuzzerDataType::Decimal
            | FuzzerDataType::String
            | FuzzerDataType::Int8Array
            | FuzzerDataType::Int32Array
            | FuzzerDataType::Int64Array => false,
        }
    }

    /// A Decimal type. Precision and scale are drawn when values are
    /// generated, so the generator is not consulted here.
    pub fn random_decimal<R>(_rng: &mut R) -> (r: Self)
        ensures
            r == FuzzerDataType::Decimal,
    {
        FuzzerDataType::Decimal
    }

    /// The SQL type name used in CREATE TABLE statements.
    pub fn to_sql_type(&self) -> (r: &'static str)
        ensures
            r@ == sql_type_of(*self),
    {
        match self {
            FuzzerDataType::Int8 => "TINYINT",
            FuzzerDataType::Int16 => "SMALLINT",
            FuzzerDataType::Int32 => "INT",
            FuzzerDataType::Int64 => "BIGINT",
            FuzzerDataType::UInt8 => "TINYINT UNSIGNED",
            FuzzerDataType::UInt16 => "SMALLINT UNSIGNED",
            FuzzerDataType::UInt32 => "INT UNSIGNED",
            FuzzerDataType::UInt64 => "BIGINT UNSIGNED",
            FuzzerDataType::Float32 => "FLOAT",
            FuzzerDataType::Float64 => "DOUBLE",
            FuzzerDataType::Boolean => "BOOLEAN",
            FuzzerDataType::Decimal => "DECIMAL",
            FuzzerDataType::Date32 => "DATE",
            FuzzerDataType::Time64Nanosecond => "TIME",
            FuzzerDataType::Timestamp => "TIMESTAMP",
            FuzzerDataType::IntervalMonthDayNano => "INTERVAL",
            FuzzerDataType::String => "VARCHAR",
            FuzzerDataType::Int8Array => "TINYINT[]",
            FuzzerDataType::Int32Array => "INT[]",
            FuzzerDataType::Int64Array => "BIGINT[]",
        }
    }
}

/// Converting a fuzzer type to its Arrow type and back gives the same fuzzer
/// type, for every fuzzer type.
pub proof fn lemma_datafusion_type_round_trip(t: FuzzerDataType)
    ensures
        fuzzer_type_of(arrow_type_of(t)) == Some(t),
{
}

/// Distinct fuzzer types have distinct Arrow types.
pub proof fn lemma_datafusion_type_injective(t1: FuzzerDataType, t2: FuzzerDataType)
    ensures
        arrow_type_of(t1) == arrow_type_of(t2) ==> t1 == t2,
{
    lemma_datafusion_type_round_trip(t1);
    lemma_datafusion_type_round_trip(t2);
}

/// No type is both numeric and temporal.
pub proof fn lemma_numeric_and_time_disjoint(t: FuzzerDataType)
    ensures
        !(is_numeric_type(t) && is_time_type(t)),
{
}

/// A character usable in a column name: a lowercase letter, a digit or `_`.
pub open spec fn is_name_char(c: char) -> bool {
    ('a' <= c && c <= 'z') || ('0' <= c && c <= '9') || c == '_'
}

proof fn lemma_display_name_chars(t: FuzzerDataType)
    ensures
        display_name_of(t).len() > 0,
        forall|i: int| 0 <= i < display_name_of(t).len() ==> is_name_char(display_name_of(t)[i]),
{
    reveal_strlit("int8");
    reveal_strlit("int16");
    reveal_strlit("int32");
    reveal_strlit("int64");
    reveal_strlit("uint8");
    reveal_strlit("uint16");
    reveal_strlit("uint32");
    reveal_strlit("uint64");
    reveal_strlit("float32");
    reveal_strlit("float64");
    reveal_strlit("boolean");
    reveal_strlit("decimal128");
    reveal_strlit("date32");
    reveal_strlit("time64_nanosecond");
    reveal_strlit("timestamp");
    reveal_strlit("interval_month_day_nano");
    reveal_strlit("string");
    reveal_strlit("int8_array");
    reveal_strlit("int32_array");
    reveal_strlit("int64_array");
}

/// Display names identify their types: distinct types have distinct names,
/// and every name is non-empty and made of lowercase letters, digits and
/// `_`, so it can stand inside a column name.
pub proof fn lemma_display_names(a: FuzzerDataType, b: FuzzerDataType)
    ensures
        a != b ==> display_name_of(a) != display_name_of(b),
        display_name_of(a).len() > 0,
        forall|i: int| 0 <= i < display_name_of(a).len() ==> is_name_char(display_name_of(a)[i]),
{
    lemma_display_name_chars(a);
    lemma_display_name_chars(b);
    if a != b && display_name_of(a) == display_name_of(b) {
        reveal_strlit("int8");
        reveal_strlit("int16");
        reveal_strlit("int32");
        reveal_strlit("int64");
        reveal_strlit("uint8");
        reveal_strlit("uint16");
        reveal_strlit("uint32");
        reveal_strlit("uint64");
        reveal_strlit("float32");
        reveal_strlit("float64");
        reveal_strlit("boolean");
        reveal_strlit("decimal128");
        reveal_strlit("date32");
        reveal_strlit("time64_nanosecond");
        reveal_strlit("timestamp");
        reveal_strlit("interval_month_day_nano");
        reveal_strlit("string");
        reveal_strlit("int8_array");
        reveal_strlit("int32_array");
        reveal_strlit("int64_array");
        // equal names agree on their length and on the characters that tell
        // the names of one length apart
        let x = display_name_of(a);
        let y = display_name_of(b);
        assert(x.len() == y.len() && x[0] == y[0] && x[3] == y[3]);
        assert(x.len() >= 6 ==> x[4] == y[4] && x[5] == y[5]);
        assert(x.len() == 5 ==> x[4] == y[4]);
    }
}

/// The least and greatest value of an Arrow integer type.
pub open spec fn arrow_integer_bounds(a: ArrowType) -> Option<(int, int)> {
    match a {
        ArrowType::Int8 => Some((i8::MIN as int, i8::MAX as int)),
        ArrowType::Int16 => Some((i16::MIN as int, i16::MAX as int)),
        ArrowType::Int32 => Some((i32::MIN as int, i32::MAX as int)),
        ArrowType::Int64 => Some((i64::MIN as int, i64::MAX as int)),
        ArrowType::UInt8 => Some((0, u8::MAX as int)),
        ArrowType::UInt16 => Some((0, u16::MAX as int)),
        ArrowType::UInt32 => Some((0, u32::MAX as int)),
        ArrowType::UInt64 => Some((0, u64::MAX as int)),
        _ => None,
    }
}

/// The integer bounds of the values in a column of an Arrow type: those of
/// the type itself, or of the element type for a list.
pub open spec fn arrow_column_bounds(a: ArrowType) -> Option<(int, int)> {
    match a {
        ArrowType::List(element, _) => arrow_integer_bounds(*element),
        _ => arrow_integer_bounds(a),
    }
}

/// The least and greatest value of a SQL integer type, by its name:
/// TINYINT, SMALLINT, INT (or INTEGER) and BIGINT are 8, 16, 32 and 64 bits
/// wide, signed unless followed by ` UNSIGNED`.
pub open spec fn sql_integer_bounds(name: Seq<char>) -> Option<(int, int)> {
    if name == "TINYINT"@ {
        Some((i8::MIN as int, i8::MAX as int))
    } else if name == "SMALLINT"@ {
        Some((i16::MIN as int, i16::MAX as int))
    } else if name == "INT"@ || name == "INTEGER"@ {
        Some((i32::MIN as int, i32::MAX as int))
    } else if name == "BIGINT"@ {
        Some((i64::MIN as int, i64::MAX as int))
    } else if name == "TINYINT UNSIGNED"@ {
        Some((0, u8::MAX as int))
    } else if name == "SMALLINT UNSIGNED"@ {
        Some((0, u16::MAX as int))
    } else if name == "INT UNSIGNED"@ {
        Some((0, u32::MAX as int))
    } else if name == "BIGINT UNSIGNED"@ {
        Some((0, u64::MAX as int))
    } else {
        None
    }
}

/// The integer bounds of the values in a SQL column type: an array type
/// `T[]` holds values of `T`.
pub open spec fn sql_column_bounds(name: Seq<char>) -> Option<(int, int)> {
    if name.len() >= 2 && name[name.len() - 2] == '[' && name[name.len() - 1] == ']' {
        sql_integer_bounds(name.take(name.len() - 2))
    } else {
        sql_integer_bounds(name)
    }
}

/// The SQL column type of a fuzzer type holds integers of exactly the range
/// that its Arrow type holds (elements, for arrays), and no integers where
/// the Arrow type holds none.
pub proof fn lemma_sql_type_range(t: FuzzerDataType)
    ensures
        sql_column_bounds(sql_type_of(t)) == arrow_column_bounds(arrow_type_of(t)),
{
    reveal_strlit("TINYINT");
    reveal_strlit("SMALLINT");
    reveal_strlit("INT");
    reveal_strlit("BIGINT");
    reveal_strlit("TINYINT UNSIGNED");
    reveal_strlit("SMALLINT UNSIGNED");
    reveal_strlit("INT UNSIGNED");
    reveal_strlit("BIGINT UNSIGNED");
    reveal_strlit("FLOAT");
    reveal_strlit("DOUBLE");
    reveal_strlit("BOOLEAN");
    reveal_strlit("DECIMAL");
    reveal_strlit("DATE");
    reveal_strlit("TIME");
    reveal_strlit("TIMESTAMP");
    reveal_strlit("INTERVAL");
    reveal_strlit("VARCHAR");
    reveal_strlit("TINYINT[]");
    reveal_strlit("INT[]");
    reveal_strlit("BIGINT[]");
    reveal_strlit("INTEGER");
    let n = sql_type_of(t);
    match t {
        FuzzerDataType::Int8Array => {
            assert(n.take(n.len() - 2) =~= "TINYINT"@);
        },
        FuzzerDataType::Int32Array => {
            assert(n.take(n.len() - 2) =~= "INT"@);
        },
        FuzzerDataType::Int64Array => {
            assert(n.take(n.len() - 2) =~= "BIGINT"@);
        },
        _ => {},
    }
}

/// Distinct fuzzer types have distinct SQL column types.
pub proof fn lemma_sql_types_distinct(a: FuzzerDataType, b: FuzzerDataType)
    ensures
        a != b ==> sql_type_of(a) != sql_type_of(b),
{
    if a != b && sql_type_of(a) == sql_type_of(b) {
        reveal_strlit("TINYINT");
        reveal_strlit("SMALLINT");
        reveal_strlit("INT");
        reveal_strlit("BIGINT");
        reveal_strlit("TINYINT UNSIGNED");
        reveal_strlit("SMALLINT UNSIGNED");
        reveal_strlit("INT UNSIGNED");
        reveal_strlit("BIGINT UNSIGNED");
        reveal_strlit("FLOAT");
        reveal_strlit("DOUBLE");
        reveal_strlit("BOOLEAN");
        reveal_strlit("DECIMAL");
        reveal_strlit("DATE");
        reveal_strlit("TIME");
        reveal_strlit("TIMESTAMP");
        reveal_strlit("INTERVAL");
        reveal_strlit("VARCHAR");
        reveal_strlit("TINYINT[]");
        reveal_strlit("INT[]");
        reveal_strlit("BIGINT[]");
        let x = sql_type_of(a);
        let y = sql_type_of(b);
        assert(x.len() == y.len() && x[0] == y[0] && x[1] == y[1] && x[2] == y[2]);
        assert(x.len() >= 5 ==> x[3] == y[3] && x[4] == y[4]);
    }
}

/// Arrow's numeric types: the integers, the floats and the decimals.
pub open spec fn arrow_is_numeric(a: ArrowType) -> bool {
    match a {
        ArrowType::Float32 | ArrowType::Float64 => true,
        ArrowType::Decimal128(_, _) | ArrowType::Decimal256(_, _) => true,
        _ => arrow_integer_bounds(a) is Some,
    }
}

/// Arrow's temporal types among those the fuzzer names: dates, times,
/// timestamps and intervals.
pub open spec fn arrow_is_temporal(a: ArrowType) -> bool {
    match a {
        ArrowType::Date32 | ArrowType::Time64(_) | ArrowType::Timestamp(_, _) | ArrowType::Interval(_) => true,
        _ => false,
    }
}

/// A fuzzer type is numeric, or temporal, exactly when its Arrow type is.
pub proof fn lemma_type_classes_follow_arrow(t: FuzzerDataType)
    ensures
        is_numeric_type(t) == arrow_is_numeric(arrow_type_of(t)),
        is_time_type(t) == arrow_is_temporal(arrow_type_of(t)),
{
}

/// The integer bounds that a display name announces: `int` or `uint`
/// followed by the width in bits 8, 16, 32 or 64; an `_array` suffix names
/// arrays of such integers.
pub open spec fn name_column_bounds(name: Seq<char>) -> Option<(int, int)> {
    let base = if name.len() >= 6 && name.skip(name.len() - 6) == "_array"@ {
        name.take(name.len() - 6)
    } else {
        name
    };
    if base == "int8"@ {
        Some((i8::MIN as int, i8::MAX as int))
    } else if base == "int16"@ {
        Some((i16::MIN as int, i16::MAX as int))
    } else if base == "int32"@ {
        Some((i32::MIN as int, i32::MAX as int))
    } else if base == "int64"@ {
        Some((i64::MIN as int, i64::MAX as int))
    } else if base == "uint8"@ {
        Some((0, u8::MAX as int))
    } else if base == "uint16"@ {
        Some((0, u16::MAX as int))
    } else if base == "uint32"@ {
        Some((0, u32::MAX as int))
    } else if base == "uint64"@ {
        Some((0, u64::MAX as int))
    } else {
        None
    }
}

/// The display name of a fuzzer type announces the integer range of its
/// Arrow type (elements, for arrays), and no range where it holds none.
pub proof fn lemma_display_name_range(t: FuzzerDataType)
    ensures
        name_column_bounds(display_name_of(t)) == arrow_column_bounds(arrow_type_of(t)),
{
    reveal_strlit("int8");
    reveal_strlit("int16");
    reveal_strlit("int32");
    reveal_strlit("int64");
    reveal_strlit("uint8");
    reveal_strlit("uint16");
    reveal_strlit("uint32");
    reveal_strlit("uint64");
    reveal_strlit("float32");
    reveal_strlit("float64");
    reveal_strlit("boolean");
    reveal_strlit("decimal128");
    reveal_strlit("date32");
    reveal_strlit("time64_nanosecond");
    reveal_strlit("timestamp");
    reveal_strlit("interval_month_day_nano");
    reveal_strlit("string");
    reveal_strlit("int8_array");
    reveal_strlit("int32_array");
    reveal_strlit("int64_array");
    reveal_strlit("_array");
    let n = display_name_of(t);
    match t {
        FuzzerDataType::Int8 => {
            assert(name_column_bounds(n) == arrow_column_bounds(arrow_type_of(t)));
        },
        FuzzerDataType::Int16 => {
            assert(name_column_bounds(n) == arrow_column_bounds(arrow_type_of(t)));
        },
        FuzzerDataType::Int32 => {
            assert(n[3] != "int16"@[3]);
            assert(name_column_bounds(n) == arrow_column_bounds(arrow_type_of(t)));
        },
        FuzzerDataType::Int64 => {
            assert(n[3] != "int16"@[3] && n[3] != "int32"@[3]);
            assert(name_column_bounds(n) == arrow_column_bounds(arrow_type_of(t)));
        },
        FuzzerDataType::UInt8 => {
            assert(n[0] != "int16"@[0]);
            assert(name_column_bounds(n) == arrow_column_bounds(arrow_type_of(t)));
        },
        FuzzerDataType::UInt16 => {
            assert(n.skip(0)[5] == n[5]);
            assert(name_column_bounds(n) == arrow_column_bounds(arrow_type_of(t)));
        },
        FuzzerDataType::UInt32 => {
            assert(n.skip(0)[5] == n[5]);
            assert(name_column_bounds(n) == arrow_column_bounds(arrow_type_of(t)));
        },
        FuzzerDataType::UInt64 => {
            assert(n.skip(0)[5] == n[5]);
            assert(name_column_bounds(n) == arrow_column_bounds(arrow_type_of(t)));
        },
        FuzzerDataType::Float32 => {
            assert(n.skip(1)[5] == n[6]);
            assert(name_column_bounds(n) == arrow_column_bounds(arrow_type_of(t)));
        },
        FuzzerDataType::Float64 => {
            assert(n.skip(1)[5] == n[6]);
            assert(name_column_bounds(n) == arrow_column_bounds(arrow_type_of(t)));
        },
        FuzzerDataType::Boolean => {
            assert(n.skip(1)[5] == n[6]);
            assert(name_column_bounds(n) == arrow_column_bounds(arrow_type_of(t)));
        },
        FuzzerDataType::Decimal => {
            assert(n.skip(4)[5] == n[9]);
            assert(name_column_bounds(n) == arrow_column_bounds(arrow_type_of(t)));
        },
        FuzzerDataType::Date32 => {
            assert(n.skip(0)[5] == n[5]);
            assert(n[0] != "uint16"@[0]);
            assert(name_column_bounds(n) == arrow_column_bounds(arrow_type_of(t)));
        },
        FuzzerDataType::Time64Nanosecond => {
            assert(n.skip(11)[5] == n[16]);
            assert(name_column_bounds(n) == arrow_column_bounds(arrow_type_of(t)));
        },
        FuzzerDataType::Timestamp => {
            assert(n.skip(3)[5] == n[8]);
            assert(name_column_bounds(n) == arrow_column_bounds(arrow_type_of(t)));
        },
        FuzzerDataType::IntervalMonthDayNano => {
            assert(n.skip(17)[5] == n[22]);
            assert(name_column_bounds(n) == arrow_column_bounds(arrow_type_of(t)));
        },
        FuzzerDataType::String => {
            assert(n.skip(0)[5] == n[5]);
            assert(name_column_bounds(n) == arrow_column_bounds(arrow_type_of(t)));
        },
        FuzzerDataType::Int8Array => {
            assert(n.skip(4) =~= "_array"@);
            assert(n.take(4) =~= "int8"@);
            assert(name_column_bounds(n) == arrow_column_bounds(arrow_type_of(t)));
        },
        FuzzerDataType::Int32Array => {
            assert(n.skip(5) =~= "_array"@);
            assert(n.take(5) =~= "int32"@);
            assert("int32"@[3] != "int16"@[3]);
            assert(name_column_bounds(n) == arrow_column_bounds(arrow_type_of(t)));
        },
        FuzzerDataType::Int64Array => {
            assert(n.skip(5) =~= "_array"@);
            assert(n.take(5) =~= "int64"@);
            assert("int64"@[3] != "int16"@[3] && "int64"@[3] != "int32"@[3]);
            assert(name_column_bounds(n) == arrow_column_bounds(arrow_type_of(t)));
        },
    }
}

} // verus!
