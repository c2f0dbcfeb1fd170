//! Value and type model of a SQL fuzzer for DataFusion: logical column
//! types and their Arrow and SQL spellings, the set of types offered,
//! logical tables, random value generation, and the SQL and scalar forms of
//! generated values.
use vstd::prelude::*;

pub mod calendar;
pub mod data_type;
pub mod generator;
pub mod interval_terms;
pub mod registry;
pub mod table;
pub mod text;
pub mod value;

pub use calendar::{days_to_date_string, nanoseconds_to_timestamp_string};
pub use data_type::{ArrowIntervalUnit, ArrowTimeUnit, ArrowType, FuzzerDataType};
pub use generator::{
    clamp_signed_range, clamp_unsigned_range, decimal_from_draws, generate_value,
    interval_from_draws, safe_char_at, timestamp_from_draws, IntegerRanges,
};
pub use registry::{
    get_available_data_types, get_numeric_data_types, get_time_data_types,
    init_available_data_types, AvailableDataTypes,
};
pub use table::{LogicalColumn, LogicalTable, LogicalTableType};
pub use value::{safe_power_of_10, GeneratedValue, ScalarLiteral};

verus! {

} // verus!
