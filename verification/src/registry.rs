//! The set of data types the fuzzer draws column types from, filled once
//! and read afterwards.
use vstd::prelude::*;
use crate::data_type::{is_numeric_type, is_time_type, FuzzerDataType};

verus! {

/// Every fuzzer type, in the order the fuzzer offers them. Decimal256
/// precisions are not separate types: precision is drawn per value.
pub open spec fn all_data_types() -> Seq<FuzzerDataType> {
    seq![
        FuzzerDataType::Int8,
        FuzzerDataType::Int16,
        FuzzerDataType::Int32,
        FuzzerDataType::Int64,
        FuzzerDataType::UInt8,
        FuzzerDataType::UInt16,
        FuzzerDataType::UInt32,
        FuzzerDataType::UInt64,
        FuzzerDataType::Float32,
        FuzzerDataType::Float64,
        FuzzerDataType::Boolean,
        FuzzerDataType::Decimal,
        FuzzerDataType::Date32,
        FuzzerDataType::Time64Nanosecond,
        FuzzerDataType::Timestamp,
        FuzzerDataType::IntervalMonthDayNano,
        FuzzerDataType::String,
        FuzzerDataType::Int8Array,
        FuzzerDataType::Int32Array,
        FuzzerDataType::Int64Array,
    ]
}

pub open spec fn numeric_filter() -> spec_fn(FuzzerDataType) -> bool {
    |t: FuzzerDataType| is_numeric_type(t)
}

pub open spec fn time_filter() -> spec_fn(FuzzerDataType) -> bool {
    |t: FuzzerDataType| is_time_type(t)
}

/// The available data types: empty until initialized, then every fuzzer
/// type.
pub struct AvailableDataTypes {
    types: Option<Vec<FuzzerDataType>>,
}

impl AvailableDataTypes {
    #[verifier::type_invariant]
    closed spec fn holds_all_or_nothing(self) -> bool {
        self.types matches Some(v) ==> v@ == all_data_types()
    }

    /// Whether the types have been initialized.
    pub closed spec fn is_initialized(self) -> bool {
        self.types is Some
    }

    /// Not yet initialized.
    pub fn new() -> (r: Self)
        ensures
            !r.is_initialized(),
    {
        AvailableDataTypes { types: None }
    }
}

/// The list of every fuzzer type.
fn all_data_types_vec() -> (v: Vec<FuzzerDataType>)
    ensures
        v@ == all_data_types(),
{
    let v = vec![
        FuzzerDataType::Int8,
        FuzzerDataType::Int16,
        FuzzerDataType::Int32,
        FuzzerDataType::Int64,
        FuzzerDataType::UInt8,
        FuzzerDataType::UInt16,
        FuzzerDataType::UInt32,
        FuzzerDataType::UInt64,
        FuzzerDataType::Float32,
        FuzzerDataType::Float64,
        FuzzerDataType::Boolean,
        FuzzerDataType::Decimal,
        FuzzerDataType::Date32,
        FuzzerDataType::Time64Nanosecond,
        FuzzerDataType::Timestamp,
        FuzzerDataType::IntervalMonthDayNano,
        FuzzerDataType::String,
        FuzzerDataType::Int8Array,
        FuzzerDataType::Int32Array,
        FuzzerDataType::Int64Array,
    ];
    assert(v@ =~= all_data_types());
    v
}

/// Initializes the available types; once initialized they stay as they
/// are, so calling this again changes nothing.
pub fn init_available_data_types(available: &mut AvailableDataTypes)
    ensures
        final(available).is_initialized(),
{
    if available.types.is_none() {
        available.types = Some(all_data_types_vec());
    }
}

/// The available types. They must have been initialized.
pub fn get_available_data_types(available: &AvailableDataTypes) -> (r: &Vec<FuzzerDataType>)
    requires
        available.is_initialized(),
    ensures
        r@ == all_data_types(),
{
    proof {
        use_type_invariant(available);
    }
    available.types.as_ref().unwrap()
}

/// The numeric types of `types` when `numeric` holds, the temporal ones
/// otherwise, in order.
fn filter_types(types: &Vec<FuzzerDataType>, numeric: bool) -> (r: Vec<FuzzerDataType>)
    ensures
        r@ == types@.filter(if numeric { numeric_filter() } else { time_filter() }),
{
    let ghost pred = if numeric { numeric_filter() } else { time_filter() };
    let mut r: Vec<FuzzerDataType> = Vec::new();
    let n = types.len();
    let mut i: usize = 0;
    while i < n
        invariant
            n == types@.len(),
            i <= n,
            pred == (if numeric { numeric_filter() } else { time_filter() }),
            r@ == types@.take(i as int).filter(pred),
        decreases n - i,
    {
        let t = types[i];
        let keep = if numeric {
            t.is_numeric()
        } else {
            t.is_time()
        };
        proof {
            reveal(Seq::filter);
            assert(types@.take(i + 1).drop_last() =~= types@.take(i as int));
        }
        if keep {
            r.push(t);
        }
        i = i + 1;
    }
    assert(types@.take(n as int) =~= types@);
    r
}

/// The available numeric types (integers, floats and Decimal; not
/// Boolean), in order. The types must have been initialized.
pub fn get_numeric_data_types(available: &AvailableDataTypes) -> (r: Vec<FuzzerDataType>)
    requires
        available.is_initialized(),
    ensures
        r@ == all_data_types().filter(numeric_filter()),
{
    filter_types(get_available_data_types(available), true)
}

/// The available temporal types, in order. The types must have been
/// initialized.
pub fn get_time_data_types(available: &AvailableDataTypes) -> (r: Vec<FuzzerDataType>)
    requires
        available.is_initialized(),
    ensures
        r@ == all_data_types().filter(time_filter()),
{
    filter_types(get_available_data_types(available), false)
}

/// Every fuzzer type is available, exactly once.
pub proof fn lemma_all_types_available(t: FuzzerDataType)
    ensures
        all_data_types().contains(t),
        all_data_types().no_duplicates(),
{
    let all = all_data_types();
    match t {
        FuzzerDataType::Int8 => assert(all[0] == t),
        FuzzerDataType::Int16 => assert(all[1] == t),
        FuzzerDataType::Int32 => assert(all[2] == t),
        FuzzerDataType::Int64 => assert(all[3] == t),
        FuzzerDataType::UInt8 => assert(all[4] == t),
        FuzzerDataType::UInt16 => assert(all[5] == t),
        FuzzerDataType::UInt32 => assert(all[6] == t),
        FuzzerDataType::UInt64 => assert(all[7] == t),
        FuzzerDataType::Float32 => assert(all[8] == t),
        FuzzerDataType::Float64 => assert(all[9] == t),
        FuzzerDataType::Boolean => assert(all[10] == t),
        FuzzerDataType::Decimal => assert(all[11] == t),
        FuzzerDataType::Date32 => assert(all[12] == t),
        FuzzerDataType::Time64Nanosecond => assert(all[13] == t),
        FuzzerDataType::Timestamp => assert(all[14] == t),
        FuzzerDataType::IntervalMonthDayNano => assert(all[15] == t),
        FuzzerDataType::String => assert(all[16] == t),
        FuzzerDataType::Int8Array => assert(all[17] == t),
        FuzzerDataType::Int32Array => assert(all[18] == t),
        FuzzerDataType::Int64Array => assert(all[19] == t),
    }
}

/// The numeric types are the eight integer types, the two float types and
/// Decimal, in that order; the temporal types are Date32, Time64Nanosecond,
/// Timestamp and IntervalMonthDayNano.
pub proof fn lemma_type_groups()
    ensures
        all_data_types().filter(numeric_filter()) == seq![
            FuzzerDataType::Int8,
            FuzzerDataType::Int16,
            FuzzerDataType::Int32,
            FuzzerDataType::Int64,
            FuzzerDataType::UInt8,
            FuzzerDataType::UInt16,
            FuzzerDataType::UInt32,
            FuzzerDataType::UInt64,
            FuzzerDataType::Float32,
            FuzzerDataType::Float64,
            FuzzerDataType::Decimal,
        ],
        all_data_types().filter(time_filter()) == seq![
            FuzzerDataType::Date32,
            FuzzerDataType::Time64Nanosecond,
            FuzzerDataType::Timestamp,
            FuzzerDataType::IntervalMonthDayNano,
        ],
{
    reveal_with_fuel(Seq::filter, 21);
    assert(all_data_types().filter(numeric_filter()) =~= seq![
        FuzzerDataType::Int8,
        FuzzerDataType::Int16,
        FuzzerDataType::Int32,
        FuzzerDataType::Int64,
        FuzzerDataType::UInt8,
        FuzzerDataType::UInt16,
        FuzzerDataType::UInt32,
        FuzzerDataType::UInt64,
        FuzzerDataType::Float32,
        FuzzerDataType::Float64,
        FuzzerDataType::Decimal,
    ]);
    assert(all_data_types().filter(time_filter()) =~= seq![
        FuzzerDataType::Date32,
        FuzzerDataType::Time64Nanosecond,
        FuzzerDataType::Timestamp,
        FuzzerDataType::IntervalMonthDayNano,
    ]);
}

} // verus!
