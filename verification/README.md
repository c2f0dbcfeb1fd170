# datafusion_fuzzer

The value and type model of a SQL fuzzer for DataFusion, written in Verus.

- `src/data_type.rs`: the fuzzer's logical types, their names, SQL types and
  Arrow types (as the plain enum `ArrowType`), with the round-trip law.
- `src/registry.rs`: the set of types offered, and its numeric and temporal
  groups.
- `src/table.rs`: logical tables and columns.
- `src/text.rs`: decimal and zero-padded integer text, joining, quote
  escaping.
- `src/calendar.rs`: dates, times and timestamps from day and nanosecond
  counts, with the calendar laws.
- `src/value.rs`: generated values, their SQL literals and scalar form.
- `src/generator.rs`: random values drawn with `rand`'s `StdRng`.
- `app/`: DataFusion's `DataType` and `ScalarValue` conversions, the
  process-wide type registry, errors, and the floating-point parts.
