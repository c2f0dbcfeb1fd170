//! Logical tables: named collections of typed columns.
use vstd::prelude::*;
use crate::data_type::FuzzerDataType;

verus! {

#[derive(Debug, Clone)]
pub struct LogicalColumn {
    pub name: String,
    pub data_type: FuzzerDataType,
}

#[derive(Debug, Clone)]
pub struct LogicalTable {
    pub name: String,
    pub columns: Vec<LogicalColumn>,
}

/// What a logical table stands for: a base table, a view, or a subquery
/// with its SQL text.
#[derive(Debug, Clone)]
pub enum LogicalTableType {
    Table,
    View,
    Subquery(String),
}

impl LogicalTable {
    /// A table with the given name and no columns.
    pub fn new(name: String) -> (r: Self)
        ensures
            r.name == name,
            r.columns@.len() == 0,
    {
        LogicalTable { name, columns: Vec::new() }
    }

    /// A table with the given name and columns.
    pub fn with_columns(name: String, columns: Vec<LogicalColumn>) -> (r: Self)
        ensures
            r.name == name,
            r.columns == columns,
    {
        LogicalTable { name, columns }
    }
}

} // verus!
