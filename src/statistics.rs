//! Table statistics, known or explicitly unknown.

use crate::schema::{column_count, Schema};
use vstd::prelude::*;

verus! {

/// How much is known of a statistic.
#[derive(Clone, Copy, Debug, PartialEq, Eq, Structural)]
pub enum Precision {
    /// The exact value.
    Exact(usize),
    /// An estimate.
    Inexact(usize),
    /// Nothing is known.
    Absent,
}

/// Statistics of one column.
#[derive(Clone, Copy, Debug, PartialEq, Eq, Structural)]
pub struct ColumnStatistics {
    pub null_count: Precision,
    pub distinct_count: Precision,
}

impl ColumnStatistics {
    /// Whether nothing is known of the column.
    pub open spec fn is_unknown(self) -> bool {
        self.null_count is Absent && self.distinct_count is Absent
    }

    /// Statistics of a column of which nothing is known.
    pub fn new_unknown() -> (r: ColumnStatistics)
        ensures
            r.is_unknown(),
    {
        ColumnStatistics { null_count: Precision::Absent, distinct_count: Precision::Absent }
    }
}

/// Statistics of a table: its row count, its size in bytes and one entry per
/// column.
#[derive(Clone, Debug)]
pub struct Statistics {
    pub num_rows: Precision,
    pub total_byte_size: Precision,
    pub column_statistics: Vec<ColumnStatistics>,
}

impl Statistics {
    /// Whether these are the unknown statistics of a table of `n` columns.
    pub open spec fn is_unknown_with_columns(&self, n: nat) -> bool {
        &&& self.num_rows is Absent
        &&& self.total_byte_size is Absent
        &&& self.column_statistics@.len() == n
        &&& forall|k: int|
            0 <= k < n ==> (#[trigger] self.column_statistics@[k]).is_unknown()
    }

    /// Unknown statistics, with one unknown entry per top-level column of
    /// `schema`.
    pub fn new_unknown(schema: &Schema) -> (r: Statistics)
        ensures
            r.is_unknown_with_columns(column_count(schema@)),
    {
        let n = schema.num_columns();
        let mut columns: Vec<ColumnStatistics> = Vec::new();
        let mut i: usize = 0;
        while i < n
            invariant
                i <= n,
                columns@.len() == i,
                forall|k: int| 0 <= k < i ==> (#[trigger] columns@[k]).is_unknown(),
            decreases n - i,
        {
            columns.push(ColumnStatistics::new_unknown());
            i += 1;
        }
        Statistics {
            num_rows: Precision::Absent,
            total_byte_size: Precision::Absent,
            column_statistics: columns,
        }
    }

    /// Number of column entries.
    pub fn num_columns(&self) -> (r: usize)
        ensures
            r == self.column_statistics@.len(),
    {
        self.column_statistics.len()
    }
}

} // verus!
