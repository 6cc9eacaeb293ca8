//! Row filters.
use vstd::prelude::*;

use crate::numbers::{decimal, push_decimal};

verus! {

/// A predicate on rows.
#[derive(Debug, Clone, PartialEq, Eq)]
pub enum Filter {
    LtU64 { column: String, value: u64 },
}

impl Filter {
    /// Rows whose `column` is less than `value`.
    pub fn lt_u64(column: String, value: u64) -> (filter: Filter)
        ensures
            filter == (Filter::LtU64 { column, value }),
    {
        Filter::LtU64 { column, value }
    }

    /// The column that the predicate reads.
    pub open spec fn column_name(self) -> Seq<char> {
        match self {
            Filter::LtU64 { column, .. } => column@,
        }
    }

    /// The bound of the predicate.
    pub open spec fn bound(self) -> u64 {
        match self {
            Filter::LtU64 { value, .. } => value,
        }
    }

    /// The predicate as SQL.
    pub open spec fn sql(self) -> Seq<char> {
        self.column_name() + " < "@ + decimal(self.bound() as nat)
    }

    /// The predicate as SQL.
    pub fn sql_text(&self) -> (out: String)
        ensures
            out@ == self.sql(),
    {
        match self {
            Filter::LtU64 { column, value } => {
                let mut out = column.clone();
                out.append(" < ");
                push_decimal(&mut out, *value as u128);
                out
            },
        }
    }
}

} // verus!
