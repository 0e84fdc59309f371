//! The table-provider adapter: exposes one scannable relation over a
//! decoded source and accepts projection, filter and limit pushdown.
//!
//! The schema is inferred once at construction and cached; `scan`
//! builds the single-partition execution plan. Pushdown is reported as
//! inexact: pushed filters are applied, and the engine may add a
//! residual filter on top.

use vstd::prelude::*;

use crate::execution::FormatExecPlan;
use crate::schema::Schema;

verus! {

/// The relation kind this adapter exposes.
#[derive(Clone, Copy, Debug, PartialEq, Eq, Structural)]
pub enum TableType {
    Base,
}

/// How far a pushed filter is trusted.
#[derive(Clone, Copy, Debug, PartialEq, Eq, Structural)]
pub enum FilterPushDown {
    Unsupported,
    Inexact,
    Exact,
}

/// A scannable relation over one decoded input.
#[derive(Debug)]
pub struct FormatTableProvider {
    pub schema: Schema,
}

impl FormatTableProvider {
    /// Wrap a source whose schema was inferred at construction.
    pub fn new(schema: Schema) -> (r: FormatTableProvider)
        ensures
            r.schema@ == schema@,
    {
        FormatTableProvider { schema }
    }

    /// The cached schema; every call returns the same fields.
    pub fn schema(&self) -> (r: Schema)
        ensures
            r@ == self.schema@,
    {
        self.schema.clone()
    }

    /// The relation is a base table.
    pub fn table_type(&self) -> (r: TableType)
        ensures
            r == TableType::Base,
    {
        TableType::Base
    }

    /// Pushdown is inexact: pushed filters are applied, and the engine
    /// may re-apply them.
    pub fn supports_filter_pushdown(&self) -> (r: FilterPushDown)
        ensures
            r == FilterPushDown::Inexact,
    {
        FilterPushDown::Inexact
    }

    /// Build the execution plan for a scan with the given pushdowns.
    /// The limit is honored as an upper bound on rows returned.
    pub fn scan(&self, projection: Option<Vec<usize>>, limit: Option<usize>) -> (r: FormatExecPlan)
        ensures
            r.schema@ == self.schema@,
            r.projection == projection,
            r.limit == limit,
    {
        FormatExecPlan::new(self.schema.clone(), projection, limit)
    }
}

} // verus!
