//! Decisions around database table initialization.
//!
//! Connecting, checking and mutating tables is the callers' work; this
//! module owns the decision of what to do with the target table and the
//! splitting of bundled query text.

use vstd::prelude::*;
use vstd::string::*;

use crate::text::spec_split;
use crate::text::split_str;

verus! {

/// How the target table of an import is to be set up.
pub struct TableInitializationArgs {
    pub table_name: String,
    pub create_table: bool,
    pub overwrite_table: bool,
}

/// Implemented by the commands' argument types to describe the table they
/// target.
pub trait ToTableInitializationArgs {
    fn to_table_initialization_args(&self) -> TableInitializationArgs;
}

/// What to do with the target table before an import.
#[derive(Clone, Copy, Debug, PartialEq, Eq, Structural)]
pub enum TableInitializationPlan {
    /// The table exists and is empty: use it as it stands.
    UseExistingTable,
    /// The table exists with rows and overwriting is allowed: truncate it.
    TruncateTable,
    /// The table does not exist and creating it is allowed.
    CreateTable,
    /// The table exists with rows and overwriting is not allowed.
    RefuseExistingRows,
    /// The table does not exist and creating it is not allowed.
    RefuseMissingTable,
}

/// The initialization decision, from what is known of the table and what
/// the caller allowed.
pub open spec fn spec_table_plan(
    table_exists: bool,
    table_empty: bool,
    create_table: bool,
    overwrite_table: bool,
) -> TableInitializationPlan {
    if table_exists {
        if table_empty {
            TableInitializationPlan::UseExistingTable
        } else if overwrite_table {
            TableInitializationPlan::TruncateTable
        } else {
            TableInitializationPlan::RefuseExistingRows
        }
    } else {
        if create_table {
            TableInitializationPlan::CreateTable
        } else {
            TableInitializationPlan::RefuseMissingTable
        }
    }
}

/// Decides what to do with the target table. The caller checks existence
/// and emptiness, performs the plan, and renders the refusals as errors.
pub fn plan_table_initialization(
    table_exists: bool,
    table_empty: bool,
    args: &TableInitializationArgs,
) -> (r: TableInitializationPlan)
    ensures
        r == spec_table_plan(table_exists, table_empty, args.create_table, args.overwrite_table),
{
    if table_exists {
        if table_empty {
            TableInitializationPlan::UseExistingTable
        } else if args.overwrite_table {
            TableInitializationPlan::TruncateTable
        } else {
            TableInitializationPlan::RefuseExistingRows
        }
    } else {
        if args.create_table {
            TableInitializationPlan::CreateTable
        } else {
            TableInitializationPlan::RefuseMissingTable
        }
    }
}

/// Splits bundled query text into the statements to run, cut at every
/// blank-line separator (three newlines).
pub fn split_queries(queries: &str) -> (r: Vec<String>)
    ensures
        r.deep_view() == spec_split(queries@, "\n\n\n"@),
{
    proof {
        reveal_strlit("\n\n\n");
    }
    split_str(queries, "\n\n\n")
}

} // verus!
