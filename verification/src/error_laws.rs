//! What holds of the words of errors.
use vstd::prelude::*;

use crate::blob_reads::BlobReadError;
use crate::commands::CommandError;
use crate::lance::{FragmentScanError, IndexError};
use crate::numbers::decimal;
use crate::text::has_prefix;

verus! {

/// Whether a text ends with a part.
pub open spec fn ends_with(text: Seq<char>, part: Seq<char>) -> bool {
    text.len() >= part.len() && text.skip(text.len() - part.len()) == part
}

/// What the words of a refused command begin with: the option, setting or command that is at fault.
pub open spec fn cause_of(e: CommandError) -> Seq<char> {
    match e {
        CommandError::FragmentsOnlyScan => "engine lance-fragment "@,
        CommandError::NoBlobColumn => "--column "@,
        CommandError::NoNewColumn => "--new-column "@,
        CommandError::NoIndexColumns => "--columns "@,
        CommandError::IndexNeedsLance => "create-index "@,
        CommandError::NoFileVersions => "--lance-file-versions "@,
        CommandError::NoShards => "LAION_SHARDS "@,
    }
}

/// A refused command is told what is at fault.
pub proof fn law_refusals_name_the_cause(e: CommandError)
    ensures
        has_prefix(e.words(), cause_of(e)),
{
    reveal_strlit("engine lance-fragment ");
    reveal_strlit("--column ");
    reveal_strlit("--new-column ");
    reveal_strlit("--columns ");
    reveal_strlit("create-index ");
    reveal_strlit("--lance-file-versions ");
    reveal_strlit("LAION_SHARDS ");
    reveal_strlit("engine lance-fragment supports scan workloads only");
    reveal_strlit("--column is required for random-blob");
    reveal_strlit("--new-column is required for evolution-backfill");
    reveal_strlit("--columns must not be empty");
    reveal_strlit("create-index supports lance datasets only");
    reveal_strlit("--lance-file-versions must not be empty");
    reveal_strlit("LAION_SHARDS must be >= 1 (got 0)");
    assert(e.words().subrange(0, cause_of(e).len() as int) =~= cause_of(e));
}

/// A failed read tells the row that was asked for and how many rows there are, or how many rows came
/// and how many were asked for, each in its place; a missing column is named.
pub proof fn law_failed_reads_tell_their_numbers(e: BlobReadError, column: Seq<char>)
    ensures
        e matches BlobReadError::OutOfRange { row, rows } ==> has_prefix(
            e.words(column),
            "row offset "@ + decimal(row as nat) + " is outside parquet file"@,
        ) && ends_with(e.words(column), decimal(rows as nat) + " rows"@),
        e matches BlobReadError::OutsideGroup { row, row_group, rows } ==> has_prefix(
            e.words(column),
            "row offset "@ + decimal(row as nat) + " is outside row group "@ + decimal(
                row_group as nat,
            ),
        ) && ends_with(e.words(column), decimal(rows as nat) + " rows"@),
        e matches BlobReadError::WrongCount { got, wanted } ==> has_prefix(
            e.words(column),
            "parquet RowSelection returned "@ + decimal(got as nat) + " rows"@,
        ) && ends_with(e.words(column), decimal(wanted as nat) + " requested rows"@),
        e == BlobReadError::ColumnNotFound ==> ends_with(e.words(column), column),
{
    reveal_strlit(" is outside parquet file with ");
    reveal_strlit(" is outside parquet file");
    reveal_strlit(" rows for ");
    reveal_strlit(" rows");
    let text = e.words(column);
    match e {
        BlobReadError::OutOfRange { row, rows } => {
            let start = "row offset "@ + decimal(row as nat) + " is outside parquet file"@;
            let end = decimal(rows as nat) + " rows"@;
            assert(text.subrange(0, start.len() as int) =~= start);
            assert(text.skip(text.len() - end.len()) =~= end);
        },
        BlobReadError::OutsideGroup { row, row_group, rows } => {
            let start = "row offset "@ + decimal(row as nat) + " is outside row group "@ + decimal(
                row_group as nat,
            );
            let end = decimal(rows as nat) + " rows"@;
            assert(text.subrange(0, start.len() as int) =~= start);
            assert(text.skip(text.len() - end.len()) =~= end);
        },
        BlobReadError::WrongCount { got, wanted } => {
            let start = "parquet RowSelection returned "@ + decimal(got as nat) + " rows"@;
            let end = decimal(wanted as nat) + " requested rows"@;
            assert(text.subrange(0, start.len() as int) =~= start);
            assert(text.skip(text.len() - end.len()) =~= end);
        },
        BlobReadError::ColumnNotFound => {
            assert(text.skip(text.len() - column.len()) =~= column);
        },
        _ => {},
    }
}

/// A column that is missing from the schema, or from a projection that a filter needs, is named.
pub proof fn law_missing_columns_are_named(e: IndexError, f: FragmentScanError)
    ensures
        e matches IndexError::MissingColumn(column) && ends_with(e.words(), column@),
        f matches FragmentScanError::FilterColumnNotProjected(column) && ends_with(
            f.words(),
            column@,
        ),
{
    match e {
        IndexError::MissingColumn(column) => {
            assert(e.words().skip(e.words().len() - column@.len()) =~= column@);
        },
    }
    match f {
        FragmentScanError::FilterColumnNotProjected(column) => {
            assert(f.words().skip(f.words().len() - column@.len()) =~= column@);
        },
    }
}

} // verus!
