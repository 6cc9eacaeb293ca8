//! Tables of text: rows of a CSV file, gathered into batches.
use std::sync::Arc;

use arrow_schema::{DataType, Field, Schema};
use vstd::prelude::*;

use crate::batches::{
    add_text, all_of_length, base_rows, batch_columns, batch_fields, batch_rows, is_typed,
    lemma_text_bytes, matches_kinds, new_batch, new_data, opt_views, takes, text_bytes, Batch,
    ColumnData, NewColumn, MAX_TEXT_BYTES,
};
use crate::fields::{
    field_kind, field_nullable, new_field, no_metadata, schema_fields, schema_metadata, schema_with,
    shared_fields, FieldKind,
};
use crate::numbers::{decimal, push_decimal};
use crate::paths::{join_path, path_join};
use crate::rows::BatchError;
use crate::schemas::is_text_field;
use crate::text::{
    chars_of, lemma_views_push, opt_view, string_from, text_eq, trim, trimmed, views,
};

verus! {

// ---------------------------------------------------------------------------
// Columns.
// ---------------------------------------------------------------------------

/// The name of a column: its header without blanks around it, or its number where that is empty.
pub open spec fn column_name(header: Seq<char>, at: nat) -> Seq<char> {
    if trimmed(header).len() == 0 {
        "col_"@ + decimal(at)
    } else {
        trimmed(header)
    }
}

/// The names of columns.
pub open spec fn column_names_of(headers: Seq<Seq<char>>) -> Seq<Seq<char>> {
    Seq::new(headers.len(), |i: int| column_name(headers[i], i as nat))
}

/// The names of columns.
pub fn column_names(headers: &Vec<String>) -> (names: Vec<String>)
    ensures
        views(names@) == column_names_of(views(headers@)),
{
    let mut names: Vec<String> = Vec::new();
    let ghost all = column_names_of(views(headers@));
    let mut i: usize = 0;
    assert(views(names@) =~= all.take(0));
    while i < headers.len()
        invariant
            i <= headers.len(),
            all == column_names_of(views(headers@)),
            views(names@) == all.take(i as int),
        decreases headers.len() - i,
    {
        let header = trim(headers[i].as_str());
        let name = if header.as_str().is_empty() {
            let mut name = "col_".to_owned();
            push_decimal(&mut name, i as u128);
            name
        } else {
            header
        };
        assert(name@ == all[i as int]);
        proof {
            lemma_views_push(names@, name);
        }
        names.push(name);
        i += 1;
        assert(views(names@) =~= all.take(i as int));
    }
    assert(all.take(i as int) =~= all);
    names
}

/// The schema of a table of text: every column may have missing values.
pub fn text_schema(names: &Vec<String>) -> (schema: Arc<Schema>)
    ensures
        schema_fields(*schema).len() == names@.len(),
        forall|i: int|
            0 <= i < names@.len() ==> is_text_field(
                #[trigger] schema_fields(*schema)[i],
                names@[i]@,
                true,
            ),
        schema_metadata(*schema) == no_metadata(),
{
    let mut fields: Vec<Field> = Vec::new();
    let mut i: usize = 0;
    while i < names.len()
        invariant
            i <= names.len(),
            fields.len() == i,
            forall|k: int|
                0 <= k < i ==> is_text_field(#[trigger] fields@[k], names@[k]@, true),
        decreases names.len() - i,
    {
        fields.push(new_field(names[i].as_str(), FieldKind::Utf8, true));
        i += 1;
    }
    schema_with(fields)
}

// ---------------------------------------------------------------------------
// Where a table goes.
// ---------------------------------------------------------------------------

/// Where a converted table goes: its directory, the file, and the file while it is written.
#[derive(Debug, Clone, PartialEq, Eq)]
pub struct TableTarget {
    pub dir: String,
    pub file: String,
    pub partial: String,
}

/// Whether a path names the Parquet file itself.
pub open spec fn names_file(out: Seq<char>) -> bool {
    out.len() >= 8 && out.skip(out.len() - 8) == ".parquet"@
}

/// The position of the last separator, or -1.
pub open spec fn last_slash(path: Seq<char>) -> int
    decreases path.len(),
{
    if path.len() == 0 {
        -1
    } else if path.last() == '/' {
        path.len() - 1
    } else {
        last_slash(path.drop_last())
    }
}

/// The directory of a file; none for a bare name.
pub open spec fn directory_of(path: Seq<char>) -> Seq<char> {
    if last_slash(path) == 0 {
        path.take(1)
    } else if last_slash(path) < 0 {
        Seq::empty()
    } else {
        path.take(last_slash(path))
    }
}

/// The file of a converted table.
pub open spec fn table_file(out: Seq<char>) -> Seq<char> {
    if names_file(out) {
        out
    } else {
        path_join(out, "openvid.parquet"@)
    }
}

/// Where a converted table goes, for a directory or for the Parquet file itself.
pub fn table_target(out: &str) -> (target: TableTarget)
    ensures
        target.file@ == table_file(out@),
        target.dir@ == if names_file(out@) {
            directory_of(out@)
        } else {
            out@
        },
        target.partial@ == table_file(out@) + ".tmp"@,
{
    let chars = chars_of(out);
    let n: usize = chars.len();
    let named = n >= 8 && text_eq(string_from(&chars, n - 8, n).as_str(), ".parquet");
    proof {
        if n >= 8 {
            assert(chars@.subrange(n - 8, n as int) =~= out@.skip(n - 8));
        }
    }
    let (dir, file) = if named {
        let mut at: usize = n;
        assert(chars@.take(n as int) =~= chars@);
        while at > 0 && chars[at - 1] != '/'
            invariant
                at <= n,
                n == chars@.len(),
                last_slash(chars@) == last_slash(chars@.take(at as int)),
            decreases at,
        {
            assert(chars@.take(at as int).drop_last() =~= chars@.take(at - 1));
            at -= 1;
        }
        assert(last_slash(chars@) == at - 1);
        let end: usize = if at == 0 {
            0
        } else if at == 1 {
            1
        } else {
            at - 1
        };
        let dir = string_from(&chars, 0, end);
        assert(dir@ =~= directory_of(out@));
        (dir, out.to_owned())
    } else {
        (out.to_owned(), join_path(out, "openvid.parquet"))
    };
    let mut partial = file.clone();
    partial.append(".tmp");
    TableTarget { dir, file, partial }
}

// ---------------------------------------------------------------------------
// Rows.
// ---------------------------------------------------------------------------

/// The value of a row in a column; an empty text and one that is not there count as missing.
pub open spec fn cell_of(record: Seq<Seq<char>>, at: int) -> Option<Seq<char>> {
    if 0 <= at < record.len() && record[at].len() > 0 {
        Some(record[at])
    } else {
        None
    }
}

/// The values of a record in so many columns.
pub open spec fn row_of(record: Seq<Seq<char>>, width: nat) -> Seq<Option<Seq<char>>> {
    Seq::new(width, |at: int| cell_of(record, at))
}

/// A column of some rows.
pub open spec fn column_of(rows: Seq<Seq<Option<Seq<char>>>>, at: int) -> Seq<Option<Seq<char>>> {
    Seq::new(rows.len(), |r: int| rows[r][at])
}

/// The columns of some rows.
pub open spec fn columns_of(
    rows: Seq<Seq<Option<Seq<char>>>>,
    width: nat,
) -> Seq<Seq<Option<Seq<char>>>> {
    Seq::new(width, |at: int| column_of(rows, at))
}

/// What comes after a row.
#[derive(Debug, Clone, Copy, PartialEq, Eq, Structural)]
pub enum CsvStep {
    /// The next row.
    More,
    /// A batch of the rows so far, then the next row.
    Flush,
    /// No more rows.
    Stop,
}

/// What comes after a row, with so many rows taken in all and in the batch.
pub open spec fn step_after(
    total: nat,
    in_batch: nat,
    limit: Option<u64>,
    batch_size: usize,
) -> CsvStep {
    if limit matches Some(n) && total >= n {
        CsvStep::Stop
    } else if in_batch >= batch_size {
        CsvStep::Flush
    } else {
        CsvStep::More
    }
}

/// Gathers rows into batches.
pub struct CsvBatcher {
    columns: Vec<Vec<Option<String>>>,
    rows_in_batch: usize,
    total_rows: u64,
    limit_rows: Option<u64>,
    batch_size: usize,
    pending: Ghost<Seq<Seq<Option<Seq<char>>>>>,
}

impl CsvBatcher {
    /// Whether the columns hold the pending rows.
    pub closed spec fn well_formed(self) -> bool {
        &&& self.rows_in_batch == self.pending@.len()
        &&& forall|at: int|
            0 <= at < self.columns@.len() ==> opt_views((#[trigger] self.columns@[at])@)
                == column_of(self.pending@, at)
    }

    /// The rows that are not in a batch yet.
    pub closed spec fn pending(self) -> Seq<Seq<Option<Seq<char>>>> {
        self.pending@
    }

    /// The number of columns.
    pub closed spec fn width(self) -> nat {
        self.columns@.len()
    }

    /// How many rows were taken.
    pub closed spec fn total(self) -> u64 {
        self.total_rows
    }

    /// How many rows are taken at most.
    pub closed spec fn limit(self) -> Option<u64> {
        self.limit_rows
    }

    /// How many rows make a batch.
    pub closed spec fn size(self) -> usize {
        self.batch_size
    }

    /// No rows yet.
    pub fn new(width: usize, limit_rows: Option<u64>, batch_size: usize) -> (batcher: CsvBatcher)
        ensures
            batcher.well_formed(),
            batcher.width() == width,
            batcher.pending().len() == 0,
            batcher.total() == 0,
            batcher.limit() == limit_rows,
            batcher.size() == batch_size,
    {
        CsvBatcher {
            columns: empty_columns(width),
            rows_in_batch: 0,
            total_rows: 0,
            limit_rows,
            batch_size,
            pending: Ghost(Seq::empty()),
        }
    }

    /// Takes one row.
    pub fn push_record(&mut self, record: &Vec<String>) -> (step: CsvStep)
        requires
            old(self).well_formed(),
            old(self).total() < u64::MAX,
            old(self).pending().len() < usize::MAX,
        ensures
            final(self).well_formed(),
            final(self).width() == old(self).width(),
            final(self).limit() == old(self).limit(),
            final(self).size() == old(self).size(),
            final(self).pending() == old(self).pending().push(
                row_of(views(record@), old(self).width()),
            ),
            final(self).total() == old(self).total() + 1,
            step == step_after(
                final(self).total() as nat,
                final(self).pending().len(),
                old(self).limit(),
                old(self).size(),
            ),
    {
        let ghost before = self.pending@;
        let ghost width = self.columns@.len();
        let ghost row = row_of(views(record@), width);
        let ghost rows = before.push(row);
        let mut columns: Vec<Vec<Option<String>>> = Vec::new();
        std::mem::swap(&mut columns, &mut self.columns);
        let mut next: Vec<Vec<Option<String>>> = Vec::new();
        let ghost source = columns@;
        for column in it: columns
            invariant
                it.seq() == source,
                source.len() == width,
                row == row_of(views(record@), width),
                rows == before.push(row),
                next@.len() == it.index(),
                forall|at: int|
                    0 <= at < source.len() ==> opt_views((#[trigger] source[at])@) == column_of(
                        before,
                        at,
                    ),
                forall|at: int|
                    0 <= at < next@.len() ==> opt_views((#[trigger] next@[at])@) == column_of(
                        rows,
                        at,
                    ),
        {
            let at: usize = next.len();
            let cell = if at < record.len() && !record[at].as_str().is_empty() {
                Some(record[at].clone())
            } else {
                None
            };
            assert(column == source[at as int]);
            let mut column = column;
            let ghost old_column = column@;
            column.push(cell);
            assert(opt_view(cell) == row[at as int]);
            assert(opt_views(column@) =~= column_of(rows, at as int)) by {
                assert(opt_views(old_column) == column_of(before, at as int));
                assert forall|r: int| 0 <= r < rows.len() implies opt_views(column@)[r]
                    == column_of(rows, at as int)[r] by {
                    if r < before.len() {
                        assert(opt_views(old_column)[r] == column_of(before, at as int)[r]);
                    }
                }
                assert(opt_views(column@).len() == opt_views(old_column).len() + 1);
            }
            next.push(column);
        }
        self.columns = next;
        self.rows_in_batch = self.rows_in_batch + 1;
        self.total_rows = self.total_rows + 1;
        self.pending = Ghost(rows);
        let stop = match self.limit_rows {
            Some(limit) => self.total_rows >= limit,
            None => false,
        };
        if stop {
            CsvStep::Stop
        } else if self.rows_in_batch >= self.batch_size {
            CsvStep::Flush
        } else {
            CsvStep::More
        }
    }

    /// Whether rows are pending.
    pub fn has_rows(&self) -> (any: bool)
        requires
            self.well_formed(),
        ensures
            any == (self.pending().len() > 0),
    {
        self.rows_in_batch > 0
    }

    /// Whether the pending rows are few enough for one batch.
    pub fn texts_fit(&self) -> (fit: bool)
        requires
            self.well_formed(),
        ensures
            fit == columns_fit(columns_of(self.pending(), self.width())),
    {
        let ghost all = columns_of(self.pending@, self.columns@.len());
        let mut i: usize = 0;
        while i < self.columns.len()
            invariant
                i <= self.columns.len(),
                all == columns_of(self.pending@, self.columns@.len()),
                forall|at: int|
                    0 <= at < self.columns@.len() ==> opt_views((#[trigger] self.columns@[at])@)
                        == column_of(self.pending@, at),
                forall|at: int|
                    0 <= at < i ==> text_bytes(#[trigger] all[at]) <= MAX_TEXT_BYTES,
            decreases self.columns.len() - i,
        {
            assert(all[i as int] == opt_views(self.columns@[i as int]@));
            if !column_fits(&self.columns[i]) {
                return false;
            }
            i += 1;
        }
        true
    }

    /// Makes a batch of the pending rows. They are gone then, whether or not it could be made.
    pub fn flush(&mut self, schema: &Arc<Schema>) -> (out: Result<Batch, BatchError>)
        requires
            old(self).well_formed(),
            columns_fit(columns_of(old(self).pending(), old(self).width())),
        ensures
            final(self).well_formed(),
            final(self).width() == old(self).width(),
            final(self).limit() == old(self).limit(),
            final(self).size() == old(self).size(),
            final(self).total() == old(self).total(),
            final(self).pending().len() == 0,
            match out {
                Ok(o) => {
                    &&& takes_text(
                        schema_fields(**schema),
                        columns_of(old(self).pending(), old(self).width()),
                    )
                    &&& batch_rows(o) == old(self).pending().len()
                    &&& batch_fields(o) == schema_fields(**schema) && is_typed(o)
                    &&& batch_columns(o) == text_columns(
                        columns_of(old(self).pending(), old(self).width()),
                    )
                },
                Err(e) => e is Arrow && !takes_text(
                    schema_fields(**schema),
                    columns_of(old(self).pending(), old(self).width()),
                ),
            },
    {
        let ghost rows = self.pending@;
        let ghost width = self.columns@.len();
        let fresh = empty_columns(self.columns.len());
        let mut columns = fresh;
        std::mem::swap(&mut columns, &mut self.columns);
        self.rows_in_batch = 0;
        self.pending = Ghost(Seq::empty());
        let ghost source = columns@;
        let mut texts: Vec<NewColumn> = Vec::new();
        for column in it: columns
            invariant
                it.seq() == source,
                source.len() == width,
                texts@.len() == it.index(),
                columns_fit(columns_of(rows, width)),
                forall|at: int|
                    0 <= at < source.len() ==> opt_views((#[trigger] source[at])@) == column_of(
                        rows,
                        at,
                    ),
                forall|at: int|
                    0 <= at < texts@.len() ==> is_text_of(#[trigger] texts@[at], column_of(rows, at)),
        {
            assert(column == source[texts@.len() as int]);
            texts.push(NewColumn::Text(column));
        }
        proof {
            let all = columns_of(rows, width);
            assert forall|at: int| 0 <= at < texts@.len() implies (#[trigger] texts@[at]).rows()
                == rows.len() && texts@[at].is_small() by {
                assert(is_text_of(texts@[at], column_of(rows, at)));
                assert(opt_views(texts@[at]->Text_0@).len() == texts@[at].rows());
                assert(text_bytes(all[at]) <= MAX_TEXT_BYTES);
            }
            assert(all_of_length(texts@, base_rows(None, texts@)));
            assert(Seq::<ColumnData>::empty() + new_data(texts@) =~= text_columns(all)) by {
                assert forall|at: int| 0 <= at < width implies new_data(texts@)[at] == text_columns(
                    all,
                )[at] by {
                    assert(is_text_of(texts@[at], column_of(rows, at)));
                }
            }
            let fields = shared_fields(schema);
            assert forall|i: int| 0 <= i < texts@.len() implies (#[trigger] texts@[i]).kind()
                == FieldKind::Utf8 && (texts@[i].is_full() <==> !all[i].contains(None)) by {
                assert(is_text_of(texts@[i], column_of(rows, i)));
                lemma_full(texts@[i]->Text_0@);
            }
            assert(takes_text(fields, all) <==> matches_kinds(
                fields,
                Seq::<DataType>::empty(),
                texts@,
            )) by {
                if takes_text(fields, all) {
                    assert forall|i: int| 0 <= i < texts@.len() implies takes(
                        fields[0 + i],
                        #[trigger] texts@[i],
                    ) by {
                        assert(field_kind(fields[i]) == FieldKind::Utf8);
                    }
                }
                if matches_kinds(fields, Seq::<DataType>::empty(), texts@) {
                    assert forall|i: int| 0 <= i < fields.len() implies field_kind(
                        #[trigger] fields[i],
                    ) == FieldKind::Utf8 && (field_nullable(fields[i]) || !all[i].contains(None)) by {
                        assert(takes(fields[0 + i], texts@[i]));
                    }
                }
            }
        }
        match new_batch(None, schema, texts) {
            Ok(o) => Ok(o),
            Err(e) => Err(BatchError::Arrow(e)),
        }
    }
}

proof fn lemma_full(values: Seq<Option<String>>)
    ensures
        opt_views(values).contains(None) <==> exists|i: int|
            0 <= i < values.len() && #[trigger] values[i] is None,
{
    if opt_views(values).contains(None) {
        let i = choose|i: int| 0 <= i < values.len() && opt_views(values)[i] is None;
        assert(values[i] is None);
    }
    if exists|i: int| 0 <= i < values.len() && #[trigger] values[i] is None {
        let i = choose|i: int| 0 <= i < values.len() && #[trigger] values[i] is None;
        assert(opt_views(values)[i] == None::<Seq<char>>);
    }
}

spec fn is_text_of(column: NewColumn, texts: Seq<Option<Seq<char>>>) -> bool {
    column matches NewColumn::Text(values) && opt_views(values@) == texts
}

/// Columns of text.
pub open spec fn text_columns(columns: Seq<Seq<Option<Seq<char>>>>) -> Seq<ColumnData> {
    Seq::new(columns.len(), |at: int| ColumnData::Text(columns[at]))
}

/// Whether the texts of each column are few enough for one batch.
pub open spec fn columns_fit(columns: Seq<Seq<Option<Seq<char>>>>) -> bool {
    forall|at: int| 0 <= at < columns.len() ==> text_bytes(#[trigger] columns[at]) <= MAX_TEXT_BYTES
}

/// Whether fields are those of some columns of text, at least one. What is missing in a column may
/// be missing in its field.
pub open spec fn takes_text(fields: Seq<Field>, columns: Seq<Seq<Option<Seq<char>>>>) -> bool {
    &&& fields.len() == columns.len()
    &&& fields.len() > 0
    &&& forall|i: int|
        0 <= i < fields.len() ==> field_kind(#[trigger] fields[i]) == FieldKind::Utf8 && (
        field_nullable(fields[i]) || !columns[i].contains(None))
}

fn column_fits(texts: &Vec<Option<String>>) -> (fit: bool)
    ensures
        fit == (text_bytes(opt_views(texts@)) <= MAX_TEXT_BYTES),
{
    let ghost all = opt_views(texts@);
    let mut total: u64 = 0;
    let mut i: usize = 0;
    assert(all.take(0) =~= Seq::<Option<Seq<char>>>::empty());
    while i < texts.len()
        invariant
            i <= texts.len(),
            all == opt_views(texts@),
            total <= MAX_TEXT_BYTES,
            total == text_bytes(all.take(i as int)),
        decreases texts.len() - i,
    {
        proof {
            let next = all.take(i + 1);
            assert(next.drop_last() =~= all.take(i as int));
            assert(next.last() == opt_view(texts@[i as int]));
            lemma_text_bytes(all, i + 1);
        }
        match add_text(total, &texts[i]) {
            Some(sum) => {
                total = sum;
            },
            None => {
                return false;
            },
        }
        i += 1;
    }
    assert(all.take(i as int) =~= all);
    true
}

fn empty_columns(width: usize) -> (columns: Vec<Vec<Option<String>>>)
    ensures
        columns@.len() == width,
        forall|at: int|
            0 <= at < columns@.len() ==> opt_views((#[trigger] columns@[at])@) == column_of(
                Seq::empty(),
                at,
            ),
{
    let mut columns: Vec<Vec<Option<String>>> = Vec::new();
    let mut i: usize = 0;
    while i < width
        invariant
            i <= width,
            columns@.len() == i,
            forall|at: int|
                0 <= at < columns@.len() ==> opt_views((#[trigger] columns@[at])@) == column_of(
                    Seq::empty(),
                    at,
                ),
        decreases width - i,
    {
        let column: Vec<Option<String>> = Vec::new();
        assert(opt_views(column@) =~= column_of(Seq::empty(), i as int));
        columns.push(column);
        i += 1;
    }
    columns
}

// ---------------------------------------------------------------------------
// All rows of a table.
// ---------------------------------------------------------------------------

/// How far a table was taken.
pub struct CsvProgress<T> {
    pub batches: Seq<Seq<T>>,
    pub pending: Seq<T>,
    pub total: nat,
    pub stopped: bool,
}

/// How far a table is taken, row by row: each batch is made when it is asked for, and nothing is
/// taken after a stop.
pub open spec fn taken<T>(rows: Seq<T>, limit: Option<u64>, batch_size: usize) -> CsvProgress<T>
    decreases rows.len(),
{
    if rows.len() == 0 {
        CsvProgress { batches: Seq::empty(), pending: Seq::empty(), total: 0, stopped: false }
    } else {
        let before = taken(rows.drop_last(), limit, batch_size);
        let pending = before.pending.push(rows.last());
        let total = before.total + 1;
        if before.stopped {
            before
        } else {
            match step_after(total, pending.len(), limit, batch_size) {
                CsvStep::Stop => CsvProgress {
                    batches: before.batches,
                    pending,
                    total,
                    stopped: true,
                },
                CsvStep::Flush => CsvProgress {
                    batches: before.batches.push(pending),
                    pending: Seq::empty(),
                    total,
                    stopped: false,
                },
                CsvStep::More => CsvProgress {
                    batches: before.batches,
                    pending,
                    total,
                    stopped: false,
                },
            }
        }
    }
}

/// The rows of batches, one after the other.
pub open spec fn rows_in<T>(batches: Seq<Seq<T>>) -> Seq<T>
    decreases batches.len(),
{
    if batches.len() == 0 {
        Seq::empty()
    } else {
        rows_in(batches.drop_last()) + batches.last()
    }
}

/// How many rows are kept: all, or up to the limit, but never none of some.
pub open spec fn rows_kept(n: nat, limit: Option<u64>) -> nat {
    match limit {
        Some(m) => if n <= m {
            n
        } else if m == 0 {
            1
        } else {
            m as nat
        },
        None => n,
    }
}

/// The batches hold the rows up to the limit, each once and in order. A limit of zero still takes
/// the first row.
pub proof fn law_rows_are_kept<T>(rows: Seq<T>, limit: Option<u64>, batch_size: usize)
    ensures
        rows_in(taken(rows, limit, batch_size).batches) + taken(rows, limit, batch_size).pending
            == rows.take(rows_kept(rows.len(), limit) as int),
        taken(rows, limit, batch_size).total == rows_kept(rows.len(), limit),
        taken(rows, limit, batch_size).stopped <==> (limit matches Some(m) && rows.len() > 0
            && rows.len() >= m),
    decreases rows.len(),
{
    let now = taken(rows, limit, batch_size);
    if rows.len() == 0 {
        assert(rows_in(now.batches) + now.pending =~= rows.take(0));
    } else {
        let front = rows.drop_last();
        let before = taken(front, limit, batch_size);
        law_rows_are_kept(front, limit, batch_size);
        let n = rows_kept(front.len(), limit);
        if before.stopped {
            assert(front.take(n as int) =~= rows.take(rows_kept(rows.len(), limit) as int));
        } else {
            assert(n == front.len());
            assert(front.take(n as int) =~= front);
            let pending = before.pending.push(rows.last());
            assert(rows_in(before.batches) + pending =~= (rows_in(before.batches)
                + before.pending).push(rows.last()));
            assert(front.push(rows.last()) =~= rows);
            assert(rows.take(rows.len() as int) =~= rows);
            if step_after(before.total + 1, pending.len(), limit, batch_size) == CsvStep::Flush {
                assert(now.batches.drop_last() =~= before.batches);
                assert(rows_in(now.batches) + now.pending =~= rows_in(before.batches) + pending);
            }
        }
    }
}

/// Every batch but the last has as many rows as asked for, and at least one; the last has no more.
pub proof fn law_batches_are_even<T>(rows: Seq<T>, limit: Option<u64>, batch_size: usize)
    ensures
        ({
            let now = taken(rows, limit, batch_size);
            let size = if batch_size == 0 {
                1nat
            } else {
                batch_size as nat
            };
            &&& forall|i: int|
                0 <= i < now.batches.len() ==> (#[trigger] now.batches[i]).len() == size
            &&& now.pending.len() <= size
            &&& !now.stopped ==> now.pending.len() < size
        }),
    decreases rows.len(),
{
    if rows.len() > 0 {
        law_batches_are_even(rows.drop_last(), limit, batch_size);
    }
}

} // verus!
