//! Web datasets: archives in which the files of one row follow each other.
use std::sync::Arc;

use arrow_schema::{DataType, Field, Schema};
use vstd::prelude::*;
use vstd::utf8::{decode_utf8, encode_utf8_decode_utf8, valid_utf8};

use crate::batches::{
    add_text, batch_columns, batch_fields, batch_rows, is_typed, lemma_text_bytes, matches_kinds,
    new_batch, new_data, opt_bytes, opt_bytes_views, opt_views, takes, text_bytes, Batch,
    ColumnData, NewColumn, MAX_TEXT_BYTES,
};
use crate::fields::{field_kind, field_nullable, schema_fields, shared_fields, FieldKind};
use crate::readers::min_nat;
use crate::records::text_from_utf8;
use crate::rows::BatchError;
use crate::text::{chars_of, opt_view, string_from, text_eq};

verus! {

/// A row of a web dataset.
#[derive(Debug)]
pub struct WebRow {
    pub key: String,
    pub caption: Option<String>,
    pub image: Option<Vec<u8>>,
    pub image_ext: Option<String>,
}

/// The contents of a [`WebRow`].
#[verifier::ext_equal]
pub struct WebRowView {
    pub key: Seq<char>,
    pub caption: Option<Seq<char>>,
    pub image: Option<Seq<u8>>,
    pub image_ext: Option<Seq<char>>,
}

impl View for WebRow {
    type V = WebRowView;

    open spec fn view(&self) -> WebRowView {
        WebRowView {
            key: self.key@,
            caption: opt_view(self.caption),
            image: opt_bytes(self.image),
            image_ext: opt_view(self.image_ext),
        }
    }
}

// ---------------------------------------------------------------------------
// Entry names.
// ---------------------------------------------------------------------------

/// The position of the last dot, or -1.
pub open spec fn last_dot_at(name: Seq<char>) -> int
    decreases name.len(),
{
    if name.len() == 0 {
        -1
    } else if name.last() == '.' {
        name.len() - 1
    } else {
        last_dot_at(name.drop_last())
    }
}

/// An ASCII letter in lower case.
pub open spec fn lower(c: char) -> char {
    if 'A' <= c && c <= 'Z' {
        (c as u32 + 32) as char
    } else {
        c
    }
}

/// A text with ASCII letters in lower case.
pub open spec fn lowered(s: Seq<char>) -> Seq<char> {
    Seq::new(s.len(), |i: int| lower(s[i]))
}

/// The key and the file type of an entry, split at the last dot. Both have to be there.
pub open spec fn entry_parts(name: Seq<char>) -> Option<(Seq<char>, Seq<char>)> {
    let at = last_dot_at(name);
    if at <= 0 || at == name.len() - 1 {
        None
    } else {
        Some((name.take(at), lowered(name.skip(at + 1))))
    }
}

fn lower_char(c: char) -> (out: char)
    ensures
        out == lower(c),
{
    if 'A' <= c && c <= 'Z' {
        (c as u8 + 32) as char
    } else {
        c
    }
}

/// The key and the file type of an entry.
pub fn parse_webdataset_entry_name(name: &str) -> (parts: Option<(String, String)>)
    ensures
        match parts {
            Some(p) => entry_parts(name@) == Some((p.0@, p.1@)),
            None => entry_parts(name@) is None,
        },
{
    let chars = chars_of(name);
    let mut at: usize = chars.len();
    assert(chars@.take(chars@.len() as int) =~= chars@);
    while at > 0 && chars[at - 1] != '.'
        invariant
            at <= chars.len(),
            chars@ == name@,
            last_dot_at(chars@) == last_dot_at(chars@.take(at as int)),
        decreases at,
    {
        assert(chars@.take(at as int).drop_last() =~= chars@.take(at as int - 1));
        at -= 1;
    }
    assert(at == last_dot_at(name@) + 1);
    if at <= 1 || at == chars.len() {
        return None;
    }
    let key = string_from(&chars, 0, at - 1);
    assert(key@ =~= name@.take(at as int - 1));
    let mut ext = String::new();
    let mut i: usize = at;
    while i < chars.len()
        invariant
            at <= i <= chars.len(),
            chars@ == name@,
            ext@ == lowered(name@.skip(at as int)).take(i - at),
        decreases chars.len() - i,
    {
        ext.push(lower_char(chars[i]));
        i += 1;
        assert(ext@ =~= lowered(name@.skip(at as int)).take(i - at));
    }
    assert(ext@ =~= lowered(name@.skip(at as int)));
    Some((key, ext))
}

// ---------------------------------------------------------------------------
// Rows.
// ---------------------------------------------------------------------------

/// Puts the files of an archive together to rows.
#[derive(Debug)]
pub struct WebAssembler {
    /// How many rows may still be handed out.
    pub remaining_rows: Option<u64>,
    pub key: Option<String>,
    pub caption: Option<String>,
    pub image: Option<Vec<u8>>,
    pub image_ext: Option<String>,
}

/// The contents of a [`WebAssembler`].
#[verifier::ext_equal]
pub struct WebState {
    pub remaining: Option<u64>,
    pub key: Option<Seq<char>>,
    pub caption: Option<Seq<char>>,
    pub image: Option<Seq<u8>>,
    pub image_ext: Option<Seq<char>>,
}

impl View for WebAssembler {
    type V = WebState;

    open spec fn view(&self) -> WebState {
        WebState {
            remaining: self.remaining_rows,
            key: opt_view(self.key),
            caption: opt_view(self.caption),
            image: opt_bytes(self.image),
            image_ext: opt_view(self.image_ext),
        }
    }
}

/// The state and the row that are left when the current row ends. No row comes out where the limit
/// is reached or no row has begun.
pub open spec fn flushed(s: WebState) -> (WebState, Option<WebRowView>) {
    match s.key {
        Some(key) if s.remaining != Some(0u64) => (
            WebState {
                remaining: match s.remaining {
                    Some(r) => Some((r - 1) as u64),
                    None => None,
                },
                key: None,
                caption: None,
                image: None,
                image_ext: None,
            },
            Some(
                WebRowView {
                    key,
                    caption: s.caption,
                    image: s.image,
                    image_ext: s.image_ext,
                },
            ),
        ),
        _ => (s, None),
    }
}

/// The state and the row when an entry of some key begins: another key ends the current row.
pub open spec fn entered(s: WebState, key: Seq<char>) -> (WebState, Option<WebRowView>) {
    if s.key == Some(key) {
        (s, None)
    } else {
        let (after, row) = flushed(s);
        (WebState { key: Some(key), ..after }, row)
    }
}

/// The text that bytes encode, or no text.
pub open spec fn text_or_empty(data: Seq<u8>) -> Seq<char> {
    if valid_utf8(data) {
        decode_utf8(data)
    } else {
        Seq::empty()
    }
}

/// The state when the data of an entry were read: text is the caption, pictures are the image.
pub open spec fn filled(s: WebState, ext: Seq<char>, data: Seq<u8>) -> WebState {
    if ext == "txt"@ {
        WebState { caption: Some(text_or_empty(data)), ..s }
    } else if ext == "jpg"@ || ext == "jpeg"@ || ext == "png"@ || ext == "webp"@ {
        WebState { image: Some(data), image_ext: Some(ext), ..s }
    } else {
        s
    }
}

/// What to do with an entry.
#[derive(Debug)]
pub enum EntryStep {
    /// Leave it out: its name says nothing.
    Skip,
    /// Read it as data of the file type; where a row ended, hand that out first.
    Read { ext: String, row: Option<WebRow> },
}

/// The contents of an optional row.
pub open spec fn row_view(row: Option<WebRow>) -> Option<WebRowView> {
    match row {
        Some(r) => Some(r@),
        None => None,
    }
}

impl WebAssembler {
    /// Begins, with a limit on the rows.
    pub fn new(remaining_rows: Option<u64>) -> (w: WebAssembler)
        ensures
            w@ == (WebState {
                remaining: remaining_rows,
                key: None,
                caption: None,
                image: None,
                image_ext: None,
            }),
    {
        WebAssembler { remaining_rows, key: None, caption: None, image: None, image_ext: None }
    }

    /// Whether the limit leaves room for another row.
    pub fn wants_more(&self) -> (yes: bool)
        ensures
            yes == (self@.remaining != Some(0u64)),
    {
        match self.remaining_rows {
            Some(r) => r != 0,
            None => true,
        }
    }

    /// Ends the current row.
    pub fn flush(&mut self) -> (row: Option<WebRow>)
        ensures
            (final(self)@, row_view(row)) == flushed(old(self)@),
    {
        if !self.wants_more() {
            return None;
        }
        match self.key.take() {
            Some(key) => {
                let row = WebRow {
                    key,
                    caption: self.caption.take(),
                    image: self.image.take(),
                    image_ext: self.image_ext.take(),
                };
                self.remaining_rows = match self.remaining_rows {
                    Some(r) => Some(r - 1),
                    None => None,
                };
                Some(row)
            },
            None => None,
        }
    }

    /// Begins an entry of the archive.
    pub fn begin_entry(&mut self, name: &str) -> (step: EntryStep)
        ensures
            match step {
                EntryStep::Skip => entry_parts(name@) is None && final(self)@ == old(self)@,
                EntryStep::Read { ext, row } => match entry_parts(name@) {
                    Some((key, e)) => e == ext@ && (final(self)@, row_view(row)) == entered(
                        old(self)@,
                        key,
                    ),
                    None => false,
                },
            },
    {
        match parse_webdataset_entry_name(name) {
            None => EntryStep::Skip,
            Some((key, ext)) => {
                let same = match &self.key {
                    Some(k) => text_eq(k.as_str(), key.as_str()),
                    None => false,
                };
                if same {
                    EntryStep::Read { ext, row: None }
                } else {
                    let row = self.flush();
                    self.key = Some(key);
                    EntryStep::Read { ext, row }
                }
            },
        }
    }

    /// Takes the data of an entry.
    pub fn finish_entry(&mut self, ext: String, data: Vec<u8>)
        ensures
            final(self)@ == filled(old(self)@, ext@, data@),
    {
        if text_eq(ext.as_str(), "txt") {
            let ghost bytes = data@;
            match text_from_utf8(data) {
                Some(text) => {
                    proof {
                        encode_utf8_decode_utf8(text@);
                    }
                    self.caption = Some(text);
                },
                None => {
                    self.caption = Some(String::new());
                },
            }
        } else if text_eq(ext.as_str(), "jpg") || text_eq(ext.as_str(), "jpeg") || text_eq(
            ext.as_str(),
            "png",
        ) || text_eq(ext.as_str(), "webp") {
            self.image = Some(data);
            self.image_ext = Some(ext);
        }
    }
}

// ---------------------------------------------------------------------------
// Whole archives.
// ---------------------------------------------------------------------------

/// The state and the rows after an entry, where the limit leaves room for it.
pub open spec fn after_entry(s: WebState, name: Seq<char>, data: Seq<u8>) -> (
    WebState,
    Option<WebRowView>,
) {
    match entry_parts(name) {
        Some((key, ext)) if s.remaining != Some(0u64) => {
            let (begun, row) = entered(s, key);
            (filled(begun, ext, data), row)
        },
        _ => (s, None),
    }
}

/// The rows so far with one more, where there is one.
pub open spec fn push_row(rows: Seq<WebRowView>, row: Option<WebRowView>) -> Seq<WebRowView> {
    match row {
        Some(r) => rows.push(r),
        None => rows,
    }
}

/// The state and the rows after some entries.
pub open spec fn after_entries(s: WebState, entries: Seq<(Seq<char>, Seq<u8>)>) -> (
    WebState,
    Seq<WebRowView>,
)
    decreases entries.len(),
{
    if entries.len() == 0 {
        (s, Seq::empty())
    } else {
        let (before, rows) = after_entries(s, entries.drop_last());
        let (after, row) = after_entry(before, entries.last().0, entries.last().1);
        (after, push_row(rows, row))
    }
}

/// The rows of an archive.
pub open spec fn archive_rows(limit: Option<u64>, entries: Seq<(Seq<char>, Seq<u8>)>) -> Seq<
    WebRowView,
> {
    let start = WebState {
        remaining: limit,
        key: None,
        caption: None,
        image: None,
        image_ext: None,
    };
    let (last, rows) = after_entries(start, entries);
    push_row(rows, flushed(last).1)
}

/// The keys of the entries that have one, with equal neighbours taken together.
pub open spec fn key_runs(entries: Seq<(Seq<char>, Seq<u8>)>) -> Seq<Seq<char>>
    decreases entries.len(),
{
    if entries.len() == 0 {
        Seq::empty()
    } else {
        let front = key_runs(entries.drop_last());
        match entry_parts(entries.last().0) {
            Some((key, _)) => if front.len() > 0 && front.last() == key {
                front
            } else {
                front.push(key)
            },
            None => front,
        }
    }
}

/// The keys of some rows.
pub open spec fn row_keys(rows: Seq<WebRowView>) -> Seq<Seq<char>> {
    Seq::new(rows.len(), |i: int| rows[i].key)
}

proof fn lemma_unlimited(entries: Seq<(Seq<char>, Seq<u8>)>, start: WebState)
    requires
        start.remaining is None,
        start.key is None,
    ensures
        ({
            let (s, rows) = after_entries(start, entries);
            &&& s.remaining is None
            &&& key_runs(entries) == match s.key {
                Some(k) => row_keys(rows).push(k),
                None => row_keys(rows),
            }
            &&& s.key is None ==> rows.len() == 0
        }),
    decreases entries.len(),
{
    let (s, rows) = after_entries(start, entries);
    if entries.len() == 0 {
        assert(key_runs(entries) =~= row_keys(rows));
    } else {
        lemma_unlimited(entries.drop_last(), start);
        let (before, earlier) = after_entries(start, entries.drop_last());
        match entry_parts(entries.last().0) {
            Some((key, ext)) => {
                if before.key == Some(key) {
                    assert(rows == earlier);
                } else if before.key is Some {
                    assert(row_keys(rows) =~= row_keys(earlier).push(before.key->0));
                }
            },
            None => {},
        }
    }
}

/// Without a limit every run of entries of one key gives one row, in the order of the archive.
pub proof fn law_one_row_per_key_run(entries: Seq<(Seq<char>, Seq<u8>)>)
    ensures
        row_keys(archive_rows(None, entries)) == key_runs(entries),
{
    let start = WebState {
        remaining: None,
        key: None,
        caption: None,
        image: None,
        image_ext: None,
    };
    lemma_unlimited(entries, start);
    let (s, rows) = after_entries(start, entries);
    assert(row_keys(archive_rows(None, entries)) =~= key_runs(entries));
}

proof fn lemma_limited(entries: Seq<(Seq<char>, Seq<u8>)>, start: WebState, limit: u64)
    requires
        start.remaining is None,
    ensures
        ({
            let (free, all) = after_entries(start, entries);
            let (s, rows) = after_entries(WebState { remaining: Some(limit), ..start }, entries);
            &&& free.remaining is None
            &&& s.remaining is Some
            &&& rows.len() + s.remaining->0 == limit
            &&& rows.len() <= all.len()
            &&& rows == all.take(rows.len() as int)
            &&& s.remaining != Some(0u64) ==> rows == all && s == (WebState {
                remaining: s.remaining,
                ..free
            })
        }),
    decreases entries.len(),
{
    let limited = WebState { remaining: Some(limit), ..start };
    let (free, all) = after_entries(start, entries);
    let (s, rows) = after_entries(limited, entries);
    if entries.len() > 0 {
        lemma_limited(entries.drop_last(), start, limit);
        let (_, all_before) = after_entries(start, entries.drop_last());
        let (before, rows_before) = after_entries(limited, entries.drop_last());
        if before.remaining == Some(0u64) {
            assert(all.take(rows.len() as int) =~= all_before.take(rows.len() as int));
        } else {
            assert(rows =~= all);
        }
    }
    assert(rows =~= all.take(rows.len() as int));
}

/// With a limit come the first rows of those that come without it: no more than the limit, and no
/// fewer where there are as many. So their keys are those of the first runs of entries of one key.
pub proof fn law_limit_holds(limit: u64, entries: Seq<(Seq<char>, Seq<u8>)>)
    ensures
        ({
            let all = archive_rows(None, entries);
            let runs = key_runs(entries);
            &&& archive_rows(Some(limit), entries) == all.take(
                min_nat(limit as nat, all.len()) as int,
            )
            &&& row_keys(archive_rows(Some(limit), entries)) == runs.take(
                min_nat(limit as nat, runs.len()) as int,
            )
            &&& archive_rows(Some(limit), entries).len() <= limit
        }),
{
    let start = WebState {
        remaining: None,
        key: None,
        caption: None,
        image: None,
        image_ext: None,
    };
    lemma_limited(entries, start, limit);
    law_one_row_per_key_run(entries);
    let all = archive_rows(None, entries);
    let rows = archive_rows(Some(limit), entries);
    assert(rows =~= all.take(min_nat(limit as nat, all.len()) as int));
    assert(row_keys(rows) =~= row_keys(all).take(min_nat(limit as nat, all.len()) as int));
}

// ---------------------------------------------------------------------------
// Batches.
// ---------------------------------------------------------------------------

/// The contents of some rows.
pub open spec fn rows_view(rows: Seq<WebRow>) -> Seq<WebRowView> {
    Seq::new(rows.len(), |i: int| rows[i]@)
}

/// The keys of some rows.
pub open spec fn key_column(rows: Seq<WebRowView>) -> Seq<Option<Seq<char>>> {
    Seq::new(rows.len(), |i: int| Some(rows[i].key))
}

/// The captions of some rows.
pub open spec fn caption_column(rows: Seq<WebRowView>) -> Seq<Option<Seq<char>>> {
    Seq::new(rows.len(), |i: int| rows[i].caption)
}

/// The image formats of some rows.
pub open spec fn format_column(rows: Seq<WebRowView>) -> Seq<Option<Seq<char>>> {
    Seq::new(rows.len(), |i: int| rows[i].image_ext)
}

/// The columns of some rows.
pub open spec fn web_columns(rows: Seq<WebRowView>) -> Seq<ColumnData> {
    seq![
        ColumnData::Text(key_column(rows)),
        ColumnData::Text(caption_column(rows)),
        ColumnData::Bytes(Seq::new(rows.len(), |i: int| rows[i].image)),
        ColumnData::Text(format_column(rows)),
    ]
}

/// Whether the texts of some rows are few enough for one batch.
pub open spec fn texts_fit(rows: Seq<WebRowView>) -> bool {
    &&& text_bytes(key_column(rows)) <= MAX_TEXT_BYTES
    &&& text_bytes(caption_column(rows)) <= MAX_TEXT_BYTES
    &&& text_bytes(format_column(rows)) <= MAX_TEXT_BYTES
}

proof fn lemma_next_row(rows: Seq<WebRowView>, i: int)
    requires
        0 <= i < rows.len(),
    ensures
        text_bytes(key_column(rows).take(i + 1)) == text_bytes(key_column(rows).take(i))
            + crate::batches::bytes_of(Some(rows[i].key)),
        text_bytes(caption_column(rows).take(i + 1)) == text_bytes(caption_column(rows).take(i))
            + crate::batches::bytes_of(rows[i].caption),
        text_bytes(format_column(rows).take(i + 1)) == text_bytes(format_column(rows).take(i))
            + crate::batches::bytes_of(rows[i].image_ext),
        text_bytes(key_column(rows).take(i + 1)) <= text_bytes(key_column(rows)),
        text_bytes(caption_column(rows).take(i + 1)) <= text_bytes(caption_column(rows)),
        text_bytes(format_column(rows).take(i + 1)) <= text_bytes(format_column(rows)),
{
    assert(key_column(rows).take(i + 1).drop_last() =~= key_column(rows).take(i));
    assert(caption_column(rows).take(i + 1).drop_last() =~= caption_column(rows).take(i));
    assert(format_column(rows).take(i + 1).drop_last() =~= format_column(rows).take(i));
    lemma_text_bytes(key_column(rows), i + 1);
    lemma_text_bytes(caption_column(rows), i + 1);
    lemma_text_bytes(format_column(rows), i + 1);
}

/// Whether the texts of some rows are few enough for one batch.
pub fn web_texts_fit(rows: &Vec<WebRow>) -> (fit: bool)
    ensures
        fit == texts_fit(rows_view(rows@)),
{
    let ghost all = rows_view(rows@);
    let mut keys: u64 = 0;
    let mut captions: u64 = 0;
    let mut formats: u64 = 0;
    let mut i: usize = 0;
    assert(key_column(all).take(0) =~= Seq::empty());
    assert(caption_column(all).take(0) =~= Seq::empty());
    assert(format_column(all).take(0) =~= Seq::empty());
    while i < rows.len()
        invariant
            i <= rows.len(),
            all == rows_view(rows@),
            keys <= MAX_TEXT_BYTES,
            captions <= MAX_TEXT_BYTES,
            formats <= MAX_TEXT_BYTES,
            keys == text_bytes(key_column(all).take(i as int)),
            captions == text_bytes(caption_column(all).take(i as int)),
            formats == text_bytes(format_column(all).take(i as int)),
        decreases rows.len() - i,
    {
        let row = &rows[i];
        proof {
            assert(all[i as int] == row@);
            lemma_next_row(all, i as int);
        }
        let key = Some(row.key.clone());
        match (
            add_text(keys, &key),
            add_text(captions, &row.caption),
            add_text(formats, &row.image_ext),
        ) {
            (Some(k), Some(c), Some(f)) => {
                keys = k;
                captions = c;
                formats = f;
            },
            _ => {
                return false;
            },
        }
        i += 1;
    }
    assert(key_column(all).take(i as int) =~= key_column(all));
    assert(caption_column(all).take(i as int) =~= caption_column(all));
    assert(format_column(all).take(i as int) =~= format_column(all));
    true
}

/// Whether fields are those of some web rows: a key, a caption, an image and its format. What is
/// missing in a row may be missing in its field.
pub open spec fn takes_web_rows(fields: Seq<Field>, rows: Seq<WebRowView>) -> bool {
    &&& fields.len() == 4
    &&& field_kind(fields[0]) == FieldKind::Utf8
    &&& field_kind(fields[1]) == FieldKind::Utf8
    &&& field_kind(fields[2]) == FieldKind::LargeBinary
    &&& field_kind(fields[3]) == FieldKind::Utf8
    &&& field_nullable(fields[1]) || forall|i: int|
        0 <= i < rows.len() ==> (#[trigger] rows[i]).caption is Some
    &&& field_nullable(fields[2]) || forall|i: int|
        0 <= i < rows.len() ==> (#[trigger] rows[i]).image is Some
    &&& field_nullable(fields[3]) || forall|i: int|
        0 <= i < rows.len() ==> (#[trigger] rows[i]).image_ext is Some
}

proof fn lemma_none_missing(values: Seq<Option<String>>, texts: Seq<Option<Seq<char>>>)
    requires
        opt_views(values) == texts,
    ensures
        (forall|i: int| 0 <= i < values.len() ==> #[trigger] values[i] is Some) <==> (forall|i: int|
            0 <= i < texts.len() ==> #[trigger] texts[i] is Some),
{
    assert forall|i: int| 0 <= i < values.len() implies (#[trigger] values[i] is Some
        <==> texts[i] is Some) by {
        assert(opt_views(values)[i] == opt_view(values[i]));
    }
    assert forall|i: int| 0 <= i < texts.len() implies (#[trigger] texts[i] is Some
        <==> values[i] is Some) by {
        assert(opt_views(values)[i] == opt_view(values[i]));
    }
}

/// The batch of some rows; no rows make no batch.
pub fn web_batch(rows: Vec<WebRow>, schema: &Arc<Schema>) -> (out: Option<Result<Batch, BatchError>>)
    requires
        texts_fit(rows_view(rows@)),
    ensures
        out is None <==> rows.len() == 0,
        match out {
            Some(Ok(o)) => {
                &&& takes_web_rows(schema_fields(**schema), rows_view(rows@))
                &&& batch_rows(o) == rows.len()
                &&& batch_fields(o) == schema_fields(**schema) && is_typed(o)
                &&& batch_columns(o) == web_columns(rows_view(rows@))
            },
            Some(Err(e)) => e is Arrow && !takes_web_rows(
                schema_fields(**schema),
                rows_view(rows@),
            ),
            None => true,
        },
{
    let ghost source = rows@;
    let ghost all = rows_view(rows@);
    if rows.len() == 0 {
        return None;
    }
    let mut keys: Vec<Option<String>> = Vec::new();
    let mut captions: Vec<Option<String>> = Vec::new();
    let mut images: Vec<Option<Vec<u8>>> = Vec::new();
    let mut exts: Vec<Option<String>> = Vec::new();
    for row in it: rows
        invariant
            it.seq() == source,
            all == rows_view(source),
            keys.len() == it.index(),
            captions.len() == it.index(),
            images.len() == it.index(),
            exts.len() == it.index(),
            forall|k: int|
                0 <= k < keys.len() ==> opt_view(#[trigger] keys@[k]) == Some(all[k].key),
            forall|k: int|
                0 <= k < captions.len() ==> opt_view(#[trigger] captions@[k]) == all[k].caption,
            forall|k: int|
                0 <= k < images.len() ==> opt_bytes(#[trigger] images@[k]) == all[k].image,
            forall|k: int| 0 <= k < exts.len() ==> opt_view(#[trigger] exts@[k]) == all[k].image_ext,
    {
        assert(row@ == all[it.index() as int]);
        keys.push(Some(row.key));
        captions.push(row.caption);
        images.push(row.image);
        exts.push(row.image_ext);
    }
    let columns = vec![
        NewColumn::Text(keys),
        NewColumn::Text(captions),
        NewColumn::Bytes(images),
        NewColumn::Text(exts),
    ];
    proof {
        assert(opt_views(keys@) =~= key_column(all));
        assert(opt_views(captions@) =~= caption_column(all));
        assert(opt_bytes_views(images@) =~= Seq::new(all.len(), |i: int| all[i].image));
        assert(opt_views(exts@) =~= format_column(all));
        assert(new_data(columns@) =~= web_columns(all));
        assert(Seq::<ColumnData>::empty() + new_data(columns@) =~= new_data(columns@));
        let fields = shared_fields(schema);
        assert(columns@[0].is_full());
        assert(columns@[1].is_full() <==> forall|i: int|
            0 <= i < all.len() ==> (#[trigger] all[i]).caption is Some) by {
            lemma_none_missing(captions@, caption_column(all));
            assert forall|i: int| 0 <= i < all.len() implies (#[trigger] all[i]).caption
                == caption_column(all)[i] by {}
        }
        assert(columns@[2].is_full() <==> forall|i: int|
            0 <= i < all.len() ==> (#[trigger] all[i]).image is Some) by {
            assert forall|i: int| 0 <= i < all.len() implies ((#[trigger] all[i]).image is Some
                <==> images@[i] is Some) by {
                assert(opt_bytes_views(images@)[i] == all[i].image);
            }
        }
        assert(columns@[3].is_full() <==> forall|i: int|
            0 <= i < all.len() ==> (#[trigger] all[i]).image_ext is Some) by {
            lemma_none_missing(exts@, format_column(all));
            assert forall|i: int| 0 <= i < all.len() implies (#[trigger] all[i]).image_ext
                == format_column(all)[i] by {}
        }
        assert(takes_web_rows(fields, all) <==> matches_kinds(
            fields,
            Seq::<DataType>::empty(),
            columns@,
        )) by {
            if matches_kinds(fields, Seq::<DataType>::empty(), columns@) {
                assert(takes(fields[0], columns@[0]));
                assert(takes(fields[1], columns@[1]));
                assert(takes(fields[2], columns@[2]));
                assert(takes(fields[3], columns@[3]));
            }
        }
    }
    match new_batch(None, schema, columns) {
        Ok(o) => Some(Ok(o)),
        Err(e) => Some(Err(BatchError::Arrow(e))),
    }
}

} // verus!
