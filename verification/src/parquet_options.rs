//! How Parquet files are read and written.
use parquet::file::properties::{WriterProperties, DEFAULT_PAGE_SIZE};
use parquet::file::metadata::KeyValue;
use vstd::prelude::*;

use crate::text::{opt_view, text_eq};

verus! {

/// The version of this adapter.
pub const ENGINE_ADAPTER_VERSION: &'static str = "0.1.0";

/// The version of the Parquet library.
pub const PARQUET_DEP_VERSION: &'static str = "58.3.0";

/// The page size of files for random blob access: the default one.
pub const RANDOM_BLOB_DATA_PAGE_SIZE_LIMIT: usize = 1048576;

/// `DEFAULT_PAGE_SIZE` is the page size that `parquet` writes where none is set: 1 MiB.
#[verifier::external_body]
fn default_page_size() -> (size: usize)
    ensures
        size == RANDOM_BLOB_DATA_PAGE_SIZE_LIMIT,
{
    DEFAULT_PAGE_SIZE
}

/// How many rows are written at once to files for random blob access.
pub const RANDOM_BLOB_WRITE_BATCH_SIZE: usize = 1;

/// The size of row groups of files for random blob access.
pub const RANDOM_BLOB_MAX_ROW_GROUP_BYTES: usize = 134217728;

/// The metadata key under which a file names its profile.
pub const WRITER_PROFILE_METADATA_KEY: &'static str = "lance-dataset-test.parquet-writer-profile";

/// How rows are found in a file.
#[derive(Debug, Clone, Copy, PartialEq, Eq, Structural)]
pub enum ParquetReadMode {
    Sequential,
    RowSelection,
}

impl Default for ParquetReadMode {
    fn default() -> (mode: ParquetReadMode)
        ensures
            mode == ParquetReadMode::Sequential,
    {
        ParquetReadMode::Sequential
    }
}

/// The name of a read mode.
pub open spec fn read_mode_name(mode: ParquetReadMode) -> Seq<char> {
    match mode {
        ParquetReadMode::Sequential => "sequential"@,
        ParquetReadMode::RowSelection => "row-selection"@,
    }
}

impl ParquetReadMode {
    /// The name of the mode.
    pub fn as_str(self) -> (name: &'static str)
        ensures
            name@ == read_mode_name(self),
    {
        match self {
            ParquetReadMode::Sequential => "sequential",
            ParquetReadMode::RowSelection => "row-selection",
        }
    }
}

/// How a file is laid out.
#[derive(Debug, Clone, Copy, PartialEq, Eq, Structural)]
pub enum ParquetWriterProfile {
    Default,
    RandomBlob,
}

impl Default for ParquetWriterProfile {
    fn default() -> (profile: ParquetWriterProfile)
        ensures
            profile == ParquetWriterProfile::Default,
    {
        ParquetWriterProfile::Default
    }
}

/// The name of a profile.
pub open spec fn profile_name(profile: ParquetWriterProfile) -> Seq<char> {
    match profile {
        ParquetWriterProfile::Default => "default"@,
        ParquetWriterProfile::RandomBlob => "random-blob"@,
    }
}

impl ParquetWriterProfile {
    /// The name of the profile.
    pub fn as_str(self) -> (name: &'static str)
        ensures
            name@ == profile_name(self),
    {
        match self {
            ParquetWriterProfile::Default => "default",
            ParquetWriterProfile::RandomBlob => "random-blob",
        }
    }
}

/// What a file is written with.
#[derive(Debug, Clone)]
pub struct ParquetWriterOptions {
    pub profile: ParquetWriterProfile,
    pub blob_columns: Vec<String>,
    pub data_page_size_limit: Option<usize>,
    pub write_batch_size: Option<usize>,
    pub max_row_group_bytes: Option<usize>,
}

impl Default for ParquetWriterOptions {
    fn default() -> (options: ParquetWriterOptions)
        ensures
            options.profile == ParquetWriterProfile::Default,
            options.blob_columns@ == Seq::<String>::empty(),
            options.data_page_size_limit is None,
            options.write_batch_size is None,
            options.max_row_group_bytes is None,
    {
        ParquetWriterOptions {
            profile: ParquetWriterProfile::Default,
            blob_columns: Vec::new(),
            data_page_size_limit: None,
            write_batch_size: None,
            max_row_group_bytes: None,
        }
    }
}

/// The settings of a Parquet writer, as `parquet` has them.
#[verifier::external_type_specification]
#[verifier::external_body]
pub struct ExWriterProperties(parquet::file::properties::WriterProperties);

/// The settings that the library sets.
#[verifier::ext_equal]
pub struct WriterSettings {
    pub data_page_size_limit: usize,
    pub write_batch_size: usize,
    pub max_row_group_bytes: Option<usize>,
    pub offset_index_disabled: bool,
    pub key_value_metadata: Seq<(Seq<char>, Option<Seq<char>>)>,
}

/// The settings of a Parquet writer, as far as the library sets them.
pub uninterp spec fn writer_settings(properties: WriterProperties) -> WriterSettings;

/// How the values of a column are written.
pub struct ColumnSettings {
    /// Whether an encoding is asked for.
    pub encoding_set: bool,
    pub compressed: bool,
    pub dictionary_enabled: bool,
    /// Whether statistics are kept for each page.
    pub page_statistics: bool,
}

/// How the values of a column are written where nothing is set.
pub open spec fn default_column() -> ColumnSettings {
    ColumnSettings {
        encoding_set: false,
        compressed: false,
        dictionary_enabled: true,
        page_statistics: true,
    }
}

/// How a Parquet writer writes the values of a column.
pub uninterp spec fn column_settings(
    properties: WriterProperties,
    column: Seq<char>,
) -> ColumnSettings;

/// `WriterProperties::builder` starts from the defaults; its setters set the page size, the write
/// batch size, the row group size, the offset index and the metadata, and `build` hands the
/// settings out. A row group size of zero panics. What is not set keeps its default: every column
/// is written without compression, with a dictionary, with statistics for each page, and in an
/// encoding that the writer picks. Of further defaults nothing is said.
#[verifier::external_body]
fn build_writer_properties(
    page: usize,
    batch: usize,
    group: usize,
    key: &str,
    value: &str,
) -> (properties: WriterProperties)
    requires
        group > 0,
    ensures
        writer_settings(properties) == (WriterSettings {
            data_page_size_limit: page,
            write_batch_size: batch,
            max_row_group_bytes: Some(group),
            offset_index_disabled: false,
            key_value_metadata: seq![(key@, Some(value@))],
        }),
        forall|column: Seq<char>| #[trigger] column_settings(properties, column)
            == default_column(),
{
    WriterProperties::builder()
        .set_data_page_size_limit(page)
        .set_write_batch_size(batch)
        .set_max_row_group_bytes(Some(group))
        .set_offset_index_disabled(false)
        .set_key_value_metadata(Some(vec![KeyValue::new(key.to_string(), value.to_string())]))
        .build()
}

/// Why a file cannot be written as asked.
#[derive(Debug, Clone, Copy, PartialEq, Eq, Structural)]
pub enum WriterOptionsError {
    NoPageSize,
    NoBatchSize,
    NoGroupSize,
    ZeroLimit,
    NoBlobColumn,
}

/// The message of an error.
pub open spec fn writer_error_text(e: WriterOptionsError) -> Seq<char> {
    match e {
        WriterOptionsError::NoPageSize => "random-blob profile requires data_page_size_limit"@,
        WriterOptionsError::NoBatchSize => "random-blob profile requires write_batch_size"@,
        WriterOptionsError::NoGroupSize => "random-blob profile requires max_row_group_bytes"@,
        WriterOptionsError::ZeroLimit => "random-blob writer limits must be greater than zero"@,
        WriterOptionsError::NoBlobColumn => "random-blob profile requires at least one blob column"@,
    }
}

impl WriterOptionsError {
    /// The message for the user.
    pub fn message(&self) -> (text: &'static str)
        ensures
            text@ == writer_error_text(*self),
    {
        match self {
            WriterOptionsError::NoPageSize => "random-blob profile requires data_page_size_limit",
            WriterOptionsError::NoBatchSize => "random-blob profile requires write_batch_size",
            WriterOptionsError::NoGroupSize => "random-blob profile requires max_row_group_bytes",
            WriterOptionsError::ZeroLimit => "random-blob writer limits must be greater than zero",
            WriterOptionsError::NoBlobColumn => {
                "random-blob profile requires at least one blob column"
            },
        }
    }
}

/// What is wrong with some options; the first of several faults.
pub open spec fn options_fault(o: ParquetWriterOptions) -> Option<WriterOptionsError> {
    if o.profile == ParquetWriterProfile::Default {
        None
    } else if o.data_page_size_limit is None {
        Some(WriterOptionsError::NoPageSize)
    } else if o.write_batch_size is None {
        Some(WriterOptionsError::NoBatchSize)
    } else if o.max_row_group_bytes is None {
        Some(WriterOptionsError::NoGroupSize)
    } else if o.data_page_size_limit == Some(0usize) || o.write_batch_size == Some(0usize)
        || o.max_row_group_bytes == Some(0usize) {
        Some(WriterOptionsError::ZeroLimit)
    } else if o.blob_columns@.len() == 0 {
        Some(WriterOptionsError::NoBlobColumn)
    } else {
        None
    }
}

impl ParquetWriterOptions {
    /// The options for files with random access to blobs.
    pub fn random_blob(blob_columns: Vec<String>) -> (options: ParquetWriterOptions)
        ensures
            options.profile == ParquetWriterProfile::RandomBlob,
            options.blob_columns@ == blob_columns@,
            options.data_page_size_limit == Some(RANDOM_BLOB_DATA_PAGE_SIZE_LIMIT),
            options.write_batch_size == Some(RANDOM_BLOB_WRITE_BATCH_SIZE),
            options.max_row_group_bytes == Some(RANDOM_BLOB_MAX_ROW_GROUP_BYTES),
    {
        ParquetWriterOptions {
            profile: ParquetWriterProfile::RandomBlob,
            blob_columns,
            data_page_size_limit: Some(default_page_size()),
            write_batch_size: Some(RANDOM_BLOB_WRITE_BATCH_SIZE),
            max_row_group_bytes: Some(RANDOM_BLOB_MAX_ROW_GROUP_BYTES),
        }
    }

    /// The settings of the writer; none for the default profile. Whatever the profile, the values
    /// of every column are written as they are by default.
    pub fn writer_properties(&self) -> (properties: Result<
        Option<WriterProperties>,
        WriterOptionsError,
    >)
        ensures
            match properties {
                Ok(None) => self.profile == ParquetWriterProfile::Default,
                Ok(Some(p)) => self.profile == ParquetWriterProfile::RandomBlob && options_fault(
                    *self,
                ) is None && writer_settings(p) == (WriterSettings {
                    data_page_size_limit: self.data_page_size_limit->0,
                    write_batch_size: self.write_batch_size->0,
                    max_row_group_bytes: self.max_row_group_bytes,
                    offset_index_disabled: false,
                    key_value_metadata: seq![
                        (WRITER_PROFILE_METADATA_KEY@, Some(profile_name(self.profile))),
                    ],
                }) && forall|column: Seq<char>| #[trigger] column_settings(p, column)
                    == default_column(),
                Err(e) => options_fault(*self) == Some(e),
            },
    {
        if self.profile == ParquetWriterProfile::Default {
            return Ok(None);
        }
        let page: usize = match self.data_page_size_limit {
            Some(v) => v,
            None => return Err(WriterOptionsError::NoPageSize),
        };
        let batch: usize = match self.write_batch_size {
            Some(v) => v,
            None => return Err(WriterOptionsError::NoBatchSize),
        };
        let group: usize = match self.max_row_group_bytes {
            Some(v) => v,
            None => return Err(WriterOptionsError::NoGroupSize),
        };
        if page == 0 || batch == 0 || group == 0 {
            return Err(WriterOptionsError::ZeroLimit);
        }
        if self.blob_columns.len() == 0 {
            return Err(WriterOptionsError::NoBlobColumn);
        }
        Ok(
            Some(
                build_writer_properties(
                    page,
                    batch,
                    group,
                    WRITER_PROFILE_METADATA_KEY,
                    self.profile.as_str(),
                ),
            ),
        )
    }
}

/// The profile that a name stands for.
pub open spec fn profile_named(name: Seq<char>) -> Option<ParquetWriterProfile> {
    if name == "default"@ {
        Some(ParquetWriterProfile::Default)
    } else if name == "random-blob"@ {
        Some(ParquetWriterProfile::RandomBlob)
    } else {
        None
    }
}

/// Reading the name of a profile gives the profile back.
pub proof fn law_profile_round_trip(profile: ParquetWriterProfile)
    ensures
        profile_named(profile_name(profile)) == Some(profile),
{
    reveal_strlit("default");
    reveal_strlit("random-blob");
    if profile == ParquetWriterProfile::RandomBlob {
        assert("random-blob"@.len() != "default"@.len());
    }
}

/// The value of the first entry of a key, where it has one.
pub open spec fn metadata_entry(entries: Seq<(String, Option<String>)>, key: Seq<char>) -> Option<
    Seq<char>,
>
    decreases entries.len(),
{
    if entries.len() == 0 {
        None
    } else if entries[0].0@ == key {
        opt_view(entries[0].1)
    } else {
        metadata_entry(entries.drop_first(), key)
    }
}

/// The profile that a file was written with is read back: where the first entry of its key is the
/// one that the writer got, whatever other entries there are.
pub proof fn law_written_profile_is_read(
    settings: WriterSettings,
    profile: ParquetWriterProfile,
    entries: Seq<(String, Option<String>)>,
    at: int,
)
    requires
        settings.key_value_metadata == seq![
            (WRITER_PROFILE_METADATA_KEY@, Some(profile_name(profile))),
        ],
        0 <= at < entries.len(),
        (entries[at].0@, opt_view(entries[at].1)) == settings.key_value_metadata[0],
        forall|j: int|
            0 <= j < at ==> (#[trigger] entries[j]).0@ != settings.key_value_metadata[0].0,
    ensures
        metadata_entry(entries, WRITER_PROFILE_METADATA_KEY@) == Some(profile_name(profile)),
        profile_named(profile_name(profile)) == Some(profile),
    decreases at,
{
    law_profile_round_trip(profile);
    if at > 0 {
        assert(entries[0].0@ != settings.key_value_metadata[0].0);
        let rest = entries.drop_first();
        assert(rest[at - 1] == entries[at]);
        assert forall|j: int| 0 <= j < at - 1 implies (#[trigger] rest[j]).0@
            != settings.key_value_metadata[0].0 by {
            assert(rest[j] == entries[j + 1]);
        }
        law_written_profile_is_read(settings, profile, rest, at - 1);
    }
}

/// The profile of a file, as its metadata names it. A file that names none has the default one.
/// A name that is not known comes back as the error.
pub fn writer_profile_of(entries: &Vec<(String, Option<String>)>) -> (profile: Result<
    ParquetWriterProfile,
    String,
>)
    ensures
        match profile {
            Ok(p) => match metadata_entry(entries@, WRITER_PROFILE_METADATA_KEY@) {
                Some(name) => profile_named(name) == Some(p),
                None => p == ParquetWriterProfile::Default,
            },
            Err(name) => metadata_entry(entries@, WRITER_PROFILE_METADATA_KEY@) == Some(name@)
                && profile_named(name@) is None,
        },
{
    let mut i: usize = 0;
    assert(entries@.skip(0) =~= entries@);
    while i < entries.len()
        invariant
            i <= entries.len(),
            metadata_entry(entries@, WRITER_PROFILE_METADATA_KEY@) == metadata_entry(
                entries@.skip(i as int),
                WRITER_PROFILE_METADATA_KEY@,
            ),
        decreases entries.len() - i,
    {
        assert(entries@.skip(i as int)[0] == entries@[i as int]);
        assert(entries@.skip(i as int).drop_first() =~= entries@.skip(i as int + 1));
        if text_eq(entries[i].0.as_str(), WRITER_PROFILE_METADATA_KEY) {
            return match &entries[i].1 {
                Some(name) => if text_eq(name.as_str(), "default") {
                    Ok(ParquetWriterProfile::Default)
                } else if text_eq(name.as_str(), "random-blob") {
                    Ok(ParquetWriterProfile::RandomBlob)
                } else {
                    Err(name.clone())
                },
                None => Ok(ParquetWriterProfile::Default),
            };
        }
        i += 1;
    }
    Ok(ParquetWriterProfile::Default)
}

} // verus!
