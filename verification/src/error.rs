//! Every way in which a request can be refused, and the text shown for it.
use vstd::prelude::*;

use crate::text::{dec, dec_i64, dec_int, dec_u64, dec_usize};

verus! {

/// Why a request could not be carried out.
#[derive(Debug)]
#[allow(inconsistent_fields)]
pub enum Error {
    /// No input was named.
    EmptyInputs,
    /// A column name that the schema does not have.
    UnknownColumn {
        name: String,
        available: String,
    },
    /// The same column was named twice.
    DuplicateColumn(String),
    /// A column pattern that matches nothing.
    NoGlobMatch {
        pattern: String,
        available: String,
    },
    /// A nested path with a segment that its parent does not have.
    UnknownNestedField {
        path: String,
        parent: String,
        field: String,
        available: String,
    },
    /// A nested path that goes through a column which is not a struct.
    NonStructField {
        path: String,
        segment: String,
        data_type: String,
    },
    /// Two inputs of `cat` with different schemas.
    SchemaMismatch {
        left: String,
        right: String,
        field: String,
    },
    /// A type that the output format cannot represent.
    UnsupportedCsvType {
        column: String,
        data_type: String,
    },
    /// A column that `freq` cannot count.
    UnsupportedFreqType {
        column: String,
        data_type: String,
    },
    /// More distinct values than `freq` accumulates.
    CardinalityExceeded {
        column: String,
        limit: usize,
    },
    /// A malformed `--indices` expression.
    IndexParse(String),
    /// A row index outside the dataset.
    IndexOutOfRange {
        index: i64,
        rowcount: u64,
    },
    /// A row range whose start lies behind its end.
    EmptyRange {
        start: i64,
        end: i64,
    },
    /// A sample of more rows than there are.
    SampleTooLarge {
        requested: u64,
        rowcount: u64,
    },
    /// A predicate that does not parse.
    InvalidPredicate(String),
    /// `take` with a predicate.
    TakeWhereConflict,
    /// A search column that holds no vectors.
    NotVectorColumn {
        column: String,
        data_type: String,
    },
    /// A query vector of another width than the column.
    VectorDimMismatch {
        query: usize,
        column: String,
        column_dims: usize,
    },
    /// A query vector that is no JSON array of numbers.
    VectorParse(String),
    /// An input that no adapter recognises.
    UnknownFormat {
        path: String,
    },
    /// Lance selectors on another kind of dataset.
    LanceFlagsOnNonLance {
        path: String,
    },
    /// A Lance command on another kind of dataset.
    NotLance {
        command: &'static str,
        path: String,
    },
    /// A tag that lives on another branch than the requested one.
    TagBranchMismatch {
        tag: String,
        tag_branch: String,
        requested_branch: String,
    },
    /// An `--as-of` value in none of the accepted forms.
    InvalidAsOf(String),
    /// An `--as-of` instant before the first version.
    AsOfBeforeFirstVersion {
        requested: String,
        earliest: String,
    },
    /// `--format` on a command that emits no rows.
    FormatNotApplicable {
        command: &'static str,
    },
    /// Two versions to compare on different branches.
    DiffCrossBranch {
        from_branch: String,
        to_branch: String,
    },
    /// A format that `diff` does not offer.
    DiffFormatUnsupported {
        format: &'static str,
    },
    /// Version selectors beside a second dataset.
    DiffSelectorsInTwoDatasetMode,
    /// `diff` with neither a second dataset nor a first version.
    DiffMissingFromRef,
    /// A projection that one of the two compared datasets rejects.
    DiffColumn {
        path: String,
        error: Box<Error>,
    },
    /// Excluding a system column that a flag asks for.
    RowIdExcluded {
        column: String,
        flag: &'static str,
    },
    /// Row identity asked of a dataset without it.
    RowIdUnsupported {
        path: String,
    },
    /// Binary output to a terminal.
    IpcToTerminal,
    /// `--format ipc` on a command that emits no raw rows.
    IpcNotApplicable {
        command: &'static str,
    },
    /// A rendering flag beside `--format ipc`.
    IpcRenderingFlag {
        flag: &'static str,
    },
    /// An input pattern that does not parse, or cannot be followed.
    InvalidGlobPattern {
        pattern: String,
        message: String,
    },
    /// An input pattern that matches nothing.
    InputGlobNoMatch {
        pattern: String,
    },
    /// A payload to a terminal.
    BlobToTty,
    /// A payload from a column that holds none.
    NotBinaryColumn {
        column: String,
        data_type: String,
    },
    /// A payload from a null cell.
    NullBlobCell {
        column: String,
        index: u64,
    },
    /// A CSV record with another number of fields than the first one.
    Csv {
        expected_len: usize,
        len: usize,
    },
}

/// The text shown to the user for an error.
pub open spec fn message_of(e: Error) -> Seq<char>
    decreases e,
{
    match e {
        Error::EmptyInputs => "no inputs provided"@,
        Error::UnknownColumn { name, available } => "unknown column '"@ + name@ + "' (available: "@
            + available@ + ")"@,
        Error::DuplicateColumn(x) => "column '"@ + x@
            + "' appears more than once in --columns/--exclude-columns"@,
        Error::NoGlobMatch { pattern, available } => "pattern '"@ + pattern@
            + "' matches no columns (available: "@ + available@ + ")"@,
        Error::UnknownNestedField { path, parent, field, available } => "unknown field '"@ + field@
            + "' in '"@ + parent@ + "' for path '"@ + path@ + "' (available: "@ + available@ + ")"@,
        Error::NonStructField { path, segment, data_type } => "cannot descend into '"@ + segment@
            + "' in path '"@ + path@ + "': '"@ + segment@ + "' is not a struct (found "@
            + data_type@ + ")"@,
        Error::SchemaMismatch { left, right, field } => "input schemas differ: '"@ + left@
            + "' and '"@ + right@ + "' do not match on field '"@ + field@
            + "'; cat requires strictly matching schemas"@,
        Error::UnsupportedCsvType { column, data_type } => "arrow type "@ + data_type@
            + " in column '"@ + column@ + "' cannot be represented in CSV; use --format jsonl"@,
        Error::UnsupportedFreqType { column, data_type } => "column '"@ + column@ + "' has type "@
            + data_type@
            + ", which freq cannot count; supported columns are scalar primitives (strings, numbers, booleans, dates, times, timestamps, decimals)"@,
        Error::CardinalityExceeded { column, limit } => "column '"@ + column@ + "' has more than "@
            + dec(limit as nat)
            + " distinct values; freq refuses to accumulate this many (is this a high-cardinality column such as an id or UUID?). Narrow the input with --where or choose another column"@,
        Error::IndexParse(x) => "--indices parse error: "@ + x@,
        Error::IndexOutOfRange { index, rowcount } => "index "@ + dec_int(index as int)
            + " is out of range for dataset with "@ + dec(rowcount as nat) + " rows"@,
        Error::EmptyRange { start, end } => "range "@ + dec_int(start as int) + ":"@
            + dec_int(end as int) + " is empty (start > end)"@,
        Error::SampleTooLarge { requested, rowcount } => "sample size "@ + dec(requested as nat)
            + " is larger than the available row count "@ + dec(rowcount as nat),
        Error::InvalidPredicate(x) => "invalid --where predicate: "@ + x@,
        Error::TakeWhereConflict => "--where cannot be combined with 'take --indices'; indices are positional. Filter rows with another command (e.g. 'head --where ...') instead"@,
        Error::NotVectorColumn { column, data_type } => "column '"@ + column@
            + "' is not a vector column (found "@ + data_type@
            + ", expected a fixed-size list of f16/f32/f64)"@,
        Error::VectorDimMismatch { query, column, column_dims } => "query has "@ + dec(query as nat)
            + " dims, column "@ + column@ + " has "@ + dec(column_dims as nat),
        Error::VectorParse(x) => "could not parse query vector as a JSON array of numbers: "@ + x@,
        Error::UnknownFormat { path } => "unrecognised dataset format at "@ + path@,
        Error::LanceFlagsOnNonLance { path } => "--branch/--version/--tag/--as-of are only valid for Lance datasets ("@
            + path@ + ")"@,
        Error::NotLance { command, path } => "'"@ + command@
            + "' is only valid for Lance datasets ("@ + path@ + ")"@,
        Error::TagBranchMismatch { tag, tag_branch, requested_branch } => "tag '"@ + tag@
            + "' is on branch '"@ + tag_branch@ + "', not '"@ + requested_branch@
            + "'; remove --branch or pass --branch "@ + tag_branch@,
        Error::InvalidAsOf(x) => "could not parse --as-of value '"@ + x@
            + "': expected RFC 3339 with offset (e.g. 2026-07-01T12:00:00Z), a naive datetime interpreted as UTC (e.g. 2026-07-01T12:00:00), or a date interpreted as midnight UTC (e.g. 2026-07-01)"@,
        Error::AsOfBeforeFirstVersion { requested, earliest } => "--as-of "@ + requested@
            + " predates the earliest version on this branch (earliest: "@ + earliest@
            + "); pass a timestamp at or after it"@,
        Error::FormatNotApplicable { command } => "--format is not applicable to '"@ + command@
            + "' (it does not emit row-shaped output)"@,
        Error::DiffCrossBranch { from_branch, to_branch } => "diff compares two versions of one branch, but the endpoints resolved to different branches ('"@
            + from_branch@ + "' and '"@ + to_branch@
            + "'); scope both with --branch or use tags on the same branch"@,
        Error::DiffFormatUnsupported { format } => "diff supports only the default human-readable summary or --format jsonl (got "@
            + format@ + ")"@,
        Error::DiffSelectorsInTwoDatasetMode => "diff cannot combine a second dataset with Lance version selectors (--from/--to/--from-tag/--to-tag/--branch): those select two versions of ONE dataset. Pass either two datasets, or one dataset with version selectors"@,
        Error::DiffMissingFromRef => "diff needs either a second dataset (to compare two datasets) or --from/--from-tag (to compare two versions of one Lance dataset)"@,
        Error::DiffColumn { path, error } => "in "@ + path@ + ": "@ + message_of(*error),
        Error::RowIdExcluded { column, flag } => "cannot exclude the system column '"@ + column@
            + "': it is always emitted with "@ + flag@ + "; drop the flag instead"@,
        Error::RowIdUnsupported { path } => "--with-row-id/--with-row-addr are not supported by this dataset's format ("@
            + path@ + ")"@,
        Error::IpcToTerminal => "refusing to write a binary Arrow IPC stream to a terminal; redirect or pipe the output"@,
        Error::IpcNotApplicable { command } => "--format ipc is not applicable to '"@ + command@
            + "' (it is valid on cat/head/tail/take/sample)"@,
        Error::IpcRenderingFlag { flag } => "--format ipc cannot be combined with "@ + flag@
            + " (an Arrow stream carries values unrendered)"@,
        Error::InvalidGlobPattern { pattern, message } => "invalid input pattern '"@ + pattern@
            + "': "@ + message@,
        Error::InputGlobNoMatch { pattern } => "input pattern '"@ + pattern@
            + "' matched no files"@,
        Error::BlobToTty => "refusing to write raw bytes to a terminal; redirect the output or pass -o <file>"@,
        Error::NotBinaryColumn { column, data_type } => "column '"@ + column@
            + "' is not a binary column (found "@ + data_type@ + ")"@,
        Error::NullBlobCell { column, index } => "cell at row "@ + dec(index as nat)
            + " of column '"@ + column@ + "' is null"@,
        Error::Csv { .. } => "csv writer error"@,
    }
}

impl Error {
    /// The text shown to the user.
    pub fn message(&self) -> (r: String)
        ensures
            r@ == message_of(*self),
        decreases self,
    {
        match self {
            Error::EmptyInputs => "no inputs provided".to_owned(),
            Error::UnknownColumn { name, available } => {
                let mut s = "unknown column '".to_owned();
                s.append(name.as_str());
                s.append("' (available: ");
                s.append(available.as_str());
                s.append(")");
                s
            },
            Error::DuplicateColumn(x) => {
                let mut s = "column '".to_owned();
                s.append(x.as_str());
                s.append("' appears more than once in --columns/--exclude-columns");
                s
            },
            Error::NoGlobMatch { pattern, available } => {
                let mut s = "pattern '".to_owned();
                s.append(pattern.as_str());
                s.append("' matches no columns (available: ");
                s.append(available.as_str());
                s.append(")");
                s
            },
            Error::UnknownNestedField { path, parent, field, available } => {
                let mut s = "unknown field '".to_owned();
                s.append(field.as_str());
                s.append("' in '");
                s.append(parent.as_str());
                s.append("' for path '");
                s.append(path.as_str());
                s.append("' (available: ");
                s.append(available.as_str());
                s.append(")");
                s
            },
            Error::NonStructField { path, segment, data_type } => {
                let mut s = "cannot descend into '".to_owned();
                s.append(segment.as_str());
                s.append("' in path '");
                s.append(path.as_str());
                s.append("': '");
                s.append(segment.as_str());
                s.append("' is not a struct (found ");
                s.append(data_type.as_str());
                s.append(")");
                s
            },
            Error::SchemaMismatch { left, right, field } => {
                let mut s = "input schemas differ: '".to_owned();
                s.append(left.as_str());
                s.append("' and '");
                s.append(right.as_str());
                s.append("' do not match on field '");
                s.append(field.as_str());
                s.append("'; cat requires strictly matching schemas");
                s
            },
            Error::UnsupportedCsvType { column, data_type } => {
                let mut s = "arrow type ".to_owned();
                s.append(data_type.as_str());
                s.append(" in column '");
                s.append(column.as_str());
                s.append("' cannot be represented in CSV; use --format jsonl");
                s
            },
            Error::UnsupportedFreqType { column, data_type } => {
                let mut s = "column '".to_owned();
                s.append(column.as_str());
                s.append("' has type ");
                s.append(data_type.as_str());
                s.append(", which freq cannot count; supported columns are scalar primitives (strings, numbers, booleans, dates, times, timestamps, decimals)");
                s
            },
            Error::CardinalityExceeded { column, limit } => {
                let mut s = "column '".to_owned();
                s.append(column.as_str());
                s.append("' has more than ");
                s.append(dec_usize(*limit).as_str());
                s.append(" distinct values; freq refuses to accumulate this many (is this a high-cardinality column such as an id or UUID?). Narrow the input with --where or choose another column");
                s
            },
            Error::IndexParse(x) => {
                let mut s = "--indices parse error: ".to_owned();
                s.append(x.as_str());
                s
            },
            Error::IndexOutOfRange { index, rowcount } => {
                let mut s = "index ".to_owned();
                s.append(dec_i64(*index).as_str());
                s.append(" is out of range for dataset with ");
                s.append(dec_u64(*rowcount).as_str());
                s.append(" rows");
                s
            },
            Error::EmptyRange { start, end } => {
                let mut s = "range ".to_owned();
                s.append(dec_i64(*start).as_str());
                s.append(":");
                s.append(dec_i64(*end).as_str());
                s.append(" is empty (start > end)");
                s
            },
            Error::SampleTooLarge { requested, rowcount } => {
                let mut s = "sample size ".to_owned();
                s.append(dec_u64(*requested).as_str());
                s.append(" is larger than the available row count ");
                s.append(dec_u64(*rowcount).as_str());
                s
            },
            Error::InvalidPredicate(x) => {
                let mut s = "invalid --where predicate: ".to_owned();
                s.append(x.as_str());
                s
            },
            Error::TakeWhereConflict => "--where cannot be combined with 'take --indices'; indices are positional. Filter rows with another command (e.g. 'head --where ...') instead".to_owned(),
            Error::NotVectorColumn { column, data_type } => {
                let mut s = "column '".to_owned();
                s.append(column.as_str());
                s.append("' is not a vector column (found ");
                s.append(data_type.as_str());
                s.append(", expected a fixed-size list of f16/f32/f64)");
                s
            },
            Error::VectorDimMismatch { query, column, column_dims } => {
                let mut s = "query has ".to_owned();
                s.append(dec_usize(*query).as_str());
                s.append(" dims, column ");
                s.append(column.as_str());
                s.append(" has ");
                s.append(dec_usize(*column_dims).as_str());
                s
            },
            Error::VectorParse(x) => {
                let mut s = "could not parse query vector as a JSON array of numbers: ".to_owned();
                s.append(x.as_str());
                s
            },
            Error::UnknownFormat { path } => {
                let mut s = "unrecognised dataset format at ".to_owned();
                s.append(path.as_str());
                s
            },
            Error::LanceFlagsOnNonLance { path } => {
                let mut s = "--branch/--version/--tag/--as-of are only valid for Lance datasets (".to_owned();
                s.append(path.as_str());
                s.append(")");
                s
            },
            Error::NotLance { command, path } => {
                let mut s = "'".to_owned();
                s.append(command);
                s.append("' is only valid for Lance datasets (");
                s.append(path.as_str());
                s.append(")");
                s
            },
            Error::TagBranchMismatch { tag, tag_branch, requested_branch } => {
                let mut s = "tag '".to_owned();
                s.append(tag.as_str());
                s.append("' is on branch '");
                s.append(tag_branch.as_str());
                s.append("', not '");
                s.append(requested_branch.as_str());
                s.append("'; remove --branch or pass --branch ");
                s.append(tag_branch.as_str());
                s
            },
            Error::InvalidAsOf(x) => {
                let mut s = "could not parse --as-of value '".to_owned();
                s.append(x.as_str());
                s.append("': expected RFC 3339 with offset (e.g. 2026-07-01T12:00:00Z), a naive datetime interpreted as UTC (e.g. 2026-07-01T12:00:00), or a date interpreted as midnight UTC (e.g. 2026-07-01)");
                s
            },
            Error::AsOfBeforeFirstVersion { requested, earliest } => {
                let mut s = "--as-of ".to_owned();
                s.append(requested.as_str());
                s.append(" predates the earliest version on this branch (earliest: ");
                s.append(earliest.as_str());
                s.append("); pass a timestamp at or after it");
                s
            },
            Error::FormatNotApplicable { command } => {
                let mut s = "--format is not applicable to '".to_owned();
                s.append(command);
                s.append("' (it does not emit row-shaped output)");
                s
            },
            Error::DiffCrossBranch { from_branch, to_branch } => {
                let mut s = "diff compares two versions of one branch, but the endpoints resolved to different branches ('".to_owned();
                s.append(from_branch.as_str());
                s.append("' and '");
                s.append(to_branch.as_str());
                s.append("'); scope both with --branch or use tags on the same branch");
                s
            },
            Error::DiffFormatUnsupported { format } => {
                let mut s = "diff supports only the default human-readable summary or --format jsonl (got ".to_owned();
                s.append(format);
                s.append(")");
                s
            },
            Error::DiffSelectorsInTwoDatasetMode => "diff cannot combine a second dataset with Lance version selectors (--from/--to/--from-tag/--to-tag/--branch): those select two versions of ONE dataset. Pass either two datasets, or one dataset with version selectors".to_owned(),
            Error::DiffMissingFromRef => "diff needs either a second dataset (to compare two datasets) or --from/--from-tag (to compare two versions of one Lance dataset)".to_owned(),
            Error::DiffColumn { path, error } => {
                let mut s = "in ".to_owned();
                s.append(path.as_str());
                s.append(": ");
                s.append(error.message().as_str());
                s
            },
            Error::RowIdExcluded { column, flag } => {
                let mut s = "cannot exclude the system column '".to_owned();
                s.append(column.as_str());
                s.append("': it is always emitted with ");
                s.append(flag);
                s.append("; drop the flag instead");
                s
            },
            Error::RowIdUnsupported { path } => {
                let mut s = "--with-row-id/--with-row-addr are not supported by this dataset's format (".to_owned();
                s.append(path.as_str());
                s.append(")");
                s
            },
            Error::IpcToTerminal => "refusing to write a binary Arrow IPC stream to a terminal; redirect or pipe the output".to_owned(),
            Error::IpcNotApplicable { command } => {
                let mut s = "--format ipc is not applicable to '".to_owned();
                s.append(command);
                s.append("' (it is valid on cat/head/tail/take/sample)");
                s
            },
            Error::IpcRenderingFlag { flag } => {
                let mut s = "--format ipc cannot be combined with ".to_owned();
                s.append(flag);
                s.append(" (an Arrow stream carries values unrendered)");
                s
            },
            Error::InvalidGlobPattern { pattern, message } => {
                let mut s = "invalid input pattern '".to_owned();
                s.append(pattern.as_str());
                s.append("': ");
                s.append(message.as_str());
                s
            },
            Error::InputGlobNoMatch { pattern } => {
                let mut s = "input pattern '".to_owned();
                s.append(pattern.as_str());
                s.append("' matched no files");
                s
            },
            Error::BlobToTty => "refusing to write raw bytes to a terminal; redirect the output or pass -o <file>".to_owned(),
            Error::NotBinaryColumn { column, data_type } => {
                let mut s = "column '".to_owned();
                s.append(column.as_str());
                s.append("' is not a binary column (found ");
                s.append(data_type.as_str());
                s.append(")");
                s
            },
            Error::NullBlobCell { column, index } => {
                let mut s = "cell at row ".to_owned();
                s.append(dec_u64(*index).as_str());
                s.append(" of column '");
                s.append(column.as_str());
                s.append("' is null");
                s
            },
            Error::Csv { .. } => "csv writer error".to_owned(),
        }
    }
}

} // verus!
