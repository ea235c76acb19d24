//! What a command line asks for: the global flags and one command.
use vstd::prelude::*;

use crate::row_id::RowIds;

verus! {

/// Output format of the row-producing commands.
#[derive(Debug, Copy, Clone, PartialEq, Eq, Structural)]
pub enum Format {
    Csv,
    Jsonl,
    /// One JSON array of the same objects that `Jsonl` emits line by line.
    Json,
    /// Pretty-printed table for interactive use; nested cells are JSON-encoded.
    /// Buffers all rows before printing.
    Table,
    /// Arrow IPC streaming format, for lossless composition with the Arrow
    /// ecosystem. Only valid on the row-producing commands; the value-rendering
    /// flags do not apply to it and are rejected.
    Ipc,
}

/// How to render Binary / LargeBinary / FixedSizeBinary / BinaryView values.
#[derive(Debug, Copy, Clone, PartialEq, Eq, Structural)]
pub enum BinaryFormat {
    /// A fixed placeholder instead of the bytes (`none` on the command line).
    Placeholder,
    /// `\xHH` lowercase-hex-escaped strings.
    Hex,
    /// Standard-alphabet base64 strings.
    Base64,
}

/// Ordering for `freq` output rows.
#[derive(Debug, Copy, Clone, PartialEq, Eq, Structural)]
pub enum FreqSort {
    /// Most frequent values first; ties broken by value (ascending, NULL last).
    Count,
    /// Values in ascending order (NULL last).
    Value,
}

/// Which schema `schema` prints.
#[derive(Debug, Copy, Clone, PartialEq, Eq, Structural)]
pub enum SchemaType {
    /// Logical arrow schema.
    Arrow,
    /// Physical (format-native) schema.
    Physical,
}

/// Lance-specific selectors for which version of a dataset to read.
///
/// `branch` is independent and can be combined with any of `version`, `tag` or
/// `as_of`, which all name a single version and exclude each other. With none
/// set, the latest version of `main` is used.
#[derive(Debug)]
pub struct LanceArgs {
    /// Read from the named branch (default: main).
    pub branch: Option<String>,
    /// Read from a specific version on the chosen branch.
    pub version: Option<u64>,
    /// Read from a specific tag on the chosen branch.
    pub tag: Option<String>,
    /// Read the latest version committed at or before this instant.
    pub as_of: Option<String>,
}

impl LanceArgs {
    /// True when at least one Lance-specific selector was supplied.
    pub fn is_any_set(&self) -> (r: bool)
        ensures
            r == (self.branch is Some || self.version is Some || self.tag is Some
                || self.as_of is Some),
    {
        self.branch.is_some() || self.version.is_some() || self.tag.is_some()
            || self.as_of.is_some()
    }
}

impl Clone for LanceArgs {
    fn clone(&self) -> (r: Self)
        ensures
            r == *self,
    {
        LanceArgs {
            branch: self.branch.clone(),
            version: self.version,
            tag: self.tag.clone(),
            as_of: self.as_of.clone(),
        }
    }
}

impl Default for LanceArgs {
    fn default() -> (r: Self)
        ensures
            r.branch is None,
            r.version is None,
            r.tag is None,
            r.as_of is None,
    {
        LanceArgs { branch: None, version: None, tag: None, as_of: None }
    }
}

/// SQL-style row predicate shared by every row-producing command (and `rowcount`).
#[derive(Debug)]
pub struct FilterArg {
    /// Keep only rows matching this predicate. Applied before row selection.
    pub predicate: Option<String>,
}

impl Clone for FilterArg {
    fn clone(&self) -> (r: Self)
        ensures
            r == *self,
    {
        FilterArg { predicate: self.predicate.clone() }
    }
}

impl Default for FilterArg {
    fn default() -> (r: Self)
        ensures
            r.predicate is None,
    {
        FilterArg { predicate: None }
    }
}

/// The `--with-row-id` / `--with-row-addr` flags of the row-producing commands.
#[derive(Debug, Clone, Copy, PartialEq, Eq, Structural)]
pub struct RowIdArgs {
    /// Append a `_rowid` column: the per-row identity.
    pub with_row_id: bool,
    /// Append a `_rowaddr` column: the physical address of the row.
    pub with_row_addr: bool,
}

impl RowIdArgs {
    /// The parsed flags as the selection that a scan takes.
    pub fn flags(&self) -> (r: RowIds)
        ensures
            r.with_row_id == self.with_row_id,
            r.with_row_addr == self.with_row_addr,
    {
        RowIds { with_row_id: self.with_row_id, with_row_addr: self.with_row_addr }
    }
}

impl Default for RowIdArgs {
    fn default() -> (r: Self)
        ensures
            r == (RowIdArgs { with_row_id: false, with_row_addr: false }),
    {
        RowIdArgs { with_row_id: false, with_row_addr: false }
    }
}

/// A parsed command line.
#[derive(Debug)]
pub struct Cli {
    /// Output format; `None` leaves it to the command.
    pub format: Option<Format>,
    /// How to render binary columns.
    pub binary_format: BinaryFormat,
    /// Elements rendered per list before a marker stands for the rest.
    pub max_list_items: Option<usize>,
    /// Table only: characters rendered per data cell.
    pub max_cell_width: Option<usize>,
    /// Fractional digits of floating-point values.
    pub float_precision: Option<usize>,
    /// Columns to include.
    pub columns: Option<Vec<String>>,
    /// Columns to exclude. Takes precedence over `columns`.
    pub exclude_columns: Option<Vec<String>>,
    /// Turn off the scan progress indicator.
    pub no_progress: bool,
    pub command: Command,
}

/// One command with its own arguments.
#[derive(Debug)]
#[allow(inconsistent_fields)]
pub enum Command {
    /// Concatenate one or more datasets and print every row.
    Cat { inputs: Vec<String>, filter: FilterArg, row_ids: RowIdArgs, lance: LanceArgs },
    /// Print the first rows.
    Head { input: String, limit: u64, filter: FilterArg, row_ids: RowIdArgs, lance: LanceArgs },
    /// Print the last rows.
    Tail { input: String, limit: u64, filter: FilterArg, row_ids: RowIdArgs, lance: LanceArgs },
    /// Print rows at the given indices.
    Take {
        input: String,
        indices: String,
        filter: FilterArg,
        row_ids: RowIdArgs,
        lance: LanceArgs,
    },
    /// Extract one cell's binary payload.
    Blob { input: String, column: String, index: i64, output: Option<String>, lance: LanceArgs },
    /// Print the number of rows.
    Rowcount { input: String, filter: FilterArg, lance: LanceArgs },
    /// Randomly sample rows without replacement.
    Sample {
        input: String,
        limit: u64,
        seed: Option<u64>,
        filter: FilterArg,
        row_ids: RowIdArgs,
        lance: LanceArgs,
    },
    /// Per-column summary statistics.
    Stats { input: String, filter: FilterArg, lance: LanceArgs },
    /// Count occurrences of each distinct value in a column.
    Freq {
        input: String,
        column: String,
        limit: Option<u64>,
        sort: FreqSort,
        filter: FilterArg,
        lance: LanceArgs,
    },
    /// Dataset health summary from metadata.
    Stat { input: String, no_size: bool, lance: LanceArgs },
    /// Print the schema.
    Schema { input: String, ty: SchemaType, lance: LanceArgs },
    /// Print versions.
    Versions { input: String, branch: Option<String>, tagged_only: bool },
    /// Print branches.
    Branches { input: String },
    /// Print tags.
    Tags { input: String },
    /// Print indices.
    Indices { input: String, lance: LanceArgs },
    /// List fragments.
    Fragments { input: String, verbose: bool, no_size: bool, lance: LanceArgs },
    /// Compare two datasets, or two versions of one.
    Diff {
        input: String,
        other: Option<String>,
        from: Option<u64>,
        from_tag: Option<String>,
        to: Option<u64>,
        to_tag: Option<String>,
        branch: Option<String>,
    },
    /// Nearest-neighbor vector search.
    Search {
        input: String,
        column: String,
        vector: Option<String>,
        vector_file: Option<String>,
        k: u64,
        nprobes: Option<u64>,
        refine_factor: Option<u32>,
        lance: LanceArgs,
    },
    /// Per-index coverage.
    IndexStats { input: String, lance: LanceArgs },
    /// Print a shell completion script.
    Completions,
}

} // verus!
