//! Messages: what they tell of an error.
use vstd::prelude::*;

use crate::error::{message_of, Error};
use crate::laws::reports::says;
use crate::text::{dec, dec_int};

verus! {

proof fn lemma_start(l: Seq<char>, x: Seq<char>)
    ensures
        says(l + x, l + x),
{
    assert(l + x =~= Seq::<char>::empty() + (l + x) + Seq::<char>::empty());
}

proof fn lemma_end(p: Seq<char>, l: Seq<char>, x: Seq<char>)
    ensures
        says(p + l + x, l + x),
{
    assert(p + l + x =~= p + (l + x) + Seq::<char>::empty());
}

proof fn lemma_more(t: Seq<char>, x: Seq<char>, more: Seq<char>)
    requires
        says(t, x),
    ensures
        says(t + more, x),
{
    let (a, b) = choose|a: Seq<char>, b: Seq<char>| t == #[trigger] (a + x + b);
    assert(t + more =~= a + x + (b + more));
}

/// A message about columns names the columns, types and files that it is about.
#[verifier::rlimit(40)]
pub proof fn law_messages_name_their_columns(e: Error)
    ensures
        e matches Error::UnknownColumn { name, available } ==> says(message_of(e), "unknown column '"@ + name@)
            && says(message_of(e), "' (available: "@ + available@),
        e matches Error::DuplicateColumn(x) ==> says(message_of(e), "column '"@ + x@),
        e matches Error::NoGlobMatch { pattern, available } ==> says(message_of(e), "pattern '"@ + pattern@)
            && says(message_of(e), "' matches no columns (available: "@ + available@),
        e matches Error::UnknownNestedField { path, parent, field, available } ==> says(message_of(e), "unknown field '"@ + field@)
            && says(message_of(e), "' in '"@ + parent@)
            && says(message_of(e), "' for path '"@ + path@)
            && says(message_of(e), "' (available: "@ + available@),
        e matches Error::NonStructField { path, segment, data_type } ==> says(message_of(e), "cannot descend into '"@ + segment@)
            && says(message_of(e), "' in path '"@ + path@)
            && says(message_of(e), "': '"@ + segment@)
            && says(message_of(e), "' is not a struct (found "@ + data_type@),
        e matches Error::SchemaMismatch { left, right, field } ==> says(message_of(e), "input schemas differ: '"@ + left@)
            && says(message_of(e), "' and '"@ + right@)
            && says(message_of(e), "' do not match on field '"@ + field@),
        e matches Error::UnsupportedCsvType { column, data_type } ==> says(message_of(e), "arrow type "@ + data_type@)
            && says(message_of(e), " in column '"@ + column@),
        e matches Error::UnsupportedFreqType { column, data_type } ==> says(message_of(e), "column '"@ + column@)
            && says(message_of(e), "' has type "@ + data_type@),
        e matches Error::CardinalityExceeded { column, limit } ==> says(message_of(e), "column '"@ + column@)
            && says(message_of(e), "' has more than "@ + dec(limit as nat)),
        e matches Error::NotBinaryColumn { column, data_type } ==> says(message_of(e), "column '"@ + column@)
            && says(message_of(e), "' is not a binary column (found "@ + data_type@),
        e matches Error::NullBlobCell { column, index } ==> says(message_of(e), "cell at row "@ + dec(index as nat))
            && says(message_of(e), " of column '"@ + column@),
{
    match e {
        Error::UnknownColumn { name, available } => {
            let t1 = "unknown column '"@ + name@;
            let t2 = t1 + "' (available: "@;
            let t3 = t2 + available@;
            let t4 = t3 + ")"@;
            let p1 = "unknown column '"@ + name@;
            lemma_start("unknown column '"@, name@);
            lemma_more(t1, p1, "' (available: "@);
            lemma_more(t2, p1, available@);
            lemma_more(t3, p1, ")"@);
            let p3 = "' (available: "@ + available@;
            lemma_end(t1, "' (available: "@, available@);
            lemma_more(t3, p3, ")"@);
        },
        Error::DuplicateColumn(x) => {
            let t1 = "column '"@ + x@;
            let t2 = t1 + "' appears more than once in --columns/--exclude-columns"@;
            let p1 = "column '"@ + x@;
            lemma_start("column '"@, x@);
            lemma_more(t1, p1, "' appears more than once in --columns/--exclude-columns"@);
        },
        Error::NoGlobMatch { pattern, available } => {
            let t1 = "pattern '"@ + pattern@;
            let t2 = t1 + "' matches no columns (available: "@;
            let t3 = t2 + available@;
            let t4 = t3 + ")"@;
            let p1 = "pattern '"@ + pattern@;
            lemma_start("pattern '"@, pattern@);
            lemma_more(t1, p1, "' matches no columns (available: "@);
            lemma_more(t2, p1, available@);
            lemma_more(t3, p1, ")"@);
            let p3 = "' matches no columns (available: "@ + available@;
            lemma_end(t1, "' matches no columns (available: "@, available@);
            lemma_more(t3, p3, ")"@);
        },
        Error::UnknownNestedField { path, parent, field, available } => {
            let t1 = "unknown field '"@ + field@;
            let t2 = t1 + "' in '"@;
            let t3 = t2 + parent@;
            let t4 = t3 + "' for path '"@;
            let t5 = t4 + path@;
            let t6 = t5 + "' (available: "@;
            let t7 = t6 + available@;
            let t8 = t7 + ")"@;
            let p1 = "unknown field '"@ + field@;
            lemma_start("unknown field '"@, field@);
            lemma_more(t1, p1, "' in '"@);
            lemma_more(t2, p1, parent@);
            lemma_more(t3, p1, "' for path '"@);
            lemma_more(t4, p1, path@);
            lemma_more(t5, p1, "' (available: "@);
            lemma_more(t6, p1, available@);
            lemma_more(t7, p1, ")"@);
            let p3 = "' in '"@ + parent@;
            lemma_end(t1, "' in '"@, parent@);
            lemma_more(t3, p3, "' for path '"@);
            lemma_more(t4, p3, path@);
            lemma_more(t5, p3, "' (available: "@);
            lemma_more(t6, p3, available@);
            lemma_more(t7, p3, ")"@);
            let p5 = "' for path '"@ + path@;
            lemma_end(t3, "' for path '"@, path@);
            lemma_more(t5, p5, "' (available: "@);
            lemma_more(t6, p5, available@);
            lemma_more(t7, p5, ")"@);
            let p7 = "' (available: "@ + available@;
            lemma_end(t5, "' (available: "@, available@);
            lemma_more(t7, p7, ")"@);
        },
        Error::NonStructField { path, segment, data_type } => {
            let t1 = "cannot descend into '"@ + segment@;
            let t2 = t1 + "' in path '"@;
            let t3 = t2 + path@;
            let t4 = t3 + "': '"@;
            let t5 = t4 + segment@;
            let t6 = t5 + "' is not a struct (found "@;
            let t7 = t6 + data_type@;
            let t8 = t7 + ")"@;
            let p1 = "cannot descend into '"@ + segment@;
            lemma_start("cannot descend into '"@, segment@);
            lemma_more(t1, p1, "' in path '"@);
            lemma_more(t2, p1, path@);
            lemma_more(t3, p1, "': '"@);
            lemma_more(t4, p1, segment@);
            lemma_more(t5, p1, "' is not a struct (found "@);
            lemma_more(t6, p1, data_type@);
            lemma_more(t7, p1, ")"@);
            let p3 = "' in path '"@ + path@;
            lemma_end(t1, "' in path '"@, path@);
            lemma_more(t3, p3, "': '"@);
            lemma_more(t4, p3, segment@);
            lemma_more(t5, p3, "' is not a struct (found "@);
            lemma_more(t6, p3, data_type@);
            lemma_more(t7, p3, ")"@);
            let p5 = "': '"@ + segment@;
            lemma_end(t3, "': '"@, segment@);
            lemma_more(t5, p5, "' is not a struct (found "@);
            lemma_more(t6, p5, data_type@);
            lemma_more(t7, p5, ")"@);
            let p7 = "' is not a struct (found "@ + data_type@;
            lemma_end(t5, "' is not a struct (found "@, data_type@);
            lemma_more(t7, p7, ")"@);
        },
        Error::SchemaMismatch { left, right, field } => {
            let t1 = "input schemas differ: '"@ + left@;
            let t2 = t1 + "' and '"@;
            let t3 = t2 + right@;
            let t4 = t3 + "' do not match on field '"@;
            let t5 = t4 + field@;
            let t6 = t5 + "'; cat requires strictly matching schemas"@;
            let p1 = "input schemas differ: '"@ + left@;
            lemma_start("input schemas differ: '"@, left@);
            lemma_more(t1, p1, "' and '"@);
            lemma_more(t2, p1, right@);
            lemma_more(t3, p1, "' do not match on field '"@);
            lemma_more(t4, p1, field@);
            lemma_more(t5, p1, "'; cat requires strictly matching schemas"@);
            let p3 = "' and '"@ + right@;
            lemma_end(t1, "' and '"@, right@);
            lemma_more(t3, p3, "' do not match on field '"@);
            lemma_more(t4, p3, field@);
            lemma_more(t5, p3, "'; cat requires strictly matching schemas"@);
            let p5 = "' do not match on field '"@ + field@;
            lemma_end(t3, "' do not match on field '"@, field@);
            lemma_more(t5, p5, "'; cat requires strictly matching schemas"@);
        },
        Error::UnsupportedCsvType { column, data_type } => {
            let t1 = "arrow type "@ + data_type@;
            let t2 = t1 + " in column '"@;
            let t3 = t2 + column@;
            let t4 = t3 + "' cannot be represented in CSV; use --format jsonl"@;
            let p1 = "arrow type "@ + data_type@;
            lemma_start("arrow type "@, data_type@);
            lemma_more(t1, p1, " in column '"@);
            lemma_more(t2, p1, column@);
            lemma_more(t3, p1, "' cannot be represented in CSV; use --format jsonl"@);
            let p3 = " in column '"@ + column@;
            lemma_end(t1, " in column '"@, column@);
            lemma_more(t3, p3, "' cannot be represented in CSV; use --format jsonl"@);
        },
        Error::UnsupportedFreqType { column, data_type } => {
            let t1 = "column '"@ + column@;
            let t2 = t1 + "' has type "@;
            let t3 = t2 + data_type@;
            let t4 = t3 + ", which freq cannot count; supported columns are scalar primitives (strings, numbers, booleans, dates, times, timestamps, decimals)"@;
            let p1 = "column '"@ + column@;
            lemma_start("column '"@, column@);
            lemma_more(t1, p1, "' has type "@);
            lemma_more(t2, p1, data_type@);
            lemma_more(t3, p1, ", which freq cannot count; supported columns are scalar primitives (strings, numbers, booleans, dates, times, timestamps, decimals)"@);
            let p3 = "' has type "@ + data_type@;
            lemma_end(t1, "' has type "@, data_type@);
            lemma_more(t3, p3, ", which freq cannot count; supported columns are scalar primitives (strings, numbers, booleans, dates, times, timestamps, decimals)"@);
        },
        Error::CardinalityExceeded { column, limit } => {
            let t1 = "column '"@ + column@;
            let t2 = t1 + "' has more than "@;
            let t3 = t2 + dec(limit as nat);
            let t4 = t3 + " distinct values; freq refuses to accumulate this many (is this a high-cardinality column such as an id or UUID?). Narrow the input with --where or choose another column"@;
            let p1 = "column '"@ + column@;
            lemma_start("column '"@, column@);
            lemma_more(t1, p1, "' has more than "@);
            lemma_more(t2, p1, dec(limit as nat));
            lemma_more(t3, p1, " distinct values; freq refuses to accumulate this many (is this a high-cardinality column such as an id or UUID?). Narrow the input with --where or choose another column"@);
            let p3 = "' has more than "@ + dec(limit as nat);
            lemma_end(t1, "' has more than "@, dec(limit as nat));
            lemma_more(t3, p3, " distinct values; freq refuses to accumulate this many (is this a high-cardinality column such as an id or UUID?). Narrow the input with --where or choose another column"@);
        },
        Error::NotBinaryColumn { column, data_type } => {
            let t1 = "column '"@ + column@;
            let t2 = t1 + "' is not a binary column (found "@;
            let t3 = t2 + data_type@;
            let t4 = t3 + ")"@;
            let p1 = "column '"@ + column@;
            lemma_start("column '"@, column@);
            lemma_more(t1, p1, "' is not a binary column (found "@);
            lemma_more(t2, p1, data_type@);
            lemma_more(t3, p1, ")"@);
            let p3 = "' is not a binary column (found "@ + data_type@;
            lemma_end(t1, "' is not a binary column (found "@, data_type@);
            lemma_more(t3, p3, ")"@);
        },
        Error::NullBlobCell { column, index } => {
            let t1 = "cell at row "@ + dec(index as nat);
            let t2 = t1 + " of column '"@;
            let t3 = t2 + column@;
            let t4 = t3 + "' is null"@;
            let p1 = "cell at row "@ + dec(index as nat);
            lemma_start("cell at row "@, dec(index as nat));
            lemma_more(t1, p1, " of column '"@);
            lemma_more(t2, p1, column@);
            lemma_more(t3, p1, "' is null"@);
            let p3 = " of column '"@ + column@;
            lemma_end(t1, " of column '"@, column@);
            lemma_more(t3, p3, "' is null"@);
        },
        _ => {},
    }
}

/// A message about rows names the positions, numbers and texts that it is about.
pub proof fn law_messages_name_their_rows(e: Error)
    ensures
        e matches Error::IndexParse(x) ==> says(message_of(e), "--indices parse error: "@ + x@),
        e matches Error::IndexOutOfRange { index, rowcount } ==> says(message_of(e), "index "@ + dec_int(index as int))
            && says(message_of(e), " is out of range for dataset with "@ + dec(rowcount as nat)),
        e matches Error::EmptyRange { start, end } ==> says(message_of(e), "range "@ + dec_int(start as int))
            && says(message_of(e), ":"@ + dec_int(end as int)),
        e matches Error::SampleTooLarge { requested, rowcount } ==> says(message_of(e), "sample size "@ + dec(requested as nat))
            && says(message_of(e), " is larger than the available row count "@ + dec(rowcount as nat)),
        e matches Error::InvalidPredicate(x) ==> says(message_of(e), "invalid --where predicate: "@ + x@),
        e matches Error::NotVectorColumn { column, data_type } ==> says(message_of(e), "column '"@ + column@)
            && says(message_of(e), "' is not a vector column (found "@ + data_type@),
        e matches Error::VectorDimMismatch { query, column, column_dims } ==> says(message_of(e), "query has "@ + dec(query as nat))
            && says(message_of(e), " dims, column "@ + column@)
            && says(message_of(e), " has "@ + dec(column_dims as nat)),
        e matches Error::VectorParse(x) ==> says(message_of(e), "could not parse query vector as a JSON array of numbers: "@ + x@),
{
    match e {
        Error::IndexParse(x) => {
            let t1 = "--indices parse error: "@ + x@;
            let p1 = "--indices parse error: "@ + x@;
            lemma_start("--indices parse error: "@, x@);
        },
        Error::IndexOutOfRange { index, rowcount } => {
            let t1 = "index "@ + dec_int(index as int);
            let t2 = t1 + " is out of range for dataset with "@;
            let t3 = t2 + dec(rowcount as nat);
            let t4 = t3 + " rows"@;
            let p1 = "index "@ + dec_int(index as int);
            lemma_start("index "@, dec_int(index as int));
            lemma_more(t1, p1, " is out of range for dataset with "@);
            lemma_more(t2, p1, dec(rowcount as nat));
            lemma_more(t3, p1, " rows"@);
            let p3 = " is out of range for dataset with "@ + dec(rowcount as nat);
            lemma_end(t1, " is out of range for dataset with "@, dec(rowcount as nat));
            lemma_more(t3, p3, " rows"@);
        },
        Error::EmptyRange { start, end } => {
            let t1 = "range "@ + dec_int(start as int);
            let t2 = t1 + ":"@;
            let t3 = t2 + dec_int(end as int);
            let t4 = t3 + " is empty (start > end)"@;
            let p1 = "range "@ + dec_int(start as int);
            lemma_start("range "@, dec_int(start as int));
            lemma_more(t1, p1, ":"@);
            lemma_more(t2, p1, dec_int(end as int));
            lemma_more(t3, p1, " is empty (start > end)"@);
            let p3 = ":"@ + dec_int(end as int);
            lemma_end(t1, ":"@, dec_int(end as int));
            lemma_more(t3, p3, " is empty (start > end)"@);
        },
        Error::SampleTooLarge { requested, rowcount } => {
            let t1 = "sample size "@ + dec(requested as nat);
            let t2 = t1 + " is larger than the available row count "@;
            let t3 = t2 + dec(rowcount as nat);
            let p1 = "sample size "@ + dec(requested as nat);
            lemma_start("sample size "@, dec(requested as nat));
            lemma_more(t1, p1, " is larger than the available row count "@);
            lemma_more(t2, p1, dec(rowcount as nat));
            let p3 = " is larger than the available row count "@ + dec(rowcount as nat);
            lemma_end(t1, " is larger than the available row count "@, dec(rowcount as nat));
        },
        Error::InvalidPredicate(x) => {
            let t1 = "invalid --where predicate: "@ + x@;
            let p1 = "invalid --where predicate: "@ + x@;
            lemma_start("invalid --where predicate: "@, x@);
        },
        Error::NotVectorColumn { column, data_type } => {
            let t1 = "column '"@ + column@;
            let t2 = t1 + "' is not a vector column (found "@;
            let t3 = t2 + data_type@;
            let t4 = t3 + ", expected a fixed-size list of f16/f32/f64)"@;
            let p1 = "column '"@ + column@;
            lemma_start("column '"@, column@);
            lemma_more(t1, p1, "' is not a vector column (found "@);
            lemma_more(t2, p1, data_type@);
            lemma_more(t3, p1, ", expected a fixed-size list of f16/f32/f64)"@);
            let p3 = "' is not a vector column (found "@ + data_type@;
            lemma_end(t1, "' is not a vector column (found "@, data_type@);
            lemma_more(t3, p3, ", expected a fixed-size list of f16/f32/f64)"@);
        },
        Error::VectorDimMismatch { query, column, column_dims } => {
            let t1 = "query has "@ + dec(query as nat);
            let t2 = t1 + " dims, column "@;
            let t3 = t2 + column@;
            let t4 = t3 + " has "@;
            let t5 = t4 + dec(column_dims as nat);
            let p1 = "query has "@ + dec(query as nat);
            lemma_start("query has "@, dec(query as nat));
            lemma_more(t1, p1, " dims, column "@);
            lemma_more(t2, p1, column@);
            lemma_more(t3, p1, " has "@);
            lemma_more(t4, p1, dec(column_dims as nat));
            let p3 = " dims, column "@ + column@;
            lemma_end(t1, " dims, column "@, column@);
            lemma_more(t3, p3, " has "@);
            lemma_more(t4, p3, dec(column_dims as nat));
            let p5 = " has "@ + dec(column_dims as nat);
            lemma_end(t3, " has "@, dec(column_dims as nat));
        },
        Error::VectorParse(x) => {
            let t1 = "could not parse query vector as a JSON array of numbers: "@ + x@;
            let p1 = "could not parse query vector as a JSON array of numbers: "@ + x@;
            lemma_start("could not parse query vector as a JSON array of numbers: "@, x@);
        },
        _ => {},
    }
}

/// A message about datasets names the paths, branches, tags and moments that it is about.
#[verifier::rlimit(40)]
pub proof fn law_messages_name_their_datasets(e: Error)
    ensures
        e matches Error::UnknownFormat { path } ==> says(message_of(e), "unrecognised dataset format at "@ + path@),
        e matches Error::LanceFlagsOnNonLance { path } ==> says(message_of(e), "--branch/--version/--tag/--as-of are only valid for Lance datasets ("@ + path@),
        e matches Error::NotLance { command, path } ==> says(message_of(e), "'"@ + command@)
            && says(message_of(e), "' is only valid for Lance datasets ("@ + path@),
        e matches Error::TagBranchMismatch { tag, tag_branch, requested_branch } ==> says(message_of(e), "tag '"@ + tag@)
            && says(message_of(e), "' is on branch '"@ + tag_branch@)
            && says(message_of(e), "', not '"@ + requested_branch@)
            && says(message_of(e), "'; remove --branch or pass --branch "@ + tag_branch@),
        e matches Error::InvalidAsOf(x) ==> says(message_of(e), "could not parse --as-of value '"@ + x@),
        e matches Error::AsOfBeforeFirstVersion { requested, earliest } ==> says(message_of(e), "--as-of "@ + requested@)
            && says(message_of(e), " predates the earliest version on this branch (earliest: "@ + earliest@),
        e matches Error::DiffCrossBranch { from_branch, to_branch } ==> says(message_of(e), "diff compares two versions of one branch, but the endpoints resolved to different branches ('"@ + from_branch@)
            && says(message_of(e), "' and '"@ + to_branch@),
        e matches Error::DiffColumn { path, error } ==> says(message_of(e), "in "@ + path@)
            && says(message_of(e), ": "@ + message_of(*error)),
        e matches Error::RowIdUnsupported { path } ==> says(message_of(e), "--with-row-id/--with-row-addr are not supported by this dataset's format ("@ + path@),
        e matches Error::InvalidGlobPattern { pattern, message } ==> says(message_of(e), "invalid input pattern '"@ + pattern@)
            && says(message_of(e), "': "@ + message@),
        e matches Error::InputGlobNoMatch { pattern } ==> says(message_of(e), "input pattern '"@ + pattern@),
{
    match e {
        Error::UnknownFormat { path } => {
            let t1 = "unrecognised dataset format at "@ + path@;
            let p1 = "unrecognised dataset format at "@ + path@;
            lemma_start("unrecognised dataset format at "@, path@);
        },
        Error::LanceFlagsOnNonLance { path } => {
            let t1 = "--branch/--version/--tag/--as-of are only valid for Lance datasets ("@ + path@;
            let t2 = t1 + ")"@;
            let p1 = "--branch/--version/--tag/--as-of are only valid for Lance datasets ("@ + path@;
            lemma_start("--branch/--version/--tag/--as-of are only valid for Lance datasets ("@, path@);
            lemma_more(t1, p1, ")"@);
        },
        Error::NotLance { command, path } => {
            let t1 = "'"@ + command@;
            let t2 = t1 + "' is only valid for Lance datasets ("@;
            let t3 = t2 + path@;
            let t4 = t3 + ")"@;
            let p1 = "'"@ + command@;
            lemma_start("'"@, command@);
            lemma_more(t1, p1, "' is only valid for Lance datasets ("@);
            lemma_more(t2, p1, path@);
            lemma_more(t3, p1, ")"@);
            let p3 = "' is only valid for Lance datasets ("@ + path@;
            lemma_end(t1, "' is only valid for Lance datasets ("@, path@);
            lemma_more(t3, p3, ")"@);
        },
        Error::TagBranchMismatch { tag, tag_branch, requested_branch } => {
            let t1 = "tag '"@ + tag@;
            let t2 = t1 + "' is on branch '"@;
            let t3 = t2 + tag_branch@;
            let t4 = t3 + "', not '"@;
            let t5 = t4 + requested_branch@;
            let t6 = t5 + "'; remove --branch or pass --branch "@;
            let t7 = t6 + tag_branch@;
            let p1 = "tag '"@ + tag@;
            lemma_start("tag '"@, tag@);
            lemma_more(t1, p1, "' is on branch '"@);
            lemma_more(t2, p1, tag_branch@);
            lemma_more(t3, p1, "', not '"@);
            lemma_more(t4, p1, requested_branch@);
            lemma_more(t5, p1, "'; remove --branch or pass --branch "@);
            lemma_more(t6, p1, tag_branch@);
            let p3 = "' is on branch '"@ + tag_branch@;
            lemma_end(t1, "' is on branch '"@, tag_branch@);
            lemma_more(t3, p3, "', not '"@);
            lemma_more(t4, p3, requested_branch@);
            lemma_more(t5, p3, "'; remove --branch or pass --branch "@);
            lemma_more(t6, p3, tag_branch@);
            let p5 = "', not '"@ + requested_branch@;
            lemma_end(t3, "', not '"@, requested_branch@);
            lemma_more(t5, p5, "'; remove --branch or pass --branch "@);
            lemma_more(t6, p5, tag_branch@);
            let p7 = "'; remove --branch or pass --branch "@ + tag_branch@;
            lemma_end(t5, "'; remove --branch or pass --branch "@, tag_branch@);
        },
        Error::InvalidAsOf(x) => {
            let t1 = "could not parse --as-of value '"@ + x@;
            let t2 = t1 + "': expected RFC 3339 with offset (e.g. 2026-07-01T12:00:00Z), a naive datetime interpreted as UTC (e.g. 2026-07-01T12:00:00), or a date interpreted as midnight UTC (e.g. 2026-07-01)"@;
            let p1 = "could not parse --as-of value '"@ + x@;
            lemma_start("could not parse --as-of value '"@, x@);
            lemma_more(t1, p1, "': expected RFC 3339 with offset (e.g. 2026-07-01T12:00:00Z), a naive datetime interpreted as UTC (e.g. 2026-07-01T12:00:00), or a date interpreted as midnight UTC (e.g. 2026-07-01)"@);
        },
        Error::AsOfBeforeFirstVersion { requested, earliest } => {
            let t1 = "--as-of "@ + requested@;
            let t2 = t1 + " predates the earliest version on this branch (earliest: "@;
            let t3 = t2 + earliest@;
            let t4 = t3 + "); pass a timestamp at or after it"@;
            let p1 = "--as-of "@ + requested@;
            lemma_start("--as-of "@, requested@);
            lemma_more(t1, p1, " predates the earliest version on this branch (earliest: "@);
            lemma_more(t2, p1, earliest@);
            lemma_more(t3, p1, "); pass a timestamp at or after it"@);
            let p3 = " predates the earliest version on this branch (earliest: "@ + earliest@;
            lemma_end(t1, " predates the earliest version on this branch (earliest: "@, earliest@);
            lemma_more(t3, p3, "); pass a timestamp at or after it"@);
        },
        Error::DiffCrossBranch { from_branch, to_branch } => {
            let t1 = "diff compares two versions of one branch, but the endpoints resolved to different branches ('"@ + from_branch@;
            let t2 = t1 + "' and '"@;
            let t3 = t2 + to_branch@;
            let t4 = t3 + "'); scope both with --branch or use tags on the same branch"@;
            let p1 = "diff compares two versions of one branch, but the endpoints resolved to different branches ('"@ + from_branch@;
            lemma_start("diff compares two versions of one branch, but the endpoints resolved to different branches ('"@, from_branch@);
            lemma_more(t1, p1, "' and '"@);
            lemma_more(t2, p1, to_branch@);
            lemma_more(t3, p1, "'); scope both with --branch or use tags on the same branch"@);
            let p3 = "' and '"@ + to_branch@;
            lemma_end(t1, "' and '"@, to_branch@);
            lemma_more(t3, p3, "'); scope both with --branch or use tags on the same branch"@);
        },
        Error::DiffColumn { path, error } => {
            let t1 = "in "@ + path@;
            let t2 = t1 + ": "@;
            let t3 = t2 + message_of(*error);
            let p1 = "in "@ + path@;
            lemma_start("in "@, path@);
            lemma_more(t1, p1, ": "@);
            lemma_more(t2, p1, message_of(*error));
            let p3 = ": "@ + message_of(*error);
            lemma_end(t1, ": "@, message_of(*error));
        },
        Error::RowIdUnsupported { path } => {
            let t1 = "--with-row-id/--with-row-addr are not supported by this dataset's format ("@ + path@;
            let t2 = t1 + ")"@;
            let p1 = "--with-row-id/--with-row-addr are not supported by this dataset's format ("@ + path@;
            lemma_start("--with-row-id/--with-row-addr are not supported by this dataset's format ("@, path@);
            lemma_more(t1, p1, ")"@);
        },
        Error::InvalidGlobPattern { pattern, message } => {
            let t1 = "invalid input pattern '"@ + pattern@;
            let t2 = t1 + "': "@;
            let t3 = t2 + message@;
            let p1 = "invalid input pattern '"@ + pattern@;
            lemma_start("invalid input pattern '"@, pattern@);
            lemma_more(t1, p1, "': "@);
            lemma_more(t2, p1, message@);
            let p3 = "': "@ + message@;
            lemma_end(t1, "': "@, message@);
        },
        Error::InputGlobNoMatch { pattern } => {
            let t1 = "input pattern '"@ + pattern@;
            let t2 = t1 + "' matched no files"@;
            let p1 = "input pattern '"@ + pattern@;
            lemma_start("input pattern '"@, pattern@);
            lemma_more(t1, p1, "' matched no files"@);
        },
        _ => {},
    }
}

/// A message about flags names the commands, formats and flags that it is about.
pub proof fn law_messages_name_their_flags(e: Error)
    ensures
        e matches Error::FormatNotApplicable { command } ==> says(message_of(e), "--format is not applicable to '"@ + command@),
        e matches Error::DiffFormatUnsupported { format } ==> says(message_of(e), "diff supports only the default human-readable summary or --format jsonl (got "@ + format@),
        e matches Error::RowIdExcluded { column, flag } ==> says(message_of(e), "cannot exclude the system column '"@ + column@)
            && says(message_of(e), "': it is always emitted with "@ + flag@),
        e matches Error::IpcNotApplicable { command } ==> says(message_of(e), "--format ipc is not applicable to '"@ + command@),
        e matches Error::IpcRenderingFlag { flag } ==> says(message_of(e), "--format ipc cannot be combined with "@ + flag@),
{
    match e {
        Error::FormatNotApplicable { command } => {
            let t1 = "--format is not applicable to '"@ + command@;
            let t2 = t1 + "' (it does not emit row-shaped output)"@;
            let p1 = "--format is not applicable to '"@ + command@;
            lemma_start("--format is not applicable to '"@, command@);
            lemma_more(t1, p1, "' (it does not emit row-shaped output)"@);
        },
        Error::DiffFormatUnsupported { format } => {
            let t1 = "diff supports only the default human-readable summary or --format jsonl (got "@ + format@;
            let t2 = t1 + ")"@;
            let p1 = "diff supports only the default human-readable summary or --format jsonl (got "@ + format@;
            lemma_start("diff supports only the default human-readable summary or --format jsonl (got "@, format@);
            lemma_more(t1, p1, ")"@);
        },
        Error::RowIdExcluded { column, flag } => {
            let t1 = "cannot exclude the system column '"@ + column@;
            let t2 = t1 + "': it is always emitted with "@;
            let t3 = t2 + flag@;
            let t4 = t3 + "; drop the flag instead"@;
            let p1 = "cannot exclude the system column '"@ + column@;
            lemma_start("cannot exclude the system column '"@, column@);
            lemma_more(t1, p1, "': it is always emitted with "@);
            lemma_more(t2, p1, flag@);
            lemma_more(t3, p1, "; drop the flag instead"@);
            let p3 = "': it is always emitted with "@ + flag@;
            lemma_end(t1, "': it is always emitted with "@, flag@);
            lemma_more(t3, p3, "; drop the flag instead"@);
        },
        Error::IpcNotApplicable { command } => {
            let t1 = "--format ipc is not applicable to '"@ + command@;
            let t2 = t1 + "' (it is valid on cat/head/tail/take/sample)"@;
            let p1 = "--format ipc is not applicable to '"@ + command@;
            lemma_start("--format ipc is not applicable to '"@, command@);
            lemma_more(t1, p1, "' (it is valid on cat/head/tail/take/sample)"@);
        },
        Error::IpcRenderingFlag { flag } => {
            let t1 = "--format ipc cannot be combined with "@ + flag@;
            let t2 = t1 + " (an Arrow stream carries values unrendered)"@;
            let p1 = "--format ipc cannot be combined with "@ + flag@;
            lemma_start("--format ipc cannot be combined with "@, flag@);
            lemma_more(t1, p1, " (an Arrow stream carries values unrendered)"@);
        },
        _ => {},
    }
}

} // verus!
