//! Listings: what stands under each header.
use vstd::prelude::*;

use crate::cell::{Cell, Float};
use crate::commands::common::human;
use crate::commands::freq::{is_freq_row, is_freq_schema, percent_of};
use crate::commands::lance::branches::{is_branch_row, is_branches_schema};
use crate::commands::lance::fragments::{is_fragment_row, is_fragments_schema, summary};
use crate::commands::lance::index_stats::{is_index_stats_row, is_index_stats_schema};
use crate::commands::lance::indices::{is_index_row, is_indices_schema};
use crate::commands::lance::stat::is_stat_schema;
use crate::commands::lance::tags::{is_tag_row, is_tags_schema};
use crate::commands::lance::versions::{is_version_row, is_versions_schema};
use crate::dataset::{
    BranchInfo, ColumnStats, FragmentInfo, IndexInfo, IndexStats, Instant, TagInfo, VersionInfo,
};
use crate::json::opt_view;
use crate::listing::{is_field, is_time_field};
use crate::laws::dataset_stat::{bytes_stored, law_totals_are_sums, rows_deleted, rows_stored};
use crate::schema::{Field, Kind, TimeUnit};
use crate::stats::{is_output_schema, is_stats_row};
use crate::text::{dec, join, texts};

verus! {

/// True where the column at `i` has the header `name`.
pub open spec fn headed(fields: Seq<Field>, name: Seq<char>, i: int) -> bool {
    0 <= i < fields.len() && fields[i].name@ == name
}

/// True of columns under these headers, in this order.
pub open spec fn headers_are(fields: Seq<Field>, names: Seq<Seq<char>>) -> bool {
    fields.len() == names.len() && forall|i: int|
        0 <= i < fields.len() ==> (#[trigger] fields[i]).name@ == names[i]
}

/// True of a cell that holds a text, or a null where there is none.
pub open spec fn holds_text(c: Cell, t: Option<Seq<char>>) -> bool {
    match t {
        Some(s) => c matches Cell::Text(x) && x@ == s,
        None => c is Null,
    }
}

/// True of a cell that holds a number, or a null where there is none.
pub open spec fn holds_number(c: Cell, n: Option<u64>) -> bool {
    match n {
        Some(x) => c == Cell::UInt(x),
        None => c is Null,
    }
}

/// True of a cell that holds a measure, or a null where there is none.
pub open spec fn holds_float(c: Cell, f: Option<Float>) -> bool {
    match f {
        Some(x) => c == Cell::Float(x),
        None => c is Null,
    }
}

/// True of a cell that holds an instant to the microsecond in UTC, or a null where
/// there is none.
pub open spec fn holds_time(c: Cell, t: Option<Instant>) -> bool {
    match t {
        Some(x) => c matches Cell::Timestamp(v, u, z) && u == TimeUnit::Microsecond && opt_view(z)
            == Some("UTC"@) && v * 1_000 <= x.secs * 1_000_000_000 + x.nanos < (v + 1) * 1_000,
        None => c is Null,
    }
}

/// True of a cell that a column may hold: a value of the column's type, or a null
/// where the column is nullable.
pub open spec fn belongs(c: Cell, f: Field) -> bool {
    match c {
        Cell::Null => f.nullable,
        Cell::Text(_) => f.data_type.kind is Utf8,
        Cell::UInt(_) => f.data_type.kind is UInt64,
        Cell::Float(_) => f.data_type.kind is Float64,
        Cell::List(_) => f.data_type.kind is List,
        Cell::Timestamp(_, u, z) => f.data_type.kind matches Kind::Timestamp(w, y) && u == w
            && opt_view(z) == opt_view(y),
        _ => false,
    }
}

/// True of a row whose cells all belong to their columns.
pub open spec fn row_belongs(row: Seq<Cell>, fields: Seq<Field>) -> bool {
    row.len() == fields.len() && forall|i: int|
        0 <= i < row.len() ==> belongs(#[trigger] row[i], fields[i])
}

/// The table of statistics shows each of a column under its own header.
pub proof fn law_statistics_stand_under_their_headers(
    fields: Seq<Field>,
    row: Seq<Cell>,
    s: ColumnStats,
)
    requires
        is_output_schema(fields),
        is_stats_row(row, s),
    ensures
        row_belongs(row, fields),
        headers_are(
            fields,
            seq!["column"@, "type"@, "count"@, "nulls"@, "min"@, "max"@, "mean"@, "stddev"@, "distinct"@],
        ),
        exists|i: int| #[trigger] headed(fields, "column"@, i) && holds_text(row[i], Some(s.column@)),
        exists|i: int| #[trigger]
            headed(fields, "type"@, i) && holds_text(row[i], Some(s.data_type@)),
        exists|i: int| #[trigger] headed(fields, "count"@, i) && holds_number(row[i], Some(s.count)),
        exists|i: int| #[trigger] headed(fields, "nulls"@, i) && holds_number(row[i], Some(s.nulls)),
        exists|i: int| #[trigger] headed(fields, "min"@, i) && holds_text(row[i], opt_view(s.min)),
        exists|i: int| #[trigger] headed(fields, "max"@, i) && holds_text(row[i], opt_view(s.max)),
        exists|i: int| #[trigger] headed(fields, "mean"@, i) && holds_float(row[i], s.mean),
        exists|i: int| #[trigger] headed(fields, "stddev"@, i) && holds_float(row[i], s.stddev),
        exists|i: int| #[trigger]
            headed(fields, "distinct"@, i) && holds_text(row[i], opt_view(s.distinct)),
{
    assert(headed(fields, "column"@, 0));
    assert(headed(fields, "type"@, 1));
    assert(headed(fields, "count"@, 2));
    assert(headed(fields, "nulls"@, 3));
    assert(headed(fields, "min"@, 4));
    assert(headed(fields, "max"@, 5));
    assert(headed(fields, "mean"@, 6));
    assert(headed(fields, "stddev"@, 7));
    assert(headed(fields, "distinct"@, 8));
}

/// A listing of fragments shows each property of a fragment under its own header.
/// The size stands last: in bytes, or for readers in a unit that fits it.
pub proof fn law_fragments_stand_under_their_headers(
    fields: Seq<Field>,
    row: Seq<Cell>,
    f: FragmentInfo,
    human_size: bool,
    files: bool,
)
    requires
        is_fragments_schema(fields, human_size, files),
        is_fragment_row(row, f, human_size, files),
    ensures
        row_belongs(row, fields),
        files ==> headers_are(
            fields,
            seq!["id"@, "physical_rows"@, "deleted_rows"@, "num_files"@, "files"@, "size"@],
        ),
        !files ==> headers_are(
            fields,
            seq!["id"@, "physical_rows"@, "deleted_rows"@, "num_files"@, "size"@],
        ),
        exists|i: int| #[trigger] headed(fields, "id"@, i) && holds_number(row[i], Some(f.id)),
        exists|i: int| #[trigger]
            headed(fields, "physical_rows"@, i) && holds_number(row[i], Some(f.physical_rows)),
        exists|i: int| #[trigger]
            headed(fields, "deleted_rows"@, i) && holds_number(row[i], Some(f.deleted_rows)),
        exists|i: int| #[trigger]
            headed(fields, "num_files"@, i) && holds_number(row[i], Some(f.num_files)),
        files ==> exists|i: int| #[trigger]
            headed(fields, "files"@, i) && holds_text(row[i], Some(join(texts(f.files@), ","@))),
        exists|i: int| #[trigger]
            headed(fields, "size"@, i) && i == fields.len() - 1 && if human_size {
                holds_text(
                    row[i],
                    match f.size {
                        Some(n) => Some(human(n as nat)),
                        None => None,
                    },
                )
            } else {
                holds_number(row[i], f.size)
            },
{
    assert(headed(fields, "id"@, 0));
    assert(headed(fields, "physical_rows"@, 1));
    assert(headed(fields, "deleted_rows"@, 2));
    assert(headed(fields, "num_files"@, 3));
    if files {
        assert(headed(fields, "files"@, 4));
    }
    assert(headed(fields, "size"@, fields.len() - 1));
}

/// The line below a listing of fragments gives their number and the sums of their
/// rows and bytes.
pub proof fn law_totals_stand_below_the_fragments(fragments: Seq<FragmentInfo>)
    ensures
        summary(fragments, true) == dec(fragments.len()) + " fragment(s), "@ + dec(
            rows_stored(fragments),
        ) + " physical row(s), "@ + dec(rows_deleted(fragments)) + " deleted row(s)"@,
        summary(fragments, false) == summary(fragments, true) + ", "@ + human(
            bytes_stored(fragments),
        ) + " total"@,
{
    law_totals_are_sums(fragments);
}

/// A listing of index statistics shows each of an index under its own header. The
/// coverage is the part of the rows that the index covers, in percent; an index
/// without rows has none.
pub proof fn law_index_statistics_stand_under_their_headers(
    fields: Seq<Field>,
    row: Seq<Cell>,
    s: IndexStats,
    detail: bool,
)
    requires
        is_index_stats_schema(fields, detail),
        is_index_stats_row(row, s, detail),
    ensures
        row_belongs(row, fields),
        detail ==> headers_are(
            fields,
            seq!["name"@, "type"@, "indexed_rows"@, "unindexed_rows"@, "coverage"@, "detail"@],
        ),
        !detail ==> headers_are(
            fields,
            seq!["name"@, "type"@, "indexed_rows"@, "unindexed_rows"@, "coverage"@],
        ),
        exists|i: int| #[trigger] headed(fields, "name"@, i) && holds_text(row[i], Some(s.name@)),
        exists|i: int| #[trigger]
            headed(fields, "type"@, i) && holds_text(row[i], Some(s.index_type@)),
        exists|i: int| #[trigger]
            headed(fields, "indexed_rows"@, i) && holds_number(row[i], Some(s.indexed_rows)),
        exists|i: int| #[trigger]
            headed(fields, "unindexed_rows"@, i) && holds_number(row[i], Some(s.unindexed_rows)),
        s.indexed_rows + s.unindexed_rows > 0 ==> exists|i: int| #[trigger]
            headed(fields, "coverage"@, i) && holds_text(
                row[i],
                Some(
                    percent_of(
                        s.indexed_rows as nat,
                        (s.indexed_rows + s.unindexed_rows) as nat,
                    ),
                ),
            ),
        s.indexed_rows + s.unindexed_rows == 0 ==> exists|i: int| #[trigger]
            headed(fields, "coverage"@, i) && holds_text(row[i], Some("n/a"@)),
        detail ==> exists|i: int| #[trigger]
            headed(fields, "detail"@, i) && holds_text(row[i], Some(s.detail@)),
{
    assert(headed(fields, "name"@, 0));
    assert(headed(fields, "type"@, 1));
    assert(headed(fields, "indexed_rows"@, 2));
    assert(headed(fields, "unindexed_rows"@, 3));
    assert(headed(fields, "coverage"@, 4));
    if detail {
        assert(headed(fields, "detail"@, 5));
    }
}

/// A listing of indices shows each property of an index under its own header.
pub proof fn law_indices_stand_under_their_headers(fields: Seq<Field>, row: Seq<Cell>, x: IndexInfo)
    requires
        is_indices_schema(fields),
        is_index_row(row, x),
    ensures
        row_belongs(row, fields),
        headers_are(
            fields,
            seq!["name"@, "type"@, "uuid"@, "columns"@, "dataset_version"@, "created_at"@],
        ),
        exists|i: int| #[trigger] headed(fields, "name"@, i) && holds_text(row[i], Some(x.name@)),
        exists|i: int| #[trigger]
            headed(fields, "type"@, i) && holds_text(row[i], Some(x.index_type@)),
        exists|i: int| #[trigger] headed(fields, "uuid"@, i) && holds_text(row[i], Some(x.uuid@)),
        exists|i: int| #[trigger]
            headed(fields, "columns"@, i) && (row[i] matches Cell::List(v) && v@.len()
                == x.columns@.len() && forall|j: int|
                0 <= j < v@.len() ==> holds_text(#[trigger] v@[j], Some(x.columns@[j]@))),
        exists|i: int| #[trigger]
            headed(fields, "dataset_version"@, i) && holds_number(row[i], Some(x.dataset_version)),
        exists|i: int| #[trigger]
            headed(fields, "created_at"@, i) && holds_time(row[i], x.created_at),
{
    assert(headed(fields, "name"@, 0));
    assert(headed(fields, "type"@, 1));
    assert(headed(fields, "uuid"@, 2));
    assert(headed(fields, "columns"@, 3));
    assert(headed(fields, "dataset_version"@, 4));
    assert(headed(fields, "created_at"@, 5));
    let v = row[3]->List_0;
    assert forall|j: int| 0 <= j < v@.len() implies holds_text(
        #[trigger] v@[j],
        Some(x.columns@[j]@),
    ) by {
        assert(crate::listing::is_text(v@[j], Some(texts(x.columns@)[j])));
    }
}

/// A listing of branches shows each property of a branch under its own header.
pub proof fn law_branches_stand_under_their_headers(
    fields: Seq<Field>,
    row: Seq<Cell>,
    b: BranchInfo,
)
    requires
        is_branches_schema(fields),
        is_branch_row(row, b),
    ensures
        row_belongs(row, fields),
        headers_are(
            fields,
            seq!["name"@, "parent_branch"@, "parent_version"@, "created_at"@],
        ),
        exists|i: int| #[trigger] headed(fields, "name"@, i) && holds_text(row[i], Some(b.name@)),
        exists|i: int| #[trigger]
            headed(fields, "parent_branch"@, i) && holds_text(row[i], opt_view(b.parent_branch)),
        exists|i: int| #[trigger]
            headed(fields, "parent_version"@, i) && holds_number(row[i], b.parent_version),
        exists|i: int| #[trigger]
            headed(fields, "created_at"@, i) && holds_time(row[i], b.created_at),
{
    assert(headed(fields, "name"@, 0));
    assert(headed(fields, "parent_branch"@, 1));
    assert(headed(fields, "parent_version"@, 2));
    assert(headed(fields, "created_at"@, 3));
}

/// A listing of tags shows each property of a tag under its own header.
pub proof fn law_tags_stand_under_their_headers(fields: Seq<Field>, row: Seq<Cell>, t: TagInfo)
    requires
        is_tags_schema(fields),
        is_tag_row(row, t),
    ensures
        row_belongs(row, fields),
        headers_are(
            fields,
            seq!["name"@, "branch"@, "version"@],
        ),
        exists|i: int| #[trigger] headed(fields, "name"@, i) && holds_text(row[i], Some(t.name@)),
        exists|i: int| #[trigger] headed(fields, "branch"@, i) && holds_text(row[i], Some(t.branch@)),
        exists|i: int| #[trigger]
            headed(fields, "version"@, i) && holds_number(row[i], Some(t.version)),
{
    assert(headed(fields, "name"@, 0));
    assert(headed(fields, "branch"@, 1));
    assert(headed(fields, "version"@, 2));
}

/// A listing of versions shows each property of a version under its own header.
pub proof fn law_versions_stand_under_their_headers(
    fields: Seq<Field>,
    row: Seq<Cell>,
    v: VersionInfo,
)
    requires
        is_versions_schema(fields),
        is_version_row(row, v),
    ensures
        row_belongs(row, fields),
        headers_are(
            fields,
            seq!["version"@, "timestamp"@, "tag"@, "message"@],
        ),
        exists|i: int| #[trigger]
            headed(fields, "version"@, i) && holds_number(row[i], Some(v.version)),
        exists|i: int| #[trigger]
            headed(fields, "timestamp"@, i) && holds_time(row[i], Some(v.timestamp)),
        exists|i: int| #[trigger] headed(fields, "tag"@, i) && holds_text(row[i], opt_view(v.tag)),
        exists|i: int| #[trigger]
            headed(fields, "message"@, i) && holds_text(row[i], opt_view(v.message)),
{
    assert(headed(fields, "version"@, 0));
    assert(headed(fields, "timestamp"@, 1));
    assert(headed(fields, "tag"@, 2));
    assert(headed(fields, "message"@, 3));
}

/// A table of frequencies shows a value, how often it occurs, and what part of all
/// values that is, each under its own header.
pub proof fn law_frequencies_stand_under_their_headers(
    fields: Seq<Field>,
    row: Seq<Cell>,
    label: Seq<char>,
    count: u64,
    total: nat,
)
    requires
        is_freq_schema(fields),
        is_freq_row(row, label, count as nat, total),
    ensures
        row_belongs(row, fields),
        headers_are(
            fields,
            seq!["value"@, "count"@, "percent"@],
        ),
        exists|i: int| #[trigger] headed(fields, "value"@, i) && holds_text(row[i], Some(label)),
        exists|i: int| #[trigger] headed(fields, "count"@, i) && holds_number(row[i], Some(count)),
        exists|i: int| #[trigger]
            headed(fields, "percent"@, i) && holds_text(
                row[i],
                Some(percent_of(count as nat, total)),
            ),
{
    assert(headed(fields, "value"@, 0));
    assert(headed(fields, "count"@, 1));
    assert(headed(fields, "percent"@, 2));
}

/// The table of a dataset's summary has the metrics on the left and their values on
/// the right.
pub proof fn law_metrics_stand_left_of_their_values(fields: Seq<Field>)
    requires
        is_stat_schema(fields),
    ensures
        headers_are(
            fields,
            seq!["metric"@, "value"@],
        ),
        headed(fields, "metric"@, 0),
        headed(fields, "value"@, 1),
        fields[0].data_type.kind is Utf8,
        fields[1].data_type.kind is Utf8,
{
}

/// The columns of a listing are labelled by their types.
pub proof fn law_listing_columns_are_labelled(f: Field, name: Seq<char>, kind: Kind, nullable: bool)
    ensures
        is_field(f, name, Kind::Utf8, nullable) ==> f.data_type.display@ == "Utf8"@
            && f.data_type.debug@ == "Utf8"@,
        is_field(f, name, Kind::UInt64, nullable) ==> f.data_type.display@ == "UInt64"@
            && f.data_type.debug@ == "UInt64"@,
        is_field(f, name, Kind::Float64, nullable) ==> f.data_type.display@ == "Float64"@
            && f.data_type.debug@ == "Float64"@,
        is_field(f, name, kind, nullable) ==> f.name@ == name && f.data_type.kind == kind && f.nullable
            == nullable,
        is_time_field(f, name, nullable) ==> f.data_type.display@ == "Timestamp(\u{b5}s, \"UTC\")"@
            && f.data_type.debug@ == "Timestamp(Microsecond, Some(\"UTC\"))"@ && f.name@ == name
            && f.nullable == nullable,
{
}

} // verus!
