//! `diff <A> <B>`: schema, metadata and row count of two different datasets.
use vstd::prelude::*;

use crate::cli::Format;
use crate::commands::common::{are_projected, leaves_fields, opt_texts, project, resolution};
use crate::commands::lance::diff::DiffSelectors;
use crate::commands::diff_common::{
    build_delta, build_schema_delta, delta_json, delta_lines, keyed, labelled,
    law_no_delta_means_equal, law_same_has_no_delta, Delta,
};
use crate::commands::Outcome;
use crate::error::Error;
use crate::json::{object, pairs_of, quote, quoted, Members};
use crate::output::value::{bool_string, bool_text};
use crate::projection::reports;
use crate::schema::{Field, Schema};
use crate::text::{dec, dec_i128, dec_int, dec_u64};

verus! {

// ---------- format ----------

/// The name of an output format that a summary cannot take.
pub open spec fn row_format_name(f: Format) -> Seq<char> {
    match f {
        Format::Csv => "csv"@,
        Format::Table => "table"@,
        Format::Json => "json"@,
        Format::Ipc => "ipc"@,
        Format::Jsonl => "jsonl"@,
    }
}

/// A diff is a summary, not rows: only the readable default and `jsonl` make sense.
/// True for the latter.
pub fn wants_json(format: Option<Format>) -> (r: Result<bool, Error>)
    ensures
        match format {
            None => r == Ok::<bool, Error>(false),
            Some(Format::Jsonl) => r == Ok::<bool, Error>(true),
            Some(f) => r matches Err(Error::DiffFormatUnsupported { format: name }) && name@
                == row_format_name(f),
        },
{
    match format {
        None => Ok(false),
        Some(Format::Jsonl) => Ok(true),
        Some(Format::Csv) => Err(Error::DiffFormatUnsupported { format: "csv" }),
        Some(Format::Table) => Err(Error::DiffFormatUnsupported { format: "table" }),
        Some(Format::Json) => Err(Error::DiffFormatUnsupported { format: "json" }),
        Some(Format::Ipc) => Err(Error::DiffFormatUnsupported { format: "ipc" }),
    }
}

/// What is compared.
#[derive(Debug, Clone, Copy, PartialEq, Eq, Structural)]
pub enum Mode {
    /// Two datasets.
    Datasets,
    /// Two versions of one dataset.
    Versions,
}

/// True where any version is selected.
pub open spec fn selects(s: DiffSelectors) -> bool {
    s.branch is Some || s.from_version is Some || s.from_tag is Some || s.to_version is Some
        || s.to_tag is Some
}

/// What is compared: two datasets where a second one is given, which leaves no room
/// for version selectors, and otherwise two versions, of which the first must be
/// selected.
pub open spec fn mode_of(has_other: bool, selectors: DiffSelectors) -> Result<Mode, Error> {
    if has_other {
        if selects(selectors) {
            Err(Error::DiffSelectorsInTwoDatasetMode)
        } else {
            Ok(Mode::Datasets)
        }
    } else if selectors.from_version is None && selectors.from_tag is None {
        Err(Error::DiffMissingFromRef)
    } else {
        Ok(Mode::Versions)
    }
}

/// What is compared, where the selectors make it clear.
pub fn mode(has_other: bool, selectors: &DiffSelectors) -> (r: Result<Mode, Error>)
    ensures
        r == mode_of(has_other, *selectors),
{
    if has_other {
        if selectors.branch.is_some() || selectors.from_version.is_some()
            || selectors.from_tag.is_some() || selectors.to_version.is_some()
            || selectors.to_tag.is_some() {
            Err(Error::DiffSelectorsInTwoDatasetMode)
        } else {
            Ok(Mode::Datasets)
        }
    } else if selectors.from_version.is_none() && selectors.from_tag.is_none() {
        Err(Error::DiffMissingFromRef)
    } else {
        Ok(Mode::Versions)
    }
}

// ---------- comparison ----------

/// The columns of one side that are compared: all, or those that the flags select.
pub open spec fn scoped(
    fields: Seq<Field>,
    out: Seq<Field>,
    columns: Option<Seq<Seq<char>>>,
    exclude: Option<Seq<Seq<char>>>,
) -> bool {
    match resolution(fields, columns, exclude) {
        Ok(None) => out == fields,
        Ok(Some(entries)) => are_projected(out, fields, entries),
        Err(_) => false,
    }
}

/// Project both schemas, each against its own columns. A column that one side lacks
/// is reported together with that side's path.
pub fn scope_schemas(
    left: &str,
    right: &str,
    left_schema: &Schema,
    right_schema: &Schema,
    columns: Option<&[String]>,
    exclude: Option<&[String]>,
) -> (r: Result<(Schema, Schema), Error>)
    requires
        leaves_fields(left_schema.fields@, opt_texts(exclude)),
        leaves_fields(right_schema.fields@, opt_texts(exclude)),
    ensures
        match (
            resolution(left_schema.fields@, opt_texts(columns), opt_texts(exclude)),
            resolution(right_schema.fields@, opt_texts(columns), opt_texts(exclude)),
        ) {
            (Err(why), _) => r matches Err(Error::DiffColumn { path, error }) && path@ == left@
                && reports(*error, why, left_schema.fields@),
            (Ok(_), Err(why)) => r matches Err(Error::DiffColumn { path, error }) && path@ == right@
                && reports(*error, why, right_schema.fields@),
            (Ok(_), Ok(_)) => r matches Ok(pair) && scoped(
                left_schema.fields@,
                pair.0.fields@,
                opt_texts(columns),
                opt_texts(exclude),
            ) && scoped(
                right_schema.fields@,
                pair.1.fields@,
                opt_texts(columns),
                opt_texts(exclude),
            ),
        },
{
    let a = match project(left_schema, columns, exclude) {
        Ok(p) => p.schema,
        Err(e) => return Err(Error::DiffColumn { path: left.to_owned(), error: Box::new(e) }),
    };
    let b = match project(right_schema, columns, exclude) {
        Ok(p) => p.schema,
        Err(e) => return Err(Error::DiffColumn { path: right.to_owned(), error: Box::new(e) }),
    };
    Ok((a, b))
}

/// Compare two metadata maps.
pub fn build_metadata_delta(left: &Vec<(String, String)>, right: &Vec<(String, String)>) -> (r:
    Delta)
    ensures
        r.compares(pairs_of(left@), pairs_of(right@)),
{
    build_delta(left, right)
}

/// The comparison of two datasets.
#[derive(Debug)]
pub struct DatasetDiffReport {
    pub left: String,
    pub right: String,
    pub left_rows: u64,
    pub right_rows: u64,
    pub schema: Delta,
    pub metadata: Delta,
}

/// Compare two datasets. The scoped schemas are compared column by column; metadata
/// belongs to the dataset, so it is compared on the full schemas.
pub fn build_report(
    left: &str,
    right: &str,
    rows: (u64, u64),
    scoped: (&Schema, &Schema),
    full: (&Schema, &Schema),
) -> (r: DatasetDiffReport)
    ensures
        r.left@ == left@,
        r.right@ == right@,
        r.left_rows == rows.0,
        r.right_rows == rows.1,
        r.schema.compares(labelled(scoped.0.fields@), labelled(scoped.1.fields@)),
        r.metadata.compares(pairs_of(full.0.metadata@), pairs_of(full.1.metadata@)),
{
    DatasetDiffReport {
        left: left.to_owned(),
        right: right.to_owned(),
        left_rows: rows.0,
        right_rows: rows.1,
        schema: build_schema_delta(scoped.0, scoped.1),
        metadata: build_metadata_delta(&full.0.metadata, &full.1.metadata),
    }
}

// ---------- rendering ----------

/// A number with its sign.
pub open spec fn signed(n: int) -> Seq<char> {
    if n < 0 {
        dec_int(n)
    } else {
        "+"@ + dec(n as nat)
    }
}

/// A difference of two counts with its sign.
pub fn signed_difference(from: u64, to: u64) -> (r: String)
    ensures
        r@ == signed(to - from),
{
    if to < from {
        dec_i128(to as i128 - from as i128)
    } else {
        let mut s = "+".to_owned();
        s.append(dec_u64(to - from).as_str());
        s
    }
}

/// The changes under a heading.
pub open spec fn section(title: Seq<char>, d: Delta) -> Seq<char> {
    if d.nothing() {
        title + ": none\n"@
    } else {
        title + ":\n"@ + delta_lines(d)
    }
}

/// The changes under a heading.
pub fn section_text(title: &str, d: &Delta) -> (r: String)
    ensures
        r@ == section(title@, *d),
{
    let mut s = title.to_owned();
    if d.is_empty() {
        s.append(": none\n");
    } else {
        s.append(":\n");
        d.write_rows(&mut s);
    }
    s
}

impl DatasetDiffReport {
    /// True when the datasets have the same schema, row count and metadata.
    pub open spec fn identical(&self) -> bool {
        self.schema.nothing() && self.metadata.nothing() && self.left_rows == self.right_rows
    }

    /// What `write_human` writes.
    pub open spec fn human(&self) -> Seq<char> {
        let head = "diff "@ + self.left@ + " "@ + self.right@ + "\n\n"@;
        if self.identical() {
            head + "No differences.\n"@
        } else {
            head + "Rows: "@ + dec(self.left_rows as nat) + " -> "@ + dec(self.right_rows as nat)
                + "  (net "@ + signed(self.right_rows - self.left_rows) + ")\n\n"@ + section(
                "Schema changes"@,
                self.schema,
            ) + "\n"@ + section("Metadata changes"@, self.metadata)
        }
    }

    /// What `to_json` gives.
    pub open spec fn json(&self) -> Seq<char> {
        object(
            seq![
                ("left"@, quoted(self.left@)),
                ("right"@, quoted(self.right@)),
                ("identical"@, bool_text(self.identical())),
                (
                    "rows"@,
                    object(
                        seq![
                            ("left"@, dec(self.left_rows as nat)),
                            ("right"@, dec(self.right_rows as nat)),
                            ("net"@, dec_int(self.right_rows - self.left_rows)),
                        ],
                    ),
                ),
                ("schema"@, delta_json(self.schema, "name"@, "type"@, "retyped"@)),
                ("metadata"@, delta_json(self.metadata, "key"@, "value"@, "changed"@)),
            ],
        )
    }

    pub fn is_identical(&self) -> (r: bool)
        ensures
            r == self.identical(),
    {
        self.schema.is_empty() && self.metadata.is_empty() && self.left_rows == self.right_rows
    }

    /// The exit code: whether differences were found.
    pub fn outcome(&self) -> (r: Outcome)
        ensures
            r == if self.identical() {
                Outcome::Success
            } else {
                Outcome::Different
            },
    {
        if self.is_identical() {
            Outcome::Success
        } else {
            Outcome::Different
        }
    }

    /// The readable summary.
    pub fn write_human(&self) -> (r: String)
        ensures
            r@ == self.human(),
    {
        let mut s = "diff ".to_owned();
        s.append(self.left.as_str());
        s.append(" ");
        s.append(self.right.as_str());
        s.append("\n\n");
        if self.is_identical() {
            s.append("No differences.\n");
            return s;
        }
        s.append("Rows: ");
        s.append(dec_u64(self.left_rows).as_str());
        s.append(" -> ");
        s.append(dec_u64(self.right_rows).as_str());
        s.append("  (net ");
        s.append(signed_difference(self.left_rows, self.right_rows).as_str());
        s.append(")\n\n");
        s.append(section_text("Schema changes", &self.schema).as_str());
        s.append("\n");
        s.append(section_text("Metadata changes", &self.metadata).as_str());
        s
    }

    /// The summary as one JSON object.
    pub fn to_json(&self) -> (r: String)
        ensures
            r@ == self.json(),
    {
        let mut rows = Members::new();
        rows.add_new("left", dec_u64(self.left_rows));
        rows.add_new("right", dec_u64(self.right_rows));
        rows.add_new("net", dec_i128(self.right_rows as i128 - self.left_rows as i128));
        proof {
            assert(rows@ =~= seq![
                ("left"@, dec(self.left_rows as nat)),
                ("right"@, dec(self.right_rows as nat)),
                ("net"@, dec_int(self.right_rows - self.left_rows)),
            ]);
        }
        let rows = rows.text();
        let schema = self.schema.to_json("name", "type", "retyped");
        let metadata = self.metadata.to_json("key", "value", "changed");
        let ghost (r, s, m) = (rows@, schema@, metadata@);
        let mut out = Members::new();
        out.add_new("left", quote(self.left.as_str()));
        out.add_new("right", quote(self.right.as_str()));
        out.add_new("identical", bool_string(self.is_identical()));
        out.add_new("rows", rows);
        out.add_new("schema", schema);
        out.add_new("metadata", metadata);
        proof {
            assert(out@ =~= seq![
                ("left"@, quoted(self.left@)),
                ("right"@, quoted(self.right@)),
                ("identical"@, bool_text(self.identical())),
                ("rows"@, r),
                ("schema"@, s),
                ("metadata"@, m),
            ]);
        }
        out.text()
    }
}

// ---------- laws ----------

/// A dataset compared with itself is identical.
pub proof fn law_dataset_is_identical_to_itself(
    report: DatasetDiffReport,
    fields: Seq<Field>,
    metadata: Seq<(Seq<char>, Seq<char>)>,
)
    requires
        report.schema.compares(labelled(fields), labelled(fields)),
        report.metadata.compares(metadata, metadata),
        report.left_rows == report.right_rows,
    ensures
        report.identical(),
{
    law_same_has_no_delta(report.schema, labelled(fields));
    law_same_has_no_delta(report.metadata, metadata);
}

/// Two datasets that are told to be identical have as many rows, the same columns with
/// the same types, and the same metadata.
pub proof fn law_identical_means_equal(
    report: DatasetDiffReport,
    left: (Seq<Field>, Seq<(Seq<char>, Seq<char>)>),
    right: (Seq<Field>, Seq<(Seq<char>, Seq<char>)>),
)
    requires
        report.schema.compares(labelled(left.0), labelled(right.0)),
        report.metadata.compares(left.1, right.1),
        report.identical(),
    ensures
        report.left_rows == report.right_rows,
        keyed(labelled(left.0)) == keyed(labelled(right.0)),
        keyed(left.1) == keyed(right.1),
{
    law_no_delta_means_equal(report.schema, labelled(left.0), labelled(right.0));
    law_no_delta_means_equal(report.metadata, left.1, right.1);
}

} // verus!
