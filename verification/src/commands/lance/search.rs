//! `search`: nearest neighbours of a vector.
use vstd::prelude::*;

use crate::error::Error;
use crate::schema::{
    available, available_names, field_names, find_field, names, position, Field, Kind, Schema,
};
use crate::text::{copy_texts, has_text, same_text, texts};

verus! {

/// The column of distances that a search appends.
pub const DIST_COL: &'static str = "_distance";

/// Where the query vector comes from.
#[derive(Debug)]
pub enum QuerySource<'a> {
    /// A JSON array on the command line.
    Inline(&'a str),
    /// The path of a file, or `-` for standard input.
    File(&'a str),
}

/// What has to be read to get the query vector.
#[derive(Debug)]
pub enum Reading<'a> {
    Text(&'a str),
    Stdin,
    File(&'a str),
}

impl<'a> QuerySource<'a> {
    /// What has to be read.
    pub fn reading(&self) -> (r: Reading<'a>)
        ensures
            match *self {
                QuerySource::Inline(s) => r matches Reading::Text(t) && t@ == s@,
                QuerySource::File(p) => if p@ == "-"@ {
                    r is Stdin
                } else {
                    r matches Reading::File(q) && q@ == p@
                },
            },
    {
        match self {
            QuerySource::Inline(s) => Reading::Text(s),
            QuerySource::File(p) => if same_text(p, "-") {
                Reading::Stdin
            } else {
                Reading::File(p)
            },
        }
    }
}

/// The source of the query vector: the inline one where both are given.
pub fn query_source<'a>(vector: Option<&'a str>, file: Option<&'a str>) -> (r: Option<
    QuerySource<'a>,
>)
    ensures
        match (vector, file) {
            (Some(s), _) => r matches Some(QuerySource::Inline(t)) && t@ == s@,
            (None, Some(p)) => r matches Some(QuerySource::File(q)) && q@ == p@,
            (None, None) => r is None,
        },
{
    match (vector, file) {
        (Some(s), _) => Some(QuerySource::Inline(s)),
        (None, Some(p)) => Some(QuerySource::File(p)),
        (None, None) => None,
    }
}

/// The width of a vector column: a fixed-size list of floats.
pub open spec fn vector_width(f: Field) -> Option<i32> {
    match f.data_type.kind {
        Kind::FixedSizeList(item, n) => if item.data_type.kind is Float16
            || item.data_type.kind is Float32 || item.data_type.kind is Float64 {
            Some(n)
        } else {
            None
        },
        _ => None,
    }
}

/// The width of the vector column `column`.
pub fn vector_column_dim(schema: &Schema, column: &str) -> (r: Result<usize, Error>)
    ensures
        ({
            let at = position(schema.fields@, column@);
            if at >= schema.fields@.len() {
                r matches Err(Error::UnknownColumn { name, available: listed }) && name@ == column@
                    && listed@ == available(schema.fields@)
            } else {
                match vector_width(schema.fields@[at as int]) {
                    Some(n) => r == Ok::<usize, Error>(n as usize),
                    None => r matches Err(Error::NotVectorColumn { column: c, data_type }) && c@
                        == column@ && data_type@ == schema.fields@[at as int].data_type.display@,
                }
            }
        }),
{
    let at: usize = match find_field(schema.fields.as_slice(), column) {
        Some(at) => at,
        None => return Err(
            Error::UnknownColumn {
                name: column.to_owned(),
                available: available_names(schema.fields.as_slice()),
            },
        ),
    };
    let ty = &schema.fields[at].data_type;
    let width = match &ty.kind {
        Kind::FixedSizeList(item, n) => match &item.data_type.kind {
            Kind::Float16 | Kind::Float32 | Kind::Float64 => Some(*n),
            _ => None,
        },
        _ => None,
    };
    match width {
        Some(n) => Ok(#[verifier::truncate] (n as usize)),
        None => Err(
            Error::NotVectorColumn { column: column.to_owned(), data_type: ty.display.clone() },
        ),
    }
}

/// The query must have as many dimensions as the column.
pub fn check_dims(query: usize, column: &str, column_dims: usize) -> (r: Result<(), Error>)
    ensures
        query == column_dims ==> r is Ok,
        query != column_dims ==> (r matches Err(
            Error::VectorDimMismatch { query: q, column: c, column_dims: d },
        ) && q == query && c@ == column@ && d == column_dims),
{
    if query == column_dims {
        Ok(())
    } else {
        Err(Error::VectorDimMismatch { query, column: column.to_owned(), column_dims })
    }
}

/// The columns that a search yields: those that are asked for, or all, and the
/// distances behind them unless they are among them.
pub open spec fn searched(
    fields: Seq<Field>,
    projection: Option<Seq<Seq<char>>>,
) -> Seq<Seq<char>> {
    let wanted = match projection {
        Some(cols) => cols,
        None => names(fields),
    };
    if wanted.contains(DIST_COL@) {
        wanted
    } else {
        wanted.push(DIST_COL@)
    }
}

/// The columns that a search yields.
pub fn search_projection(schema: &Schema, projection: Option<&[String]>) -> (r: Vec<String>)
    ensures
        texts(r@) == searched(schema.fields@, crate::commands::common::opt_texts(projection)),
{
    let mut out = match projection {
        Some(cols) => copy_texts(cols),
        None => field_names(schema.fields.as_slice()),
    };
    if !has_text(out.as_slice(), DIST_COL) {
        let ghost before = out@;
        out.push(DIST_COL.to_owned());
        proof {
            assert(texts(out@) =~= texts(before).push(DIST_COL@));
        }
    }
    out
}

/// The note that a search without an index is exhaustive.
pub fn flat_search_note(column: &str) -> (r: String)
    ensures
        r@ == "note: no ANN index on column '"@ + column@
            + "'; using flat (brute-force) KNN, which may be slow on large datasets"@,
{
    let mut s = "note: no ANN index on column '".to_owned();
    s.append(column);
    s.append("'; using flat (brute-force) KNN, which may be slow on large datasets");
    s
}

/// A search always yields the distances.
pub proof fn law_distances_are_always_there(fields: Seq<Field>, projection: Option<Seq<Seq<char>>>)
    ensures
        searched(fields, projection).contains(DIST_COL@),
{
    let all = searched(fields, projection);
    let wanted = match projection {
        Some(cols) => cols,
        None => names(fields),
    };
    if !wanted.contains(DIST_COL@) {
        assert(all[all.len() - 1] == DIST_COL@);
    }
}

} // verus!
