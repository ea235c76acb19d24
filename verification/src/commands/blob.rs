//! `blob`: the binary payload of one cell.
use vstd::prelude::*;

use crate::cell::Cell;
use crate::error::Error;
use crate::indices::{resolve_index, row_of};
use crate::schema::{available, available_names, find_field, position, DataType, Kind, Schema};
use crate::text::{dec, dec_u64, same_text};

verus! {

/// Bytes pulled per read of a streamed payload.
pub const STREAM_CHUNK: usize = 1_048_576;

/// True of the four binary types.
pub open spec fn is_binary(k: Kind) -> bool {
    k is Binary || k is LargeBinary || k is BinaryView || k is FixedSizeBinary
}

/// Reject columns that are not of one of the four binary types.
pub fn ensure_binary_type(column: &str, data_type: &DataType) -> (r: Result<(), Error>)
    ensures
        is_binary(data_type.kind) ==> r is Ok,
        !is_binary(data_type.kind) ==> (r matches Err(
            Error::NotBinaryColumn { column: c, data_type: t },
        ) && c@ == column@ && t@ == data_type.display@),
{
    match &data_type.kind {
        Kind::Binary | Kind::LargeBinary | Kind::BinaryView | Kind::FixedSizeBinary(_) => Ok(()),
        _ => Err(
            Error::NotBinaryColumn {
                column: column.to_owned(),
                data_type: data_type.display.clone(),
            },
        ),
    }
}

/// The field metadata that marks a blob-encoded column.
pub const BLOB_KEY: &'static str = "lance-encoding:blob";

/// Whether a column is blob-encoded, by what its metadata holds under `BLOB_KEY`.
pub fn is_blob_column(mark: Option<&str>) -> (r: bool)
    ensures
        r == (mark matches Some(s) && s@ == "true"@),
{
    match mark {
        Some(s) => same_text(s, "true"),
        None => false,
    }
}

/// How a payload is read.
#[derive(Debug, Clone, Copy, PartialEq, Eq, Structural)]
pub enum Extraction {
    /// Streamed in chunks, from a blob-encoded column.
    Streamed(u64),
    /// Taken with its row, from a plain binary column.
    Taken(u64),
}

/// Find the cell: the column must exist, the row must be in range, and a column that
/// is not blob-encoded must be of a binary type. A blob-encoded column has a binary
/// type too, so it is told apart first.
pub fn locate(
    schema: &Schema,
    column: &str,
    index: i64,
    rowcount: u64,
    is_blob_column: bool,
) -> (r: Result<Extraction, Error>)
    ensures
        ({
            let at = position(schema.fields@, column@);
            if at >= schema.fields@.len() {
                r matches Err(Error::UnknownColumn { name, available: listed }) && name@ == column@
                    && listed@ == available(schema.fields@)
            } else {
                let ty = schema.fields@[at as int].data_type;
                match row_of(index, rowcount) {
                    Err(e) => r == Err::<Extraction, Error>(e),
                    Ok(row) => if is_blob_column {
                        r == Ok::<Extraction, Error>(Extraction::Streamed(row))
                    } else if is_binary(ty.kind) {
                        r == Ok::<Extraction, Error>(Extraction::Taken(row))
                    } else {
                        r matches Err(Error::NotBinaryColumn { column: c, data_type: t }) && c@
                            == column@ && t@ == ty.display@
                    },
                }
            }
        }),
{
    let at: usize = match find_field(schema.fields.as_slice(), column) {
        Some(at) => at,
        None => return Err(
            Error::UnknownColumn {
                name: column.to_owned(),
                available: available_names(schema.fields.as_slice()),
            },
        ),
    };
    let row: u64 = match resolve_index(index, rowcount) {
        Ok(row) => row,
        Err(e) => return Err(e),
    };
    if is_blob_column {
        return Ok(Extraction::Streamed(row));
    }
    match ensure_binary_type(column, &schema.fields[at].data_type) {
        Ok(()) => Ok(Extraction::Taken(row)),
        Err(e) => Err(e),
    }
}

/// The bytes of a binary cell, or the error that it is null.
pub fn binary_cell_bytes(column: &str, row: u64, cell: Cell) -> (r: Result<Vec<u8>, Error>)
    ensures
        match cell {
            Cell::Binary(bytes) => r == Ok::<Vec<u8>, Error>(bytes),
            _ => r matches Err(Error::NullBlobCell { column: c, index }) && c@ == column@ && index
                == row,
        },
{
    match cell {
        Cell::Binary(bytes) => Ok(bytes),
        _ => Err(Error::NullBlobCell { column: column.to_owned(), index: row }),
    }
}

/// The path of the file that is written first and then renamed to `path`: a sibling,
/// so that the rename stays on one filesystem, told apart by the process.
pub fn temp_path(path: &str, pid: u32) -> (r: String)
    ensures
        r@ == path@ + ".arrs-blob-"@ + dec(pid as nat) + ".tmp"@,
{
    let mut s = path.to_owned();
    s.append(".arrs-blob-");
    s.append(dec_u64(pid as u64).as_str());
    s.append(".tmp");
    s
}

/// Raw bytes are not written to a terminal.
pub fn guard_not_terminal(is_terminal: bool) -> (r: Result<(), Error>)
    ensures
        is_terminal ==> r == Err::<(), Error>(Error::BlobToTty),
        !is_terminal ==> r is Ok,
{
    if is_terminal {
        Err(Error::BlobToTty)
    } else {
        Ok(())
    }
}

} // verus!
