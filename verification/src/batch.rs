//! Columnar batch to record conversion.
//!
//! A batch handle is opaque; what the engine extracts from it is plain
//! column data: a name, a kind tag, and per-row optional values. Turning
//! columns into row objects — writing each column's value into each row's
//! object and omitting nulls — is verified here; only reading the columns
//! out of the engine is a driver's business.

use vstd::prelude::*;

use crate::ast::{seq_to_map, Object, Value, ValueV};
use crate::error::PipeError;

verus! {

/// The column types the conversion accepts; anything else is a hard error
/// at the conversion site.
#[derive(Copy, Clone, PartialEq, Eq, Structural)]
pub enum ColumnKind {
    Null,
    Int8,
    Int16,
    Int32,
    Int64,
    UInt8,
    UInt16,
    UInt32,
    UInt64,
    Float16,
    Float32,
    Float64,
    Boolean,
    Utf8,
    LargeUtf8,
    Other,
}

/// Whether a column type is supported by the conversion.
pub open spec fn spec_column_supported(k: ColumnKind) -> bool {
    !(k is Other)
}

/// Decides whether a column type is supported.
pub fn column_supported(k: ColumnKind) -> (r: bool)
    ensures
        r == spec_column_supported(k),
{
    !(k == ColumnKind::Other)
}

/// One column of a record batch: its name and its per-row values, a `None`
/// marking a null.
pub struct Column {
    pub name: Vec<u8>,
    pub values: Vec<Option<Value>>,
}

/// Mathematical view of a column.
pub struct ColumnV {
    pub name: Seq<u8>,
    pub values: Seq<Option<ValueV>>,
}

impl View for Column {
    type V = ColumnV;

    open spec fn view(&self) -> ColumnV {
        ColumnV {
            name: self.name@,
            values: self.values@.map_values(
                |v: Option<Value>|
                    match v {
                        Some(x) => Some(x@),
                        None => None,
                    },
            ),
        }
    }
}

/// Writes one column into the rows: for each row, the column's value at
/// that row's position, nulls omitted.
pub fn set_column_for_object_rows(rows: &mut Vec<Object>, column: &Column)
    requires
        column.values@.len() == old(rows)@.len(),
        forall|i: int| 0 <= i < old(rows)@.len() ==> (#[trigger] old(rows)@[i]).wf(),
    ensures
        final(rows)@.len() == old(rows)@.len(),
        forall|i: int|
            0 <= i < old(rows)@.len() ==> (#[trigger] final(rows)@[i]).wf() && final(rows)@[i].as_map() == (match column@.values[i] {
                Some(v) => old(rows)@[i].as_map().insert(column@.name, v),
                None => old(rows)@[i].as_map(),
            }),
{
    let mut i: usize = 0;
    while i < rows.len()
        invariant
            0 <= i <= rows@.len(),
            rows@.len() == old(rows)@.len(),
            column.values@.len() == old(rows)@.len(),
            forall|j: int| i <= j < rows@.len() ==> rows@[j] == (#[trigger] old(rows)@[j]),
            forall|j: int| 0 <= j < old(rows)@.len() ==> (#[trigger] old(rows)@[j]).wf(),
            forall|j: int|
                0 <= j < i ==> (#[trigger] rows@[j]).wf() && rows@[j].as_map() == (
                match column@.values[j] {
                    Some(v) => old(rows)@[j].as_map().insert(column@.name, v),
                    None => old(rows)@[j].as_map(),
                }),
        decreases rows@.len() - i,
    {
        let ghost before = rows@;
        match self_value_at(column, i) {
            Some(v) => {
                let mut row = rows.remove(i);
                proof {
                    assert(row == before[i as int]);
                    assert(before[i as int] == old(rows)@[i as int]);
                    assert(row.wf());
                }
                row.insert(crate::ast::clone_bytes(&column.name), v);
                rows.insert(i, row);
                proof {
                    assert(rows@ =~= before.update(i as int, rows@[i as int]));
                    assert forall|j: int| 0 <= j < i + 1 implies (#[trigger] rows@[j]).wf()
                        && rows@[j].as_map() == (match column@.values[j] {
                        Some(v2) => old(rows)@[j].as_map().insert(column@.name, v2),
                        None => old(rows)@[j].as_map(),
                    }) by {
                        if j < i {
                            assert(rows@[j] == before[j]);
                        }
                    }
                }
            },
            None => {
                proof {
                    assert(rows@[i as int] == old(rows)@[i as int]);
                }
            },
        }
        i = i + 1;
    }
}

/// Reads the value of a column at a row.
fn self_value_at(column: &Column, i: usize) -> (r: Option<Value>)
    requires
        i < column.values@.len(),
    ensures
        match r {
            Some(v) => column@.values[i as int] == Some(v@),
            None => column@.values[i as int] is None,
        },
{
    match &column.values[i] {
        Some(v) => Some(v.duplicate()),
        None => None,
    }
}

/// The row objects of a record batch: empty objects extended column by
/// column, nulls omitted.
pub fn record_batches_to_rows(n_rows: usize, columns: &Vec<Column>) -> (r: Result<
    Vec<Object>,
    PipeError,
>)
    ensures
        match r {
            Ok(rows) => rows@.len() == n_rows && forall|i: int|
                0 <= i < rows@.len() ==> (#[trigger] rows@[i]).wf() && rows@[i].as_map()
                    == spec_row_map(
                    columns@.map_values(|c: Column| c@),
                    columns@.len() as int,
                    i,
                ),
            Err(e) => (exists|j: int|
                0 <= j < columns@.len() && (#[trigger] columns@[j]).values@.len() != n_rows)
                && e matches PipeError::FormatUnsupported,
        },
{
    let mut rows: Vec<Object> = Vec::new();
    let mut i: usize = 0;
    while i < n_rows
        invariant
            rows@.len() == i,
            0 <= i <= n_rows,
            forall|j: int| 0 <= j < i ==> (#[trigger] rows@[j]).wf() && rows@[j]@.len() == 0,
        decreases n_rows - i,
    {
        rows.push(Object::new());
        i = i + 1;
    }
    proof {
        assert forall|j: int| 0 <= j < rows@.len() implies (#[trigger] rows@[j]).as_map()
            == spec_row_map(columns@.map_values(|c: Column| c@), 0, j) by {
            assert(rows@[j]@.len() == 0);
            assert(rows@[j]@ =~= Seq::<(Seq<u8>, ValueV)>::empty());
        }
    }
    let mut c: usize = 0;
    while c < columns.len()
        invariant
            0 <= c <= columns@.len(),
            rows@.len() == n_rows,
            forall|j: int|
                0 <= j < rows@.len() ==> (#[trigger] rows@[j]).wf() && rows@[j].as_map()
                    == spec_row_map(columns@.map_values(|x: Column| x@), c as int, j),
            forall|t: int|
                0 <= t < c ==> (#[trigger] columns@[t]).values@.len() == n_rows,
        decreases columns@.len() - c,
    {
        if columns[c].values.len() != n_rows {
            return Err(PipeError::FormatUnsupported);
        }
        set_column_for_object_rows(&mut rows, &columns[c]);
        proof {
            let cv = columns@.map_values(|x: Column| x@);
            assert(cv[c as int] == columns@[c as int]@);
        }
        c = c + 1;
    }
    Ok(rows)
}

/// The map of row `i` after the first `c` columns are written: each
/// column's non-null value at the row's position, a later column winning a
/// name collision.
pub open spec fn spec_row_map(columns: Seq<ColumnV>, c: int, i: int) -> Map<Seq<u8>, ValueV>
    decreases c,
{
    if c <= 0 {
        Map::empty()
    } else {
        match columns[c - 1].values[i] {
            Some(v) => spec_row_map(columns, c - 1, i).insert(columns[c - 1].name, v),
            None => spec_row_map(columns, c - 1, i),
        }
    }
}

} // verus!
