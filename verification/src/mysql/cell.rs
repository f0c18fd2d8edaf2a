//! The values of a result set, as they are sent to a MySQL client.
use vstd::prelude::*;

verus! {

/// A number of a result. The floating-point numbers are left to the field encoder, which reads
/// them from their column.
#[derive(Clone, Copy, Debug, PartialEq, Eq, Structural)]
pub enum NumberScalar {
    UInt8(u8),
    UInt16(u16),
    UInt32(u32),
    UInt64(u64),
    Int8(i8),
    Int16(i16),
    Int32(i32),
    Int64(i64),
    Float32,
    Float64,
}

/// A value of a result, as far as it is sent without the field encoder.
#[derive(Clone, Copy, Debug, PartialEq, Eq, Structural)]
pub enum Scalar {
    Null,
    Boolean(bool),
    Number(NumberScalar),
    /// A value of any other type.
    Other,
}

/// A block of rows of a result: the values of each column.
#[derive(Debug, PartialEq, Eq)]
pub struct Chunk {
    /// The number of rows.
    pub num_rows: usize,
    /// The values of each column, one for each row.
    pub columns: Vec<Vec<Scalar>>,
}

/// What is sent for a value.
#[derive(Clone, Copy, Debug, PartialEq, Eq, Structural)]
pub enum Cell {
    Null,
    UInt8(u8),
    UInt16(u16),
    UInt32(u32),
    UInt64(u64),
    Int8(i8),
    Int16(i16),
    Int32(i32),
    Int64(i64),
    /// What the field encoder writes for the value of this row of this column.
    Field {
        /// The index of the column.
        column: usize,
        /// The index of the row.
        row: usize,
    },
}

impl Chunk {
    /// Whether each column has a value for each row.
    pub open spec fn wf(self) -> bool {
        forall|c: int|
            0 <= c < self.columns@.len() ==> (#[trigger] self.columns@[c])@.len() == self.num_rows
    }
}

/// What is sent for the value of a row of a column: integers as they are, truth values as 0 or
/// 1, and all that is neither what the field encoder writes.
pub open spec fn cell_of(value: Scalar, column: usize, row: usize) -> Cell {
    match value {
        Scalar::Null => Cell::Null,
        Scalar::Boolean(v) => Cell::UInt8(
            if v {
                1
            } else {
                0
            },
        ),
        Scalar::Number(NumberScalar::UInt8(v)) => Cell::UInt8(v),
        Scalar::Number(NumberScalar::UInt16(v)) => Cell::UInt16(v),
        Scalar::Number(NumberScalar::UInt32(v)) => Cell::UInt32(v),
        Scalar::Number(NumberScalar::UInt64(v)) => Cell::UInt64(v),
        Scalar::Number(NumberScalar::Int8(v)) => Cell::Int8(v),
        Scalar::Number(NumberScalar::Int16(v)) => Cell::Int16(v),
        Scalar::Number(NumberScalar::Int32(v)) => Cell::Int32(v),
        Scalar::Number(NumberScalar::Int64(v)) => Cell::Int64(v),
        Scalar::Number(NumberScalar::Float32)
        | Scalar::Number(NumberScalar::Float64)
        | Scalar::Other => Cell::Field { column, row },
    }
}

/// What is sent for a row: one cell for each column.
pub open spec fn row_of(chunk: Chunk, row: usize) -> Seq<Cell> {
    Seq::new(
        chunk.columns@.len(),
        |c: int| cell_of(chunk.columns@[c]@[row as int], c as usize, row),
    )
}

/// What is sent for the value of a row of a column.
pub fn write_cell(value: Scalar, column: usize, row: usize) -> (cell: Cell)
    ensures
        cell == cell_of(value, column, row),
{
    match value {
        Scalar::Null => Cell::Null,
        Scalar::Boolean(v) => Cell::UInt8(if v { 1 } else { 0 }),
        Scalar::Number(number) => match number {
            NumberScalar::UInt8(v) => Cell::UInt8(v),
            NumberScalar::UInt16(v) => Cell::UInt16(v),
            NumberScalar::UInt32(v) => Cell::UInt32(v),
            NumberScalar::UInt64(v) => Cell::UInt64(v),
            NumberScalar::Int8(v) => Cell::Int8(v),
            NumberScalar::Int16(v) => Cell::Int16(v),
            NumberScalar::Int32(v) => Cell::Int32(v),
            NumberScalar::Int64(v) => Cell::Int64(v),
            NumberScalar::Float32 | NumberScalar::Float64 => Cell::Field { column, row },
        },
        Scalar::Other => Cell::Field { column, row },
    }
}

/// What is sent for a row of a chunk.
pub fn write_row(chunk: &Chunk, row: usize) -> (cells: Vec<Cell>)
    requires
        chunk.wf(),
        row < chunk.num_rows,
    ensures
        cells@ == row_of(*chunk, row),
{
    let mut cells: Vec<Cell> = Vec::with_capacity(chunk.columns.len());
    for c in 0..chunk.columns.len()
        invariant
            chunk.wf(),
            row < chunk.num_rows,
            cells@ =~= row_of(*chunk, row).take(c as int),
    {
        cells.push(write_cell(chunk.columns[c][row], c, row));
    }
    assert(cells@ =~= row_of(*chunk, row));
    cells
}

/// An integer as it is sent: how many bits it has, whether it has a sign, and its value.
pub struct Integer {
    pub bits: nat,
    pub signed: bool,
    pub value: int,
}

/// The integer that a cell carries, where it carries one.
pub open spec fn cell_integer(cell: Cell) -> Option<Integer> {
    match cell {
        Cell::UInt8(v) => Some(Integer { bits: 8, signed: false, value: v as int }),
        Cell::UInt16(v) => Some(Integer { bits: 16, signed: false, value: v as int }),
        Cell::UInt32(v) => Some(Integer { bits: 32, signed: false, value: v as int }),
        Cell::UInt64(v) => Some(Integer { bits: 64, signed: false, value: v as int }),
        Cell::Int8(v) => Some(Integer { bits: 8, signed: true, value: v as int }),
        Cell::Int16(v) => Some(Integer { bits: 16, signed: true, value: v as int }),
        Cell::Int32(v) => Some(Integer { bits: 32, signed: true, value: v as int }),
        Cell::Int64(v) => Some(Integer { bits: 64, signed: true, value: v as int }),
        Cell::Null | Cell::Field { .. } => None,
    }
}

/// The integer that a value is, where it is one. A truth value is one bit of a byte.
pub open spec fn scalar_integer(value: Scalar) -> Option<Integer> {
    match value {
        Scalar::Null | Scalar::Other => None,
        Scalar::Boolean(v) => Some(
            Integer {
                bits: 8,
                signed: false,
                value: if v {
                    1
                } else {
                    0
                },
            },
        ),
        Scalar::Number(number) => number_integer(number),
    }
}

/// The integer that a number is, where it is one.
pub open spec fn number_integer(number: NumberScalar) -> Option<Integer> {
    match number {
        NumberScalar::UInt8(v) => Some(Integer { bits: 8, signed: false, value: v as int }),
        NumberScalar::UInt16(v) => Some(Integer { bits: 16, signed: false, value: v as int }),
        NumberScalar::UInt32(v) => Some(Integer { bits: 32, signed: false, value: v as int }),
        NumberScalar::UInt64(v) => Some(Integer { bits: 64, signed: false, value: v as int }),
        NumberScalar::Int8(v) => Some(Integer { bits: 8, signed: true, value: v as int }),
        NumberScalar::Int16(v) => Some(Integer { bits: 16, signed: true, value: v as int }),
        NumberScalar::Int32(v) => Some(Integer { bits: 32, signed: true, value: v as int }),
        NumberScalar::Int64(v) => Some(Integer { bits: 64, signed: true, value: v as int }),
        NumberScalar::Float32 | NumberScalar::Float64 => None,
    }
}

/// Whether a cell carries a value of a row of a column. It carries the very integer, of the same
/// width and sign, where the value is one; it is missing just where the value is; and it is left
/// to the field encoder, at that row of that column, just where the value is neither.
pub open spec fn carries(cell: Cell, value: Scalar, column: int, row: int) -> bool {
    &&& cell_integer(cell) == scalar_integer(value)
    &&& cell is Null == value is Null
    &&& cell is Field == (scalar_integer(value) is None && !(value is Null))
    &&& cell matches Cell::Field { column: c, row: r } ==> c == column && r == row
}

/// The cell that is sent for a value carries the value.
pub proof fn law_cell_carries_its_value(value: Scalar, column: usize, row: usize, cell: Cell)
    requires
        call_ensures(write_cell, (value, column, row), cell),
    ensures
        carries(cell, value, column as int, row as int),
{
}

/// Different integers are never sent as the same cell, nor are an integer and what is none.
pub proof fn law_cells_tell_integers_apart(
    value: Scalar,
    column: usize,
    row: usize,
    cell: Cell,
    other: Scalar,
    other_column: usize,
    other_row: usize,
    other_cell: Cell,
)
    requires
        call_ensures(write_cell, (value, column, row), cell),
        call_ensures(write_cell, (other, other_column, other_row), other_cell),
        cell == other_cell,
    ensures
        scalar_integer(value) == scalar_integer(other),
        value is Null == other is Null,
{
    law_cell_carries_its_value(value, column, row, cell);
    law_cell_carries_its_value(other, other_column, other_row, other_cell);
}

/// Whether cells carry a row of a chunk: one cell for each column, in order, with the column's
/// value of that row.
pub open spec fn carries_row(cells: Seq<Cell>, chunk: Chunk, row: int) -> bool {
    &&& cells.len() == chunk.columns@.len()
    &&& forall|c: int|
        0 <= c < cells.len() ==> carries(#[trigger] cells[c], chunk.columns@[c]@[row], c, row)
}

/// The cells that are sent for a row carry the row.
pub proof fn law_cells_carry_their_row(chunk: Chunk, row: usize, cells: Vec<Cell>)
    requires
        call_ensures(write_row, (&chunk, row), cells),
    ensures
        carries_row(cells@, chunk, row as int),
{
    lemma_row_is_carried(chunk, row);
}

/// What is sent for a row carries the row.
pub(crate) proof fn lemma_row_is_carried(chunk: Chunk, row: usize)
    ensures
        carries_row(row_of(chunk, row), chunk, row as int),
{
    let columns = chunk.columns.len();
    assert forall|c: int| 0 <= c < row_of(chunk, row).len() implies carries(
        #[trigger] row_of(chunk, row)[c],
        chunk.columns@[c]@[row as int],
        c,
        row as int,
    ) by {
        assert(row_of(chunk, row)[c] == cell_of(chunk.columns@[c]@[row as int], c as usize, row));
    }
}

} // verus!
