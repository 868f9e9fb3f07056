//! The mathematical model of a circuit under assignment: its shape, its
//! public inputs, the cells filled so far, and what it means for the whole
//! to be satisfied.

use crate::field::{field_add, field_mul, field_neg, modulus};
use crate::plonk::{AdviceColumn, Column, Error, Expression, InstanceColumn, Shape};
use vstd::prelude::*;

verus! {

/// The position of a cell: a column and a row of the table.
#[derive(Clone, Copy, Debug, PartialEq, Eq, Structural)]
pub struct Cell {
    pub column: Column,
    pub row: usize,
}

/// The demand that two cells hold the same value.
#[derive(Clone, Copy, Debug, PartialEq, Eq, Structural)]
pub struct CopyConstraint {
    pub left: Cell,
    pub right: Cell,
}

/// A handle on a region: its place among the regions of its table, and the
/// row at which its offsets start.
#[derive(Clone, Copy, Debug, PartialEq, Eq, Structural)]
pub struct Region {
    pub index: usize,
    pub start: usize,
}

/// A region as the table records it: its name and its first row.
pub struct RegionSpec {
    pub name: Seq<char>,
    pub start: nat,
}

/// What an advice cell holds: nothing yet (`None`), a value that is not
/// known (`Some(None)`), or a number below the field's modulus.
pub type Slot = Option<Option<nat>>;

/// A circuit under assignment.
pub struct Table {
    /// The columns, selectors and gates fixed at configuration.
    pub shape: Shape,
    /// How many rows can be used.
    pub rows: nat,
    /// The public inputs, one sequence for each instance column.
    pub instance: Seq<Seq<nat>>,
    /// The advice cells, by column and then by row.
    pub advice: Seq<Seq<Slot>>,
    /// Where each selector is enabled, by selector and then by row.
    pub selectors: Seq<Seq<bool>>,
    /// The copy constraints, in the order in which they were made.
    pub copies: Seq<CopyConstraint>,
    /// The regions, in the order in which they were opened.
    pub regions: Seq<RegionSpec>,
    /// The first row that no region has touched.
    pub next_row: nat,
}

/// The first of two steps' errors: that of the first step if it fails,
/// otherwise that of the second.
pub open spec fn or_error(first: Option<Error>, second: Option<Error>) -> Option<Error> {
    if first.is_some() {
        first
    } else {
        second
    }
}

/// The public input at `(column, row)` of what was supplied, one sequence
/// for each instance column; rows past the end of a sequence read as zero.
pub open spec fn public_input(instance: Seq<Seq<nat>>, column: int, row: int) -> nat {
    if 0 <= column < instance.len() && 0 <= row < instance[column].len() {
        instance[column][row]
    } else {
        0
    }
}

/// The one error of a step that can fail only for want of rows: none where
/// there are `enough`.
pub open spec fn want_of_rows(enough: bool) -> Option<Error> {
    if enough {
        None
    } else {
        Some(Error::NotEnoughRowsAvailable)
    }
}

/// One column of `rows` cells that all hold `x`.
pub open spec fn filled<T>(rows: nat, x: T) -> Seq<T> {
    Seq::new(rows, |r: int| x)
}

impl Table {
    /// The table of a circuit in which nothing has been assigned.
    pub open spec fn initial(shape: Shape, rows: nat, instance: Seq<Seq<nat>>) -> Table {
        Table {
            shape,
            rows,
            instance,
            advice: Seq::new(shape.advice_columns, |c: int| filled(rows, None::<Option<nat>>)),
            selectors: Seq::new(shape.selectors, |s: int| filled(rows, false)),
            copies: Seq::empty(),
            regions: Seq::empty(),
            next_row: 0,
        }
    }

    /// The table has one column of `rows` cells for each advice column and
    /// each selector of its shape, and every cell that holds something lies
    /// in a row that a region has touched.
    pub open spec fn well_shaped(self) -> bool {
        &&& self.advice.len() == self.shape.advice_columns
        &&& self.selectors.len() == self.shape.selectors
        &&& forall|c: int| 0 <= c < self.advice.len() ==> (#[trigger] self.advice[c]).len() == self.rows
        &&& forall|s: int| 0 <= s < self.selectors.len() ==> (#[trigger] self.selectors[s]).len() == self.rows
        &&& self.next_row <= self.rows <= usize::MAX
        &&& forall|c: int, r: int|
            0 <= c < self.advice.len() && self.next_row <= r < self.advice[c].len() ==> (
            #[trigger] self.advice[c][r]) is None
    }

    /// Every number in an advice cell is below the field's modulus.
    pub open spec fn values_in_field(self) -> bool {
        forall|c: int, r: int|
            0 <= c < self.advice.len() && 0 <= r < self.advice[c].len() ==> match #[trigger] self.advice[c][r] {
                Some(Some(v)) => v < modulus(),
                _ => true,
            }
    }

    /// The table is well shaped, and every number in it lies in the field.
    pub open spec fn wf(self) -> bool {
        self.well_shaped() && self.values_in_field()
    }

    /// What the advice cell at `(column, row)` holds; nothing outside the table.
    pub open spec fn advice_slot(self, column: int, row: int) -> Slot {
        if 0 <= column < self.advice.len() && 0 <= row < self.advice[column].len() {
            self.advice[column][row]
        } else {
            None
        }
    }

    /// The number in the advice cell at `(column, row)`, if it holds a known one.
    pub open spec fn advice_value(self, column: int, row: int) -> Option<nat> {
        match self.advice_slot(column, row) {
            Some(Some(v)) => Some(v),
            _ => None,
        }
    }

    /// Whether `selector` is enabled at `row`.
    pub open spec fn selector_enabled(self, selector: int, row: int) -> bool {
        0 <= selector < self.selectors.len() && 0 <= row < self.selectors[selector].len()
            && self.selectors[selector][row]
    }

    /// The public input at `(column, row)`; rows past the end of what was
    /// supplied read as zero.
    pub open spec fn instance_value(self, column: int, row: int) -> nat {
        public_input(self.instance, column, row)
    }

    /// The number in a cell of either kind, if it holds a known one.
    pub open spec fn cell_value(self, cell: Cell) -> Option<nat> {
        match cell.column {
            Column::Advice(AdviceColumn(c)) => self.advice_value(c as int, cell.row as int),
            Column::Instance(InstanceColumn(c)) => Some(self.instance_value(c as int, cell.row as int)),
        }
    }

    /// The value of a polynomial at `row`, as far as the cells filled so far
    /// decide it. A product with a factor that is zero is zero whatever the
    /// other factor holds; apart from that a polynomial over a cell without
    /// a known value has none.
    pub open spec fn eval(self, e: Expression, row: int) -> Option<nat>
        decreases e,
    {
        match e {
            Expression::Selector(s) => Some(
                if self.selector_enabled(s.0 as int, row) {
                    1nat
                } else {
                    0nat
                },
            ),
            Expression::Advice { column, rotation } => self.advice_value(column.0 as int, row + rotation.0),
            Expression::Negated(a) => match self.eval(*a, row) {
                Some(x) => Some(field_neg(x)),
                None => None,
            },
            Expression::Sum(a, b) => match (self.eval(*a, row), self.eval(*b, row)) {
                (Some(x), Some(y)) => Some(field_add(x, y)),
                _ => None,
            },
            Expression::Product(a, b) => match (self.eval(*a, row), self.eval(*b, row)) {
                (Some(x), Some(y)) => Some(field_mul(x, y)),
                (Some(x), None) => if x == 0 {
                    Some(0nat)
                } else {
                    None
                },
                (None, Some(y)) => if y == 0 {
                    Some(0nat)
                } else {
                    None
                },
                (None, None) => None,
            },
        }
    }

    /// Whether the polynomial `poly` of gate `gate` vanishes at `row`.
    pub open spec fn poly_holds(self, gate: int, poly: int, row: int) -> bool {
        self.eval(self.shape.gates[gate].polys[poly], row) == Some(0nat)
    }

    /// Whether every polynomial of every gate vanishes on every row.
    pub open spec fn gates_hold(self) -> bool {
        forall|gate: int, poly: int, row: int|
            0 <= gate < self.shape.gates.len() && 0 <= poly < self.shape.gates[gate].polys.len() && 0 <= row
                < self.rows ==> #[trigger] self.poly_holds(gate, poly, row)
    }

    /// Whether the two cells of a copy constraint hold the same known number.
    pub open spec fn copy_holds(self, copy: CopyConstraint) -> bool {
        self.cell_value(copy.left).is_some() && self.cell_value(copy.left) == self.cell_value(copy.right)
    }

    /// Whether every copy constraint holds.
    pub open spec fn copies_hold(self) -> bool {
        forall|i: int| 0 <= i < self.copies.len() ==> self.copy_holds(#[trigger] self.copies[i])
    }

    /// Whether the assignment satisfies the circuit: every gate vanishes on
    /// every row, and every copy constraint, those that bind a cell to a
    /// public input among them, holds.
    pub open spec fn satisfied(self) -> bool {
        self.gates_hold() && self.copies_hold()
    }

    /// Whether `region` is the open region of the table: the one opened
    /// last. The regions before it are closed, and keep their rows to
    /// themselves.
    pub open spec fn is_open(self, region: Region) -> bool {
        self.regions.len() == region.index + 1 && self.regions[region.index as int].start == region.start
    }

    /// Why nothing can be laid out through `region`, if nothing can: a
    /// region that is not open has no rows to give.
    pub open spec fn region_error(self, region: Region) -> Option<Error> {
        want_of_rows(self.is_open(region))
    }

    /// Why `selector` cannot be enabled at `row`, if it cannot.
    pub open spec fn enable_error(self, selector: int, row: int) -> Option<Error> {
        if row >= self.rows {
            Some(Error::NotEnoughRowsAvailable)
        } else if selector >= self.shape.selectors {
            Some(Error::BoundsFailure)
        } else {
            None
        }
    }

    /// Why the advice cell at `(column, row)` cannot be assigned, if it cannot.
    pub open spec fn assign_error(self, column: int, row: int) -> Option<Error> {
        if row >= self.rows {
            Some(Error::NotEnoughRowsAvailable)
        } else if column >= self.shape.advice_columns {
            Some(Error::BoundsFailure)
        } else if self.advice_slot(column, row).is_some() {
            Some(Error::AlreadyAssigned)
        } else {
            None
        }
    }

    /// Why the public input at `(column, row)` cannot be read, if it cannot.
    pub open spec fn query_error(self, column: int, row: int) -> Option<Error> {
        if row >= self.rows {
            Some(Error::NotEnoughRowsAvailable)
        } else if column >= self.shape.instance_columns {
            Some(Error::BoundsFailure)
        } else {
            None
        }
    }

    /// Why `left` and `right` cannot be constrained to be equal, if they cannot.
    pub open spec fn constrain_error(self, left: Cell, right: Cell) -> Option<Error> {
        if left.row >= self.rows || right.row >= self.rows {
            Some(Error::NotEnoughRowsAvailable)
        } else if !self.shape.equality.contains(left.column) || !self.shape.equality.contains(right.column) {
            Some(Error::ColumnNotInPermutation)
        } else {
            None
        }
    }

    /// The advice cell in `column` at `row`.
    pub open spec fn advice_cell(column: AdviceColumn, row: int) -> Cell {
        Cell { column: Column::Advice(column), row: row as usize }
    }

    /// The instance cell in `column` at `row`.
    pub open spec fn instance_cell(column: InstanceColumn, row: int) -> Cell {
        Cell { column: Column::Instance(column), row: row as usize }
    }

    /// Why the value of `source` cannot be copied into the advice cell at
    /// `(column, row)`, if it cannot: the cell cannot be assigned, or the
    /// two cannot be constrained to be equal.
    pub open spec fn copy_error(self, source: Cell, column: AdviceColumn, row: int) -> Option<Error> {
        if self.assign_error(column.0 as int, row).is_some() {
            self.assign_error(column.0 as int, row)
        } else {
            self.constrain_error(Self::advice_cell(column, row), source)
        }
    }

    /// Why the public input at `(instance, instance_row)` cannot be copied
    /// into the advice cell at `(column, row)`, if it cannot.
    pub open spec fn instance_copy_error(
        self,
        instance: InstanceColumn,
        instance_row: int,
        column: AdviceColumn,
        row: int,
    ) -> Option<Error> {
        if self.query_error(instance.0 as int, instance_row).is_some() {
            self.query_error(instance.0 as int, instance_row)
        } else {
            self.copy_error(Self::instance_cell(instance, instance_row), column, row)
        }
    }

    /// The table after a region named `name` was opened at the first free row.
    pub open spec fn open_region(self, name: Seq<char>) -> Table {
        Table { regions: self.regions.push(RegionSpec { name, start: self.next_row }), ..self }
    }

    /// The first free row once `row` has been touched.
    pub open spec fn next_row_after(self, row: int) -> nat {
        if row + 1 > self.next_row {
            (row + 1) as nat
        } else {
            self.next_row
        }
    }

    /// The table after `selector` was enabled at `row`.
    pub open spec fn enable(self, selector: int, row: int) -> Table {
        Table {
            selectors: self.selectors.update(selector, self.selectors[selector].update(row, true)),
            next_row: self.next_row_after(row),
            ..self
        }
    }

    /// The table after `selector` was enabled at `row`, where that is
    /// `wanted`; the table as it is where it is not.
    pub open spec fn enable_where(self, wanted: bool, selector: int, row: int) -> Table {
        if wanted {
            self.enable(selector, row)
        } else {
            self
        }
    }

    /// Why `selector` cannot be enabled at `row` although that is `wanted`, if it cannot.
    pub open spec fn enable_where_error(self, wanted: bool, selector: int, row: int) -> Option<Error> {
        if wanted {
            self.enable_error(selector, row)
        } else {
            None
        }
    }

    /// The table after the advice cell at `(column, row)` was given `value`.
    pub open spec fn assign(self, column: int, row: int, value: Option<nat>) -> Table {
        Table {
            advice: self.advice.update(column, self.advice[column].update(row, Some(value))),
            next_row: self.next_row_after(row),
            ..self
        }
    }

    /// The table after a copy constraint between `left` and `right` was added.
    pub open spec fn constrain(self, left: Cell, right: Cell) -> Table {
        Table { copies: self.copies.push(CopyConstraint { left, right }), ..self }
    }

    /// The table after the advice cell at `(column, row)` was given `value`
    /// and constrained to equal `source`.
    pub open spec fn copy(self, source: Cell, column: AdviceColumn, row: int, value: Option<nat>) -> Table {
        self.assign(column.0 as int, row, value).constrain(Self::advice_cell(column, row), source)
    }
}

impl Table {
    /// The table in which copy constraint `i` takes its value from `cell`
    /// instead of the cell that it was made with.
    pub open spec fn redirect(self, i: int, cell: Cell) -> Table {
        Table {
            copies: self.copies.update(i, CopyConstraint { left: self.copies[i].left, right: cell }),
            ..self
        }
    }
}

/// Copy-constraint integrity: once a copy constraint is redirected to a
/// cell that does not hold the value of the cell it constrains, the table
/// is not satisfied, whatever else it holds.
pub proof fn lemma_redirected_copy_fails(t: Table, i: int, cell: Cell)
    requires
        0 <= i < t.copies.len(),
        t.cell_value(cell) != t.cell_value(t.copies[i].left),
    ensures
        !t.redirect(i, cell).satisfied(),
{
    let u = t.redirect(i, cell);
    assert(!u.copy_holds(u.copies[i]));
}

/// A table with a copy constraint between two cells that hold different
/// values, or of which one holds no known value, is not satisfied.
pub proof fn lemma_unequal_copy_fails(t: Table, i: int)
    requires
        0 <= i < t.copies.len(),
        t.cell_value(t.copies[i].left) is None || t.cell_value(t.copies[i].left) != t.cell_value(
            t.copies[i].right,
        ),
    ensures
        !t.satisfied(),
{
    assert(!t.copy_holds(t.copies[i]));
}

} // verus!
