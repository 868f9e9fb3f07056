//! Witness assignment: a layouter that fills a table region by region, and
//! the check that the filled table satisfies its circuit.
//!
//! A region starts at the first row that no earlier region has touched and
//! is open until the next one is opened. Only the open region can be
//! assigned into, so the rows of a region are its own.

use crate::field::FieldElement;
use crate::plonk::{
    AdviceColumn, Column, ConstraintSystem, Error, Expression, InstanceColumn, Rotation, Selector,
};
use crate::table::{filled, or_error, Cell, CopyConstraint, Region, RegionSpec, Slot, Table};
use crate::value::Value;
use vstd::prelude::*;

verus! {

/// A region as the layouter records it.
#[derive(Clone, Copy, Debug, PartialEq, Eq)]
pub struct RegionRecord {
    pub name: &'static str,
    pub start: usize,
}

/// A cell that has been assigned, with the value it was given.
#[derive(Clone, Copy, Debug, PartialEq, Eq)]
pub struct AssignedCell {
    pub cell: Cell,
    pub value: Value,
}

impl AssignedCell {
    /// Where the cell is.
    pub fn cell(&self) -> (r: Cell)
        ensures
            r == self.cell,
    {
        self.cell
    }

    /// What the cell was given.
    pub fn value(&self) -> (r: Value)
        ensures
            r == self.value,
    {
        self.value
    }
}

/// What an advice cell of the layouter holds, as the table sees it.
pub open spec fn slot_view(slot: Option<Value>) -> Slot {
    match slot {
        Some(v) => Some(v@),
        None => None,
    }
}

/// Fills the table of one circuit: opens regions, assigns advice cells,
/// enables selectors and records copy constraints.
#[derive(Debug)]
pub struct Layouter {
    cs: ConstraintSystem,
    rows: usize,
    instance: Vec<Vec<FieldElement>>,
    advice: Vec<Vec<Option<Value>>>,
    selectors: Vec<Vec<bool>>,
    copies: Vec<CopyConstraint>,
    regions: Vec<RegionRecord>,
    next_row: usize,
}

/// The public inputs as numbers.
pub open spec fn instance_view(instance: Seq<Vec<FieldElement>>) -> Seq<Seq<nat>> {
    Seq::new(instance.len(), |c: int| Seq::new(instance[c]@.len(), |r: int| instance[c]@[r]@))
}

impl View for Layouter {
    type V = Table;

    closed spec fn view(&self) -> Table {
        Table {
            shape: self.cs@,
            rows: self.rows as nat,
            instance: instance_view(self.instance@),
            advice: Seq::new(
                self.advice@.len(),
                |c: int| Seq::new(self.advice@[c]@.len(), |r: int| slot_view(self.advice@[c]@[r])),
            ),
            selectors: Seq::new(self.selectors@.len(), |s: int| self.selectors@[s]@),
            copies: self.copies@,
            regions: Seq::new(
                self.regions@.len(),
                |i: int| RegionSpec { name: self.regions@[i].name@, start: self.regions@[i].start as nat },
            ),
            next_row: self.next_row as nat,
        }
    }
}

/// A column of `rows` advice cells that hold nothing.
fn empty_advice_column(rows: usize) -> (r: Vec<Option<Value>>)
    ensures
        r@.len() == rows,
        forall|i: int| 0 <= i < rows ==> r@[i].is_none(),
{
    let mut column: Vec<Option<Value>> = Vec::new();
    let mut i: usize = 0;
    while i < rows
        invariant
            i <= rows,
            column@.len() == i,
            forall|j: int| 0 <= j < i ==> column@[j].is_none(),
        decreases rows - i,
    {
        column.push(None);
        i += 1;
    }
    column
}

/// A selector column of `rows` rows, enabled nowhere.
fn empty_selector_column(rows: usize) -> (r: Vec<bool>)
    ensures
        r@ == filled(rows as nat, false),
{
    let mut column: Vec<bool> = Vec::new();
    let mut i: usize = 0;
    while i < rows
        invariant
            i <= rows,
            column@.len() == i,
            forall|j: int| 0 <= j < i ==> !column@[j],
        decreases rows - i,
    {
        column.push(false);
        i += 1;
    }
    assert(column@ =~= filled(rows as nat, false));
    column
}

impl Layouter {
    /// A layouter for the circuit that `cs` describes, with `rows` usable
    /// rows and the given public inputs, one vector for each instance column.
    pub fn new(cs: ConstraintSystem, rows: usize, instance: Vec<Vec<FieldElement>>) -> (r: Layouter)
        ensures
            r@ == Table::initial(cs@, rows as nat, instance_view(instance@)),
            r@.wf(),
    {
        let mut advice: Vec<Vec<Option<Value>>> = Vec::new();
        let mut c: usize = 0;
        while c < cs.num_advice_columns()
            invariant
                c <= cs@.advice_columns,
                advice@.len() == c,
                forall|j: int| 0 <= j < c ==> (#[trigger] advice@[j])@.len() == rows,
                forall|j: int, i: int| 0 <= j < c && 0 <= i < rows ==> (#[trigger] advice@[j]@[i]).is_none(),
            decreases cs@.advice_columns - c,
        {
            advice.push(empty_advice_column(rows));
            c += 1;
        }
        let mut selectors: Vec<Vec<bool>> = Vec::new();
        let mut s: usize = 0;
        while s < cs.num_selectors()
            invariant
                s <= cs@.selectors,
                selectors@.len() == s,
                forall|j: int| 0 <= j < s ==> (#[trigger] selectors@[j])@ == filled(rows as nat, false),
            decreases cs@.selectors - s,
        {
            selectors.push(empty_selector_column(rows));
            s += 1;
        }
        let r = Layouter {
            cs,
            rows,
            instance,
            advice,
            selectors,
            copies: Vec::new(),
            regions: Vec::new(),
            next_row: 0,
        };
        proof {
            let t = Table::initial(cs@, rows as nat, instance_view(instance@));
            assert(r@.advice =~~= t.advice);
            assert(r@.selectors =~~= t.selectors);
            assert(r@.copies =~= t.copies);
            assert(r@.regions =~= t.regions);
        }
        r
    }

    /// How many rows can be used.
    pub fn rows(&self) -> (r: usize)
        ensures
            r == self@.rows,
    {
        self.rows
    }

    /// The first row that no region has touched.
    pub fn next_row(&self) -> (r: usize)
        ensures
            r == self@.next_row,
    {
        self.next_row
    }

    /// Opens a region named `name` at the first free row. The region opened
    /// before it is closed by that.
    pub fn assign_region(&mut self, name: &'static str) -> (r: Region)
        ensures
            r.index == old(self)@.regions.len(),
            r.start == old(self)@.next_row,
            final(self)@ == old(self)@.open_region(name@),
            final(self)@.is_open(r),
    {
        let index = self.regions.len();
        let start = self.next_row;
        self.regions.push(RegionRecord { name, start });
        proof {
            assert(self@.regions =~= old(self)@.open_region(name@).regions);
        }
        Region { index, start }
    }

    /// Whether `region` is the open region: the one opened last.
    pub fn is_open(&self, region: &Region) -> (r: bool)
        ensures
            r == self@.is_open(*region),
    {
        let n = self.regions.len();
        n > 0 && region.index == n - 1 && self.regions[region.index].start == region.start
    }

    /// Enables `selector` at the row `offset` of `region`, which must be
    /// the open region.
    pub fn enable_selector(&mut self, region: &Region, selector: Selector, offset: usize) -> (r: Result<
        (),
        Error,
    >)
        requires
            old(self)@.wf(),
        ensures
            final(self)@.wf(),
            match r {
                Ok(_) => {
                    &&& old(self)@.is_open(*region)
                    &&& old(self)@.enable_error(selector.0 as int, region.start + offset) is None
                    &&& final(self)@ == old(self)@.enable(selector.0 as int, region.start + offset)
                },
                Err(e) => {
                    &&& or_error(
                        old(self)@.region_error(*region),
                        old(self)@.enable_error(selector.0 as int, region.start + offset),
                    ) == Some(e)
                    &&& final(self)@ == old(self)@
                },
            },
    {
        if !self.is_open(region) {
            return Err(Error::NotEnoughRowsAvailable);
        }
        if region.start >= self.rows || offset >= self.rows - region.start {
            return Err(Error::NotEnoughRowsAvailable);
        }
        let row = region.start + offset;
        if selector.0 >= self.selectors.len() {
            return Err(Error::BoundsFailure);
        }
        assert(self@.selectors[selector.0 as int].len() == self.rows);
        self.selectors[selector.0][row] = true;
        if row >= self.next_row {
            self.next_row = row + 1;
        }
        proof {
            let t = old(self)@.enable(selector.0 as int, row as int);
            assert(self@.selectors =~~= t.selectors);
            assert(self@.advice =~~= t.advice);
            assert(self@.regions =~= t.regions);
        }
        Ok(())
    }

    /// Gives the advice cell in `column` at the row `offset` of `region`,
    /// which must be the open region, the value `value`. A cell can be
    /// assigned once.
    pub fn assign_advice(&mut self, region: &Region, column: AdviceColumn, offset: usize, value: Value) -> (r:
        Result<AssignedCell, Error>)
        requires
            old(self)@.wf(),
        ensures
            final(self)@.wf(),
            match r {
                Ok(assigned) => {
                    &&& old(self)@.is_open(*region)
                    &&& old(self)@.assign_error(column.0 as int, region.start + offset) is None
                    &&& final(self)@ == old(self)@.assign(column.0 as int, region.start + offset, value@)
                    &&& assigned.cell.column == Column::Advice(column)
                    &&& assigned.cell.row == region.start + offset
                    &&& assigned.value == value
                },
                Err(e) => {
                    &&& or_error(
                        old(self)@.region_error(*region),
                        old(self)@.assign_error(column.0 as int, region.start + offset),
                    ) == Some(e)
                    &&& final(self)@ == old(self)@
                },
            },
    {
        if !self.is_open(region) {
            return Err(Error::NotEnoughRowsAvailable);
        }
        if region.start >= self.rows || offset >= self.rows - region.start {
            return Err(Error::NotEnoughRowsAvailable);
        }
        let row = region.start + offset;
        if column.0 >= self.advice.len() {
            return Err(Error::BoundsFailure);
        }
        assert(self@.advice[column.0 as int].len() == self.rows);
        if self.advice[column.0][row].is_some() {
            return Err(Error::AlreadyAssigned);
        }
        proof {
            match value {
                Value::Known(v) => {
                    use_type_invariant(&v);
                },
                Value::Unknown => {},
            }
        }
        self.advice[column.0][row] = Some(value);
        if row >= self.next_row {
            self.next_row = row + 1;
        }
        proof {
            let t = old(self)@.assign(column.0 as int, row as int, value@);
            assert(self@.advice =~~= t.advice);
            assert(self@.selectors =~~= t.selectors);
            assert(self@.regions =~= t.regions);
        }
        Ok(AssignedCell { cell: Cell { column: Column::Advice(column), row }, value })
    }

    /// Why the advice cell of `column` at the row `offset` of `region` cannot be assigned, if it cannot.
    fn check_assign(&self, region: &Region, column: AdviceColumn, offset: usize) -> (r: Option<Error>)
        requires
            self@.wf(),
        ensures
            r == self@.assign_error(column.0 as int, region.start + offset),
            r.is_none() ==> region.start + offset < self@.rows,
    {
        if region.start >= self.rows || offset >= self.rows - region.start {
            return Some(Error::NotEnoughRowsAvailable);
        }
        let row = region.start + offset;
        if column.0 >= self.advice.len() {
            return Some(Error::BoundsFailure);
        }
        assert(self@.advice[column.0 as int].len() == self.rows);
        if self.advice[column.0][row].is_some() {
            return Some(Error::AlreadyAssigned);
        }
        None
    }

    /// Why `left` and `right` cannot be constrained to be equal, if they cannot.
    fn check_constrain(&self, left: Cell, right: Cell) -> (r: Option<Error>)
        ensures
            r == self@.constrain_error(left, right),
    {
        if left.row >= self.rows || right.row >= self.rows {
            return Some(Error::NotEnoughRowsAvailable);
        }
        if !self.cs.is_equality_enabled(left.column) || !self.cs.is_equality_enabled(right.column) {
            return Some(Error::ColumnNotInPermutation);
        }
        None
    }

    /// The public input at `(column, row)`; zero past the end of what was supplied.
    pub fn instance_value(&self, column: InstanceColumn, row: usize) -> (r: FieldElement)
        ensures
            r@ == self@.instance_value(column.0 as int, row as int),
    {
        if column.0 < self.instance.len() && row < self.instance[column.0].len() {
            self.instance[column.0][row]
        } else {
            FieldElement::zero()
        }
    }

    /// Gives the advice cell in `column` at the row `offset` of `region` the
    /// value of `source`, and constrains the two cells to be equal. On an
    /// error the table is left as it was.
    pub fn copy_advice(&mut self, region: &Region, source: &AssignedCell, column: AdviceColumn, offset: usize) -> (r:
        Result<AssignedCell, Error>)
        requires
            old(self)@.wf(),
        ensures
            final(self)@.wf(),
            match r {
                Ok(assigned) => {
                    &&& old(self)@.is_open(*region)
                    &&& old(self)@.copy_error(source.cell, column, region.start + offset) is None
                    &&& final(self)@ == old(self)@.copy(
                        source.cell,
                        column,
                        region.start + offset,
                        source.value@,
                    )
                    &&& assigned.cell == Table::advice_cell(column, region.start + offset)
                    &&& assigned.value == source.value
                },
                Err(e) => {
                    &&& or_error(
                        old(self)@.region_error(*region),
                        old(self)@.copy_error(source.cell, column, region.start + offset),
                    ) == Some(e)
                    &&& final(self)@ == old(self)@
                },
            },
    {
        if !self.is_open(region) {
            return Err(Error::NotEnoughRowsAvailable);
        }
        if let Some(e) = self.check_assign(region, column, offset) {
            return Err(e);
        }
        let target = Cell { column: Column::Advice(column), row: region.start + offset };
        if let Some(e) = self.check_constrain(target, source.cell) {
            return Err(e);
        }
        let assigned = self.assign_advice(region, column, offset, source.value)?;
        self.constrain_equal(target, source.cell)?;
        Ok(assigned)
    }

    /// Gives the advice cell in `column` at the row `offset` of `region` the
    /// public input at `(instance, row)`, and constrains the two cells to be
    /// equal. On an error the table is left as it was.
    pub fn assign_advice_from_instance(
        &mut self,
        region: &Region,
        instance: InstanceColumn,
        row: usize,
        column: AdviceColumn,
        offset: usize,
    ) -> (r: Result<AssignedCell, Error>)
        requires
            old(self)@.wf(),
        ensures
            final(self)@.wf(),
            match r {
                Ok(assigned) => {
                    &&& old(self)@.is_open(*region)
                    &&& old(self)@.instance_copy_error(instance, row as int, column, region.start + offset) is None
                    &&& final(self)@ == old(self)@.copy(
                        Table::instance_cell(instance, row as int),
                        column,
                        region.start + offset,
                        Some(old(self)@.instance_value(instance.0 as int, row as int)),
                    )
                    &&& assigned.cell == Table::advice_cell(column, region.start + offset)
                    &&& assigned.value@ == Some(old(self)@.instance_value(instance.0 as int, row as int))
                },
                Err(e) => {
                    &&& or_error(
                        old(self)@.region_error(*region),
                        old(self)@.instance_copy_error(instance, row as int, column, region.start + offset),
                    ) == Some(e)
                    &&& final(self)@ == old(self)@
                },
            },
    {
        if !self.is_open(region) {
            return Err(Error::NotEnoughRowsAvailable);
        }
        if row >= self.rows {
            return Err(Error::NotEnoughRowsAvailable);
        }
        if instance.0 >= self.cs.num_instance_columns() {
            return Err(Error::BoundsFailure);
        }
        let source = AssignedCell {
            cell: Cell { column: Column::Instance(instance), row },
            value: Value::Known(self.instance_value(instance, row)),
        };
        self.copy_advice(region, &source, column, offset)
    }

    /// Binds `cell` to the public input at `(instance, row)`: the two must
    /// hold the same value. On an error the table is left as it was.
    pub fn constrain_instance(&mut self, cell: Cell, instance: InstanceColumn, row: usize) -> (r: Result<
        (),
        Error,
    >)
        ensures
            match r {
                Ok(_) => {
                    &&& old(self)@.constrain_error(cell, Table::instance_cell(instance, row as int)) is None
                    &&& final(self)@ == old(self)@.constrain(cell, Table::instance_cell(instance, row as int))
                },
                Err(e) => {
                    &&& old(self)@.constrain_error(cell, Table::instance_cell(instance, row as int)) == Some(e)
                    &&& final(self)@ == old(self)@
                },
            },
    {
        self.constrain_equal(cell, Cell { column: Column::Instance(instance), row })
    }

    /// The row `rotation` away from `row`, if the machine can count that far.
    fn rotated(row: usize, rotation: Rotation) -> (r: Option<usize>)
        ensures
            match r {
                Some(t) => t == row + rotation.0,
                None => row + rotation.0 < 0 || row + rotation.0 > usize::MAX,
            },
    {
        let by: i64 = rotation.0 as i64;
        if by >= 0 {
            let down: usize = by as usize;
            if down > usize::MAX - row {
                None
            } else {
                Some(row + down)
            }
        } else {
            let up: usize = (-by) as usize;
            if up > row {
                None
            } else {
                Some(row - up)
            }
        }
    }

    /// What the advice cell at `(column, row)` holds; nothing outside the table.
    pub fn advice(&self, column: AdviceColumn, row: usize) -> (r: Option<Value>)
        ensures
            slot_view(r) == self@.advice_slot(column.0 as int, row as int),
    {
        if column.0 < self.advice.len() && row < self.advice[column.0].len() {
            self.advice[column.0][row]
        } else {
            None
        }
    }

    /// Whether `selector` is enabled at `row`.
    pub fn selector_enabled(&self, selector: Selector, row: usize) -> (r: bool)
        ensures
            r == self@.selector_enabled(selector.0 as int, row as int),
    {
        selector.0 < self.selectors.len() && row < self.selectors[selector.0].len()
            && self.selectors[selector.0][row]
    }

    /// The number in a cell of either kind, if it holds a known one.
    pub fn cell_value(&self, cell: Cell) -> (r: Option<FieldElement>)
        ensures
            match r {
                Some(v) => self@.cell_value(cell) == Some(v@),
                None => self@.cell_value(cell) is None,
            },
    {
        match cell.column {
            Column::Advice(column) => match self.advice(column, cell.row) {
                Some(Value::Known(v)) => Some(v),
                _ => None,
            },
            Column::Instance(column) => Some(self.instance_value(column, cell.row)),
        }
    }

    /// The value of the polynomial `e` at `row`, as far as the cells filled
    /// so far decide it.
    pub fn eval(&self, e: &Expression, row: usize) -> (r: Option<FieldElement>)
        ensures
            match r {
                Some(v) => self@.eval(*e, row as int) == Some(v@),
                None => self@.eval(*e, row as int) is None,
            },
        decreases e,
    {
        match e {
            Expression::Selector(s) => {
                if self.selector_enabled(*s, row) {
                    Some(FieldElement::one())
                } else {
                    Some(FieldElement::zero())
                }
            },
            Expression::Advice { column, rotation } => match Self::rotated(row, *rotation) {
                Some(target) => match self.advice(*column, target) {
                    Some(Value::Known(v)) => Some(v),
                    _ => None,
                },
                None => {
                    assert(self@.advice_slot(column.0 as int, row + rotation.0) is None) by {
                        if column.0 < self.advice@.len() {
                            assert(self.advice@[column.0 as int].len() <= usize::MAX);
                        }
                    }
                    None
                },
            },
            Expression::Negated(a) => match self.eval(a, row) {
                Some(x) => Some(x.neg()),
                None => None,
            },
            Expression::Sum(a, b) => match (self.eval(a, row), self.eval(b, row)) {
                (Some(x), Some(y)) => Some(x.add(&y)),
                _ => None,
            },
            Expression::Product(a, b) => match (self.eval(a, row), self.eval(b, row)) {
                (Some(x), Some(y)) => Some(x.mul(&y)),
                (Some(x), None) => if x.is_zero() {
                    Some(x)
                } else {
                    None
                },
                (None, Some(y)) => if y.is_zero() {
                    Some(y)
                } else {
                    None
                },
                (None, None) => None,
            },
        }
    }

    /// Whether the assignment satisfies the circuit: every polynomial of
    /// every gate vanishes on every row, and every copy constraint holds.
    pub fn is_satisfied(&self) -> (r: bool)
        ensures
            r == self@.satisfied(),
    {
        let gates = self.cs.gates();
        let mut g: usize = 0;
        while g < gates.len()
            invariant
                g <= gates@.len(),
                gates@.len() == self@.shape.gates.len(),
                forall|i: int| 0 <= i < gates@.len() ==> (#[trigger] gates@[i])@ == self@.shape.gates[i],
                forall|gate: int, poly: int, row: int|
                    0 <= gate < g && 0 <= poly < self@.shape.gates[gate].polys.len() && 0 <= row < self@.rows
                        ==> #[trigger] self@.poly_holds(gate, poly, row),
            decreases gates@.len() - g,
        {
            let gate = &gates[g];
            assert(gate@ == self@.shape.gates[g as int]);
            let mut p: usize = 0;
            while p < gate.polys.len()
                invariant
                    g < self@.shape.gates.len(),
                    gate@ == self@.shape.gates[g as int],
                    p <= gate.polys@.len(),
                    forall|poly: int, row: int|
                        0 <= poly < p && 0 <= row < self@.rows ==> #[trigger] self@.poly_holds(
                            g as int,
                            poly,
                            row,
                        ),
                decreases gate.polys@.len() - p,
            {
                let mut row: usize = 0;
                while row < self.rows
                    invariant
                        g < self@.shape.gates.len(),
                        gate@ == self@.shape.gates[g as int],
                        p < gate.polys@.len(),
                        row <= self.rows,
                        self.rows == self@.rows,
                        forall|i: int| 0 <= i < row ==> #[trigger] self@.poly_holds(g as int, p as int, i),
                    decreases self.rows - row,
                {
                    let vanishes = match self.eval(&gate.polys[p], row) {
                        Some(v) => v.is_zero(),
                        None => false,
                    };
                    if !vanishes {
                        assert(!self@.poly_holds(g as int, p as int, row as int));
                        return false;
                    }
                    row += 1;
                }
                p += 1;
            }
            g += 1;
        }
        let mut i: usize = 0;
        while i < self.copies.len()
            invariant
                i <= self.copies@.len(),
                self@.gates_hold(),
                self@.copies == self.copies@,
                forall|j: int| 0 <= j < i ==> self@.copy_holds(#[trigger] self.copies@[j]),
            decreases self.copies@.len() - i,
        {
            let copy = self.copies[i];
            let holds = match (self.cell_value(copy.left), self.cell_value(copy.right)) {
                (Some(l), Some(r)) => l.is_equal(&r),
                _ => false,
            };
            if !holds {
                assert(!self@.copy_holds(self@.copies[i as int]));
                return false;
            }
            i += 1;
        }
        true
    }

    /// The shape of the circuit that is being laid out.
    pub fn constraint_system(&self) -> (r: &ConstraintSystem)
        ensures
            r@ == self@.shape,
    {
        &self.cs
    }

    /// The copy constraints, in the order in which they were made.
    pub fn copies(&self) -> (r: &Vec<CopyConstraint>)
        ensures
            r@ == self@.copies,
    {
        &self.copies
    }

    /// The regions, in the order in which they were opened.
    pub fn regions(&self) -> (r: &Vec<RegionRecord>)
        ensures
            r@.len() == self@.regions.len(),
            forall|i: int|
                0 <= i < r@.len() ==> self@.regions[i] == (RegionSpec {
                    name: (#[trigger] r@[i]).name@,
                    start: r@[i].start as nat,
                }),
    {
        &self.regions
    }

    /// Demands that `left` and `right` hold the same value. Both must lie in
    /// columns for which equality was enabled.
    pub fn constrain_equal(&mut self, left: Cell, right: Cell) -> (r: Result<(), Error>)
        ensures
            match r {
                Ok(_) => {
                    &&& old(self)@.constrain_error(left, right) is None
                    &&& final(self)@ == old(self)@.constrain(left, right)
                },
                Err(e) => {
                    &&& old(self)@.constrain_error(left, right) == Some(e)
                    &&& final(self)@ == old(self)@
                },
            },
    {
        if left.row >= self.rows || right.row >= self.rows {
            return Err(Error::NotEnoughRowsAvailable);
        }
        if !self.cs.is_equality_enabled(left.column) || !self.cs.is_equality_enabled(right.column) {
            return Err(Error::ColumnNotInPermutation);
        }
        self.copies.push(CopyConstraint { left, right });
        proof {
            let t = old(self)@.constrain(left, right);
            assert(self@.advice =~~= t.advice);
            assert(self@.selectors =~~= t.selectors);
            assert(self@.regions =~= t.regions);
        }
        Ok(())
    }
}

} // verus!
