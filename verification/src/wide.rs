//! The wide layout: three advice columns, one addition per row. Row 0 is
//! seeded with the witnesses `a` and `b`; every later row copies the last
//! two cells of the chain into its own `a` and `b` and gives `c` their sum.
//! Every row is a region of its own.

use crate::field::{modulus, FieldElement};
use crate::gate::{add_gate, add_poly, lemma_add_poly_disabled, lemma_add_poly_enabled, Query};
use crate::layouter::{instance_view, AssignedCell, Layouter};
use crate::plonk::{
    empty_shape, AdviceColumn, Column, ConstraintSystem, Error, Expression, GateSpec, InstanceColumn, Rotation,
    Selector, Shape,
};
use crate::recurrence::{lemma_value_term_bound, lemma_value_term_known, term, value_term};
use crate::table::{
    lemma_redirected_copy_fails, or_error, public_input, want_of_rows, Cell, CopyConstraint, RegionSpec, Table,
};
use crate::value::{value_add, Value};
use vstd::prelude::*;

verus! {

/// The columns and the selector that the chip works with.
#[derive(Clone, Copy, Debug, PartialEq, Eq)]
pub struct FiboConfig {
    pub advice: [AdviceColumn; 3],
    pub selector: Selector,
    pub instance: InstanceColumn,
}

/// The last two cells of the chain and what they were given: the window
/// that slides down by one row with every addition.
pub struct Window {
    pub b: Cell,
    pub c: Cell,
    pub vb: Option<nat>,
    pub vc: Option<nat>,
}

impl Window {
    /// Whether both cells can be the source of a copy in `t`: they lie in
    /// rows of the table and in columns for which equality was enabled.
    pub open spec fn fits(self, t: Table) -> bool {
        &&& self.b.row < t.rows
        &&& self.c.row < t.rows
        &&& t.shape.equality.contains(self.b.column)
        &&& t.shape.equality.contains(self.c.column)
    }
}

/// The window over two assigned cells.
pub open spec fn window_of(b: AssignedCell, c: AssignedCell) -> Window {
    Window { b: b.cell, c: c.cell, vb: b.value@, vc: c.value@ }
}

/// How many rows are still to come in a chain of `terms` terms once the
/// term with index `done - 1` has been laid out.
pub open spec fn rows_left(terms: nat, done: nat) -> nat {
    if terms > done {
        (terms - done) as nat
    } else {
        0
    }
}

/// How many rows follow the first one in a chain of `terms` terms; the
/// first row holds three of them.
pub open spec fn rows_after_first(terms: nat) -> nat {
    rows_left(terms, 3)
}

impl FiboConfig {
    /// The column of the first operand.
    pub open spec fn col_a(self) -> AdviceColumn {
        self.advice[0]
    }

    /// The column of the second operand.
    pub open spec fn col_b(self) -> AdviceColumn {
        self.advice[1]
    }

    /// The column of the sum.
    pub open spec fn col_c(self) -> AdviceColumn {
        self.advice[2]
    }

    /// This layout's gate: all three cells are queried on the current row.
    pub open spec fn gate(self) -> GateSpec {
        add_gate(
            self.selector,
            Query { column: self.col_a(), rotation: Rotation(0) },
            Query { column: self.col_b(), rotation: Rotation(0) },
            Query { column: self.col_c(), rotation: Rotation(0) },
        )
    }

    /// Whether these are the columns and the selector that configuring a
    /// circuit of shape `shape` allocates, with `instance` for its public inputs.
    pub open spec fn allocated_in(self, shape: Shape, instance: InstanceColumn) -> bool {
        &&& self.col_a().0 == shape.advice_columns
        &&& self.col_b().0 == shape.advice_columns + 1
        &&& self.col_c().0 == shape.advice_columns + 2
        &&& self.selector.0 == shape.selectors
        &&& self.instance == instance
    }

    /// Whether a circuit of shape `shape` has what the chip works with:
    /// three different advice columns and the instance column, all with
    /// equality enabled, and the selector.
    pub open spec fn fits(self, shape: Shape) -> bool {
        &&& self.col_a().0 < shape.advice_columns
        &&& self.col_b().0 < shape.advice_columns
        &&& self.col_c().0 < shape.advice_columns
        &&& self.col_a() != self.col_b()
        &&& self.col_a() != self.col_c()
        &&& self.col_b() != self.col_c()
        &&& self.selector.0 < shape.selectors
        &&& shape.equality.contains(Column::Advice(self.col_a()))
        &&& shape.equality.contains(Column::Advice(self.col_b()))
        &&& shape.equality.contains(Column::Advice(self.col_c()))
        &&& shape.equality.contains(Column::Instance(self.instance))
    }

    /// The shape after configuration: three more advice columns and one more
    /// selector, equality enabled on the three columns and on the instance
    /// column, and one gate added.
    pub open spec fn configured(self, shape: Shape) -> Shape {
        Shape {
            advice_columns: shape.advice_columns + 3,
            selectors: shape.selectors + 1,
            equality: shape.equality.insert(Column::Advice(self.col_a())).insert(
                Column::Advice(self.col_b()),
            ).insert(Column::Advice(self.col_c())).insert(Column::Instance(self.instance)),
            gates: shape.gates.push(self.gate()),
            ..shape
        }
    }

    /// The table after the first row was laid out in a region of its own:
    /// the selector enabled, `a` and `b` assigned, and `c` given their sum.
    pub open spec fn first_row(self, t: Table, a: Option<nat>, b: Option<nat>) -> Table {
        let row = t.next_row as int;
        t.open_region("first row"@).enable(self.selector.0 as int, row).assign(
            self.col_a().0 as int,
            row,
            a,
        ).assign(self.col_b().0 as int, row, b).assign(self.col_c().0 as int, row, value_add(a, b))
    }

    /// Why the first row cannot be laid out, if it cannot: the error of the
    /// first step that fails.
    pub open spec fn first_row_error(self, t: Table, a: Option<nat>, b: Option<nat>) -> Option<Error> {
        let row = t.next_row as int;
        let t0 = t.open_region("first row"@);
        let t1 = t0.enable(self.selector.0 as int, row);
        let t2 = t1.assign(self.col_a().0 as int, row, a);
        let t3 = t2.assign(self.col_b().0 as int, row, b);
        or_error(
            t0.enable_error(self.selector.0 as int, row),
            or_error(
                t1.assign_error(self.col_a().0 as int, row),
                or_error(t2.assign_error(self.col_b().0 as int, row), t3.assign_error(self.col_c().0 as int, row)),
            ),
        )
    }

    /// The window after the first row.
    pub open spec fn first_window(self, t: Table, a: Option<nat>, b: Option<nat>) -> Window {
        let row = t.next_row as int;
        Window {
            b: Table::advice_cell(self.col_b(), row),
            c: Table::advice_cell(self.col_c(), row),
            vb: b,
            vc: value_add(a, b),
        }
    }

    /// The table after one more row was laid out in a region of its own:
    /// the selector enabled, the window's cells copied into `a` and `b`,
    /// and `c` given their sum.
    pub open spec fn next_row(self, t: Table, w: Window) -> Table {
        let row = t.next_row as int;
        t.open_region("next row"@).enable(self.selector.0 as int, row).copy(w.b, self.col_a(), row, w.vb).copy(
            w.c,
            self.col_b(),
            row,
            w.vc,
        ).assign(self.col_c().0 as int, row, value_add(w.vb, w.vc))
    }

    /// Why one more row cannot be laid out, if it cannot: the error of the
    /// first step that fails.
    pub open spec fn next_row_error(self, t: Table, w: Window) -> Option<Error> {
        let row = t.next_row as int;
        let t0 = t.open_region("next row"@);
        let t1 = t0.enable(self.selector.0 as int, row);
        let t2 = t1.copy(w.b, self.col_a(), row, w.vb);
        let t3 = t2.copy(w.c, self.col_b(), row, w.vc);
        or_error(
            t0.enable_error(self.selector.0 as int, row),
            or_error(
                t1.copy_error(w.b, self.col_a(), row),
                or_error(t2.copy_error(w.c, self.col_b(), row), t3.assign_error(self.col_c().0 as int, row)),
            ),
        )
    }

    /// The window after one more row: the old `c`, and the new one.
    pub open spec fn next_window(self, t: Table, w: Window) -> Window {
        Window {
            b: w.c,
            c: Table::advice_cell(self.col_c(), t.next_row as int),
            vb: w.vc,
            vc: value_add(w.vb, w.vc),
        }
    }

    /// The table after `k` more rows.
    pub open spec fn chain(self, t: Table, w: Window, k: nat) -> Table
        decreases k,
    {
        if k == 0 {
            t
        } else {
            self.chain(self.next_row(t, w), self.next_window(t, w), (k - 1) as nat)
        }
    }

    /// The window after `k` more rows.
    pub open spec fn chain_window(self, t: Table, w: Window, k: nat) -> Window
        decreases k,
    {
        if k == 0 {
            w
        } else {
            self.chain_window(self.next_row(t, w), self.next_window(t, w), (k - 1) as nat)
        }
    }

    /// Why `k` more rows cannot be laid out, if they cannot: the error of
    /// the first row that fails.
    pub open spec fn chain_error(self, t: Table, w: Window, k: nat) -> Option<Error>
        decreases k,
    {
        if k == 0 {
            None
        } else {
            or_error(
                self.next_row_error(t, w),
                self.chain_error(self.next_row(t, w), self.next_window(t, w), (k - 1) as nat),
            )
        }
    }

    /// The cell that holds the last term of a chain of `terms` terms laid
    /// out from `t` on.
    pub open spec fn last_cell(self, t: Table, a: Option<nat>, b: Option<nat>, terms: nat) -> Cell {
        self.chain_window(self.first_row(t, a, b), self.first_window(t, a, b), rows_after_first(terms)).c
    }

    /// The table after a chain of `terms` terms seeded with `a` and `b` was
    /// laid out and its last cell bound to row 2 of the public inputs.
    pub open spec fn synthesis(self, t: Table, a: Option<nat>, b: Option<nat>, terms: nat) -> Table {
        self.chain(self.first_row(t, a, b), self.first_window(t, a, b), rows_after_first(terms)).constrain(
            self.last_cell(t, a, b, terms),
            Table::instance_cell(self.instance, 2),
        )
    }

    /// Why the chain cannot be laid out and bound, if it cannot: the error
    /// of the first step that fails.
    pub open spec fn synthesis_error(self, t: Table, a: Option<nat>, b: Option<nat>, terms: nat) -> Option<
        Error,
    > {
        let t1 = self.first_row(t, a, b);
        let w1 = self.first_window(t, a, b);
        let k = rows_after_first(terms);
        or_error(
            self.first_row_error(t, a, b),
            or_error(
                self.chain_error(t1, w1, k),
                self.chain(t1, w1, k).constrain_error(
                    self.last_cell(t, a, b, terms),
                    Table::instance_cell(self.instance, 2),
                ),
            ),
        )
    }
}

/// Where the configuration fits the circuit, the first row is laid out
/// whenever a row is free, and takes exactly that row.
pub proof fn lemma_first_row_owed(cfg: FiboConfig, t: Table, a: Option<nat>, b: Option<nat>)
    requires
        t.well_shaped(),
        cfg.fits(t.shape),
    ensures
        cfg.first_row_error(t, a, b) == want_of_rows(t.next_row < t.rows),
        t.next_row < t.rows ==> {
            let u = cfg.first_row(t, a, b);
            &&& u.well_shaped()
            &&& u.shape == t.shape
            &&& u.rows == t.rows
            &&& u.next_row == t.next_row + 1
            &&& cfg.first_window(t, a, b).fits(u)
        },
{
}

/// Where the configuration fits the circuit and the window can be copied
/// from, one more row is laid out whenever a row is free, and takes
/// exactly that row.
pub proof fn lemma_next_row_owed(cfg: FiboConfig, t: Table, w: Window)
    requires
        t.well_shaped(),
        cfg.fits(t.shape),
        w.fits(t),
    ensures
        cfg.next_row_error(t, w) == want_of_rows(t.next_row < t.rows),
        t.next_row < t.rows ==> {
            let u = cfg.next_row(t, w);
            &&& u.well_shaped()
            &&& u.shape == t.shape
            &&& u.rows == t.rows
            &&& u.next_row == t.next_row + 1
            &&& cfg.next_window(t, w).fits(u)
        },
{
}

/// Where the configuration fits the circuit and the window can be copied
/// from, `k` more rows are laid out whenever `k` rows are free, and take
/// exactly those rows.
pub proof fn lemma_chain_owed(cfg: FiboConfig, t: Table, w: Window, k: nat)
    requires
        t.well_shaped(),
        cfg.fits(t.shape),
        w.fits(t),
    ensures
        cfg.chain_error(t, w, k) == want_of_rows(t.next_row + k <= t.rows),
        t.next_row + k <= t.rows ==> {
            let u = cfg.chain(t, w, k);
            &&& u.well_shaped()
            &&& u.shape == t.shape
            &&& u.rows == t.rows
            &&& u.next_row == t.next_row + k
            &&& cfg.chain_window(t, w, k).fits(u)
        },
    decreases k,
{
    if k > 0 {
        lemma_next_row_owed(cfg, t, w);
        if t.next_row < t.rows {
            lemma_chain_owed(cfg, cfg.next_row(t, w), cfg.next_window(t, w), (k - 1) as nat);
        }
    }
}

/// Where the configuration fits the circuit, the whole chain is laid out
/// and bound whenever the table has a free row for each row of the chain
/// and a row 2 for the public output.
pub proof fn lemma_synthesis_owed(cfg: FiboConfig, t: Table, a: Option<nat>, b: Option<nat>, terms: nat)
    requires
        t.well_shaped(),
        cfg.fits(t.shape),
    ensures
        cfg.synthesis_error(t, a, b, terms) == want_of_rows(
            t.next_row + rows_after_first(terms) + 1 <= t.rows && 2 < t.rows,
        ),
{
    lemma_first_row_owed(cfg, t, a, b);
    if t.next_row < t.rows {
        lemma_chain_owed(cfg, cfg.first_row(t, a, b), cfg.first_window(t, a, b), rows_after_first(terms));
    }
}

/// The chip that lays the recurrence out, one addition per row.
#[derive(Clone, Copy, Debug)]
pub struct FiboChip {
    config: FiboConfig,
}

impl FiboChip {
    /// The configuration the chip was built with.
    pub closed spec fn config(self) -> FiboConfig {
        self.config
    }

    /// The chip over a configuration.
    pub fn construct(config: FiboConfig) -> (r: FiboChip)
        ensures
            r.config() == config,
    {
        FiboChip { config }
    }

    /// Allocates the three advice columns and the selector, enables
    /// equality on the three columns and on `instance`, and registers one
    /// gate, `selector * (a + b - c)` over the current row.
    pub fn configure(meta: &mut ConstraintSystem, instance: InstanceColumn) -> (r: FiboConfig)
        requires
            old(meta)@.advice_columns + 3 <= usize::MAX,
            old(meta)@.selectors < usize::MAX,
        ensures
            r.allocated_in(old(meta)@, instance),
            final(meta)@ == r.configured(old(meta)@),
    {
        let col_a = meta.advice_column();
        let col_b = meta.advice_column();
        let col_c = meta.advice_column();
        let selector = meta.selector();

        meta.enable_equality(Column::Advice(col_a));
        meta.enable_equality(Column::Advice(col_b));
        meta.enable_equality(Column::Advice(col_c));
        meta.enable_equality(Column::Instance(instance));

        let s = Expression::selector(selector);
        let a = Expression::advice(col_a, Rotation::cur());
        let b = Expression::advice(col_b, Rotation::cur());
        let c = Expression::advice(col_c, Rotation::cur());
        let polys = vec![s.times(a.plus(b).minus(c))];
        let config = FiboConfig { advice: [col_a, col_b, col_c], selector, instance };
        proof {
            assert(polys@ =~= config.gate().polys);
        }
        meta.create_gate("add", polys);
        config
    }

    /// Lays out the first row in a region of its own: enables the selector,
    /// assigns `a` and `b`, and gives `c` their sum.
    pub fn assign_first_row(&self, layouter: &mut Layouter, a: Value, b: Value) -> (r: Result<
        (AssignedCell, AssignedCell, AssignedCell),
        Error,
    >)
        requires
            old(layouter)@.wf(),
        ensures
            final(layouter)@.wf(),
            match r {
                Ok((a_cell, b_cell, c_cell)) => {
                    &&& self.config().first_row_error(old(layouter)@, a@, b@) is None
                    &&& final(layouter)@ == self.config().first_row(old(layouter)@, a@, b@)
                    &&& a_cell.cell == Table::advice_cell(self.config().col_a(), old(layouter)@.next_row as int)
                    &&& a_cell.value == a
                    &&& window_of(b_cell, c_cell) == self.config().first_window(old(layouter)@, a@, b@)
                },
                Err(e) => self.config().first_row_error(old(layouter)@, a@, b@) == Some(e),
            },
            self.config().fits(old(layouter)@.shape) ==> match r {
                Ok(_) => old(layouter)@.next_row < old(layouter)@.rows,
                Err(e) => e == Error::NotEnoughRowsAvailable && old(layouter)@.next_row == old(layouter)@.rows,
            },
    {
        proof {
            if self.config.fits(layouter@.shape) {
                lemma_first_row_owed(self.config, layouter@, a@, b@);
            }
        }
        let region = layouter.assign_region("first row");
        layouter.enable_selector(&region, self.config.selector, 0)?;
        let a_cell = layouter.assign_advice(&region, self.config.advice[0], 0, a)?;
        let b_cell = layouter.assign_advice(&region, self.config.advice[1], 0, b)?;
        let c_val = a.add(&b);
        let c_cell = layouter.assign_advice(&region, self.config.advice[2], 0, c_val)?;
        Ok((a_cell, b_cell, c_cell))
    }

    /// Lays out one more row in a region of its own: enables the selector,
    /// copies `pre_b` and `pre_c`, the last two cells of the chain, into `a`
    /// and `b`, and gives `c` their sum.
    pub fn assign_row(&self, layouter: &mut Layouter, pre_b: &AssignedCell, pre_c: &AssignedCell) -> (r:
        Result<AssignedCell, Error>)
        requires
            old(layouter)@.wf(),
        ensures
            final(layouter)@.wf(),
            match r {
                Ok(c_cell) => {
                    &&& self.config().next_row_error(old(layouter)@, window_of(*pre_b, *pre_c)) is None
                    &&& final(layouter)@ == self.config().next_row(old(layouter)@, window_of(*pre_b, *pre_c))
                    &&& window_of(*pre_c, c_cell) == self.config().next_window(
                        old(layouter)@,
                        window_of(*pre_b, *pre_c),
                    )
                },
                Err(e) => self.config().next_row_error(old(layouter)@, window_of(*pre_b, *pre_c)) == Some(e),
            },
            self.config().fits(old(layouter)@.shape) && window_of(*pre_b, *pre_c).fits(old(layouter)@) ==> match r {
                Ok(_) => old(layouter)@.next_row < old(layouter)@.rows,
                Err(e) => e == Error::NotEnoughRowsAvailable && old(layouter)@.next_row == old(layouter)@.rows,
            },
    {
        proof {
            if self.config.fits(layouter@.shape) && window_of(*pre_b, *pre_c).fits(layouter@) {
                lemma_next_row_owed(self.config, layouter@, window_of(*pre_b, *pre_c));
            }
        }
        let region = layouter.assign_region("next row");
        layouter.enable_selector(&region, self.config.selector, 0)?;
        layouter.copy_advice(&region, pre_b, self.config.advice[0], 0)?;
        layouter.copy_advice(&region, pre_c, self.config.advice[1], 0)?;
        let c_val = pre_b.value().add(&pre_c.value());
        let c_cell = layouter.assign_advice(&region, self.config.advice[2], 0, c_val)?;
        Ok(c_cell)
    }

    /// Binds `cell` to row `row` of the public inputs.
    pub fn expose_public(&self, layouter: &mut Layouter, cell: &AssignedCell, row: usize) -> (r: Result<
        (),
        Error,
    >)
        ensures
            match r {
                Ok(_) => {
                    &&& old(layouter)@.constrain_error(
                        cell.cell,
                        Table::instance_cell(self.config().instance, row as int),
                    ) is None
                    &&& final(layouter)@ == old(layouter)@.constrain(
                        cell.cell,
                        Table::instance_cell(self.config().instance, row as int),
                    )
                },
                Err(e) => {
                    &&& old(layouter)@.constrain_error(
                        cell.cell,
                        Table::instance_cell(self.config().instance, row as int),
                    ) == Some(e)
                    &&& final(layouter)@ == old(layouter)@
                },
            },
    {
        layouter.constrain_instance(cell.cell(), self.config.instance, row)
    }
}

/// The circuit: a chain of `terms` terms of the recurrence seeded with the
/// witnesses `a` and `b`, whose last term is bound to row 2 of the public
/// inputs. A chain has at least three terms: fewer are laid out as three.
#[derive(Clone, Copy, Debug, PartialEq, Eq)]
pub struct MyCircuit {
    pub a: Value,
    pub b: Value,
    pub terms: usize,
}

/// The columns and the selector that configuring an empty constraint system allocates.
pub open spec fn fresh_config() -> FiboConfig {
    FiboConfig {
        advice: [AdviceColumn(0), AdviceColumn(1), AdviceColumn(2)],
        selector: Selector(0),
        instance: InstanceColumn(0),
    }
}

/// The shape of the circuit: one instance column, three advice columns,
/// one selector and the one gate.
pub open spec fn fresh_shape() -> Shape {
    fresh_config().configured(Shape { instance_columns: 1, ..empty_shape() })
}

impl MyCircuit {
    /// The same circuit with its witnesses unknown, as when only its shape matters.
    pub fn without_witnesses(&self) -> (r: MyCircuit)
        ensures
            r == (MyCircuit { a: Value::Unknown, b: Value::Unknown, terms: self.terms }),
    {
        MyCircuit { a: Value::unknown(), b: Value::unknown(), terms: self.terms }
    }

    /// Allocates the instance column and configures the chip with it.
    pub fn configure(meta: &mut ConstraintSystem) -> (r: FiboConfig)
        requires
            old(meta)@.advice_columns + 3 <= usize::MAX,
            old(meta)@.selectors < usize::MAX,
            old(meta)@.instance_columns < usize::MAX,
        ensures
            r.allocated_in(old(meta)@, InstanceColumn(old(meta)@.instance_columns as usize)),
            final(meta)@ == r.configured(
                Shape { instance_columns: old(meta)@.instance_columns + 1, ..old(meta)@ },
            ),
    {
        let instance = meta.instance_column();
        FiboChip::configure(meta, instance)
    }

    /// Lays the chain out row by row and binds its last cell to row 2 of
    /// the public inputs.
    pub fn synthesize(&self, config: FiboConfig, layouter: &mut Layouter) -> (r: Result<(), Error>)
        requires
            old(layouter)@.wf(),
        ensures
            final(layouter)@.wf(),
            match r {
                Ok(_) => {
                    &&& config.synthesis_error(old(layouter)@, self.a@, self.b@, self.terms as nat) is None
                    &&& final(layouter)@ == config.synthesis(old(layouter)@, self.a@, self.b@, self.terms as nat)
                },
                Err(e) => config.synthesis_error(old(layouter)@, self.a@, self.b@, self.terms as nat) == Some(e),
            },
            config.fits(old(layouter)@.shape) ==> match r {
                Ok(_) => old(layouter)@.next_row + rows_after_first(self.terms as nat) + 1 <= old(layouter)@.rows
                    && 2 < old(layouter)@.rows,
                Err(e) => e == Error::NotEnoughRowsAvailable && !(old(layouter)@.next_row + rows_after_first(
                    self.terms as nat,
                ) + 1 <= old(layouter)@.rows && 2 < old(layouter)@.rows),
            },
    {
        proof {
            if config.fits(layouter@.shape) {
                lemma_synthesis_owed(config, layouter@, self.a@, self.b@, self.terms as nat);
            }
        }
        let chip = FiboChip::construct(config);
        let ghost t1 = config.first_row(layouter@, self.a@, self.b@);
        let ghost w1 = config.first_window(layouter@, self.a@, self.b@);
        let ghost k = rows_after_first(self.terms as nat);

        let (_, mut pre_b, mut pre_c) = chip.assign_first_row(layouter, self.a, self.b)?;

        let mut i: usize = 3;
        while i < self.terms
            invariant
                3 <= i,
                chip.config() == config,
                config.fits(old(layouter)@.shape) ==> config.synthesis_error(
                    old(layouter)@,
                    self.a@,
                    self.b@,
                    self.terms as nat,
                ) == want_of_rows(
                    old(layouter)@.next_row + rows_after_first(self.terms as nat) + 1 <= old(layouter)@.rows && 2
                        < old(layouter)@.rows,
                ),
                t1 == config.first_row(old(layouter)@, self.a@, self.b@),
                w1 == config.first_window(old(layouter)@, self.a@, self.b@),
                k == rows_after_first(self.terms as nat),
                config.first_row_error(old(layouter)@, self.a@, self.b@) is None,
                layouter@.wf(),
                config.chain(t1, w1, k) == config.chain(
                    layouter@,
                    window_of(pre_b, pre_c),
                    rows_left(self.terms as nat, i as nat),
                ),
                config.chain_window(t1, w1, k) == config.chain_window(
                    layouter@,
                    window_of(pre_b, pre_c),
                    rows_left(self.terms as nat, i as nat),
                ),
                config.chain_error(t1, w1, k) == config.chain_error(
                    layouter@,
                    window_of(pre_b, pre_c),
                    rows_left(self.terms as nat, i as nat),
                ),
            decreases self.terms - i,
        {
            let c_cell = chip.assign_row(layouter, &pre_b, &pre_c)?;
            pre_b = pre_c;
            pre_c = c_cell;
            i += 1;
        }

        chip.expose_public(layouter, &pre_c, 2)
    }
}

/// How many rows a chain of `terms` terms takes: one for the first three
/// terms and one for each term after them.
pub open spec fn chain_rows(terms: nat) -> nat {
    rows_after_first(terms) + 1
}

/// The cell from which the `a` of row `row`, which is not the first, is
/// copied: the older cell of the window, which is the `b` of the first row
/// for row 1 and the `c` of two rows above after that.
pub open spec fn source_of_a(row: int) -> Cell {
    if row == 1 {
        Table::advice_cell(AdviceColumn(1), 0)
    } else {
        Table::advice_cell(AdviceColumn(2), row - 2)
    }
}

/// The copy constraint with index `i` of a chain. Row `i / 2 + 1` has two:
/// the even one ties its `a` to the older cell of the window, the odd one
/// its `b` to the `c` of the row above.
pub open spec fn chain_copy(i: int) -> CopyConstraint {
    let row = i / 2 + 1;
    if i % 2 == 0 {
        CopyConstraint { left: Table::advice_cell(AdviceColumn(0), row), right: source_of_a(row) }
    } else {
        CopyConstraint {
            left: Table::advice_cell(AdviceColumn(1), row),
            right: Table::advice_cell(AdviceColumn(2), row - 1),
        }
    }
}

/// The table of a circuit in which the first `n` rows of the chain, at
/// least one, have been laid out: row `r` holds the terms `r`, `r + 1` and
/// `r + 2` and has the selector enabled, and each row but the first is tied
/// to the rows above by two copy constraints.
pub open spec fn rows_layout(a: Option<nat>, b: Option<nat>, n: nat, rows: nat, instance: Seq<Seq<nat>>) -> Table {
    Table {
        shape: fresh_shape(),
        rows,
        instance,
        advice: Seq::new(
            3,
            |c: int|
                Seq::new(
                    rows,
                    |r: int|
                        if r < n {
                            Some(value_term(a, b, (r + c) as nat))
                        } else {
                            None
                        },
                ),
        ),
        selectors: Seq::new(1, |s: int| Seq::new(rows, |r: int| r < n)),
        copies: Seq::new((2 * (n - 1)) as nat, |i: int| chain_copy(i)),
        regions: Seq::new(
            n,
            |i: int|
                RegionSpec {
                    name: if i == 0 {
                        "first row"@
                    } else {
                        "next row"@
                    },
                    start: i as nat,
                },
        ),
        next_row: n,
    }
}

/// The window after the first `n` rows of the chain.
pub open spec fn rows_window(a: Option<nat>, b: Option<nat>, n: nat) -> Window {
    Window {
        b: source_of_a(n as int),
        c: Table::advice_cell(AdviceColumn(2), n - 1),
        vb: value_term(a, b, n),
        vc: value_term(a, b, n + 1),
    }
}

/// The table of the whole circuit: the rows of a chain of `terms` terms,
/// and the last `c` bound to row 2 of the public inputs.
pub open spec fn layout(a: Option<nat>, b: Option<nat>, terms: nat, rows: nat, instance: Seq<Seq<nat>>) -> Table {
    rows_layout(a, b, chain_rows(terms), rows, instance).constrain(
        Table::advice_cell(AdviceColumn(2), chain_rows(terms) - 1),
        Table::instance_cell(InstanceColumn(0), 2),
    )
}

/// Laying out the first row of an empty table gives the one-row layout,
/// and fails only for want of a row.
pub proof fn lemma_first_row(a: Option<nat>, b: Option<nat>, rows: nat, instance: Seq<Seq<nat>>)
    requires
        rows <= usize::MAX,
    ensures
        rows == 0 ==> fresh_config().first_row_error(Table::initial(fresh_shape(), rows, instance), a, b) == Some(
            Error::NotEnoughRowsAvailable,
        ),
        rows > 0 ==> {
            let t = Table::initial(fresh_shape(), rows, instance);
            &&& fresh_config().first_row_error(t, a, b) is None
            &&& fresh_config().first_row(t, a, b) == rows_layout(a, b, 1, rows, instance)
            &&& fresh_config().first_window(t, a, b) == rows_window(a, b, 1)
        },
{
    let t = Table::initial(fresh_shape(), rows, instance);
    let cfg = fresh_config();
    if rows > 0 {
        let t1 = cfg.first_row(t, a, b);
        let l = rows_layout(a, b, 1, rows, instance);
        assert(cfg.col_a() == AdviceColumn(0));
        assert(cfg.col_b() == AdviceColumn(1));
        assert(cfg.col_c() == AdviceColumn(2));
        assert(value_term(a, b, 2) == value_add(a, b)) by {
            reveal_with_fuel(value_term, 3);
        }
        assert(t1.advice[0] =~= l.advice[0]);
        assert(t1.advice[1] =~= l.advice[1]);
        assert(t1.advice[2] =~= l.advice[2]);
        assert(t1.advice =~~= l.advice);
        assert(t1.selectors =~~= l.selectors);
        assert(t1.copies =~= l.copies);
        assert(t1.regions =~= l.regions);
    }
}

/// Laying out one more row below the first `n` gives the layout of
/// `n + 1` rows, and fails only for want of a row.
pub proof fn lemma_next_row(a: Option<nat>, b: Option<nat>, n: nat, rows: nat, instance: Seq<Seq<nat>>)
    requires
        1 <= n <= rows <= usize::MAX,
    ensures
        n == rows ==> fresh_config().next_row_error(rows_layout(a, b, n, rows, instance), rows_window(a, b, n))
            == Some(Error::NotEnoughRowsAvailable),
        n < rows ==> {
            let t = rows_layout(a, b, n, rows, instance);
            let w = rows_window(a, b, n);
            &&& fresh_config().next_row_error(t, w) is None
            &&& fresh_config().next_row(t, w) == rows_layout(a, b, n + 1, rows, instance)
            &&& fresh_config().next_window(t, w) == rows_window(a, b, n + 1)
        },
{
    let t = rows_layout(a, b, n, rows, instance);
    let w = rows_window(a, b, n);
    let cfg = fresh_config();
    assert(cfg.col_a() == AdviceColumn(0));
    assert(cfg.col_b() == AdviceColumn(1));
    assert(cfg.col_c() == AdviceColumn(2));
    if n < rows {
        let t1 = cfg.next_row(t, w);
        let l = rows_layout(a, b, n + 1, rows, instance);
        assert(t1.advice[0] =~= l.advice[0]);
        assert(t1.advice[1] =~= l.advice[1]);
        assert(t1.advice[2] =~= l.advice[2]);
        assert(t1.advice =~~= l.advice);
        assert(t1.selectors =~~= l.selectors);
        assert(t1.copies =~= l.copies);
        assert(t1.regions =~= l.regions);
    }
}

/// Laying out `k` more rows below the first `n` gives the layout of
/// `n + k` rows, and fails only for want of rows.
pub proof fn lemma_chain(a: Option<nat>, b: Option<nat>, n: nat, k: nat, rows: nat, instance: Seq<Seq<nat>>)
    requires
        1 <= n <= rows <= usize::MAX,
    ensures
        n + k > rows ==> fresh_config().chain_error(
            rows_layout(a, b, n, rows, instance),
            rows_window(a, b, n),
            k,
        ) == Some(Error::NotEnoughRowsAvailable),
        n + k <= rows ==> {
            let t = rows_layout(a, b, n, rows, instance);
            let w = rows_window(a, b, n);
            &&& fresh_config().chain_error(t, w, k) is None
            &&& fresh_config().chain(t, w, k) == rows_layout(a, b, n + k, rows, instance)
            &&& fresh_config().chain_window(t, w, k) == rows_window(a, b, n + k)
        },
    decreases k,
{
    if k > 0 {
        lemma_next_row(a, b, n, rows, instance);
        if n < rows {
            lemma_chain(a, b, n + 1, (k - 1) as nat, rows, instance);
        }
    }
}

/// How many rows the table must have for the circuit to be laid out: one
/// for each row of the chain, and at least three, since the last cell is
/// bound to row 2 of the public inputs.
pub open spec fn rows_needed(terms: nat) -> nat {
    if chain_rows(terms) > 3 {
        chain_rows(terms)
    } else {
        3
    }
}

/// Laying the whole circuit out in an empty table gives `layout`, and
/// fails, for want of rows, exactly when the table has fewer than
/// `rows_needed` rows.
pub proof fn lemma_synthesis(a: Option<nat>, b: Option<nat>, terms: nat, rows: nat, instance: Seq<Seq<nat>>)
    requires
        rows <= usize::MAX,
    ensures
        rows < rows_needed(terms) ==> fresh_config().synthesis_error(
            Table::initial(fresh_shape(), rows, instance),
            a,
            b,
            terms,
        ) == Some(Error::NotEnoughRowsAvailable),
        rows >= rows_needed(terms) ==> {
            let t = Table::initial(fresh_shape(), rows, instance);
            &&& fresh_config().synthesis_error(t, a, b, terms) is None
            &&& fresh_config().synthesis(t, a, b, terms) == layout(a, b, terms, rows, instance)
        },
{
    lemma_first_row(a, b, rows, instance);
    if rows > 0 {
        lemma_chain(a, b, 1, rows_after_first(terms), rows, instance);
    }
}

/// Every number in the layout of the whole circuit lies in the field.
pub proof fn lemma_layout_values(a: Option<nat>, b: Option<nat>, terms: nat, rows: nat, instance: Seq<Seq<nat>>)
    requires
        a is Some ==> a.unwrap() < modulus(),
        b is Some ==> b.unwrap() < modulus(),
    ensures
        layout(a, b, terms, rows, instance).values_in_field(),
{
    let t = layout(a, b, terms, rows, instance);
    assert forall|c: int, r: int| 0 <= c < t.advice.len() && 0 <= r < t.advice[c].len() implies match #[trigger] t.advice[c][r] {
        Some(Some(v)) => v < modulus(),
        _ => true,
    } by {
        lemma_value_term_bound(a, b, (r + c) as nat);
    }
}

/// What the cells of the laid-out circuit hold: row `r` of the chain holds
/// the terms `r`, `r + 1` and `r + 2`. In particular the last `c`, the
/// cell bound to the public inputs, holds the last term of the chain.
pub proof fn lemma_layout_cells(a: nat, b: nat, terms: nat, rows: nat, instance: Seq<Seq<nat>>, c: int, r: int)
    requires
        rows_needed(terms) <= rows,
        0 <= c < 3,
        0 <= r < chain_rows(terms),
    ensures
        layout(Some(a), Some(b), terms, rows, instance).advice_value(c, r) == Some(term(a, b, (r + c) as nat)),
{
    lemma_value_term_known(a, b, (r + c) as nat);
}

/// The laid-out circuit is satisfied exactly when both seeds are known and
/// row 2 of the public inputs holds the last term of the chain: the right
/// output passes, and any other value there fails.
pub proof fn lemma_layout_satisfied(a: Option<nat>, b: Option<nat>, terms: nat, rows: nat, instance: Seq<Seq<nat>>)
    requires
        a is Some ==> a.unwrap() < modulus(),
        b is Some ==> b.unwrap() < modulus(),
        rows_needed(terms) <= rows <= usize::MAX,
    ensures
        layout(a, b, terms, rows, instance).satisfied() <==> {
            &&& a is Some
            &&& b is Some
            &&& layout(a, b, terms, rows, instance).instance_value(0, 2) == term(
                a.unwrap(),
                b.unwrap(),
                chain_rows(terms) + 1,
            )
        },
{
    let t = layout(a, b, terms, rows, instance);
    let n = chain_rows(terms);
    let cfg = fresh_config();
    let qa = Query { column: AdviceColumn(0), rotation: Rotation(0) };
    let qb = Query { column: AdviceColumn(1), rotation: Rotation(0) };
    let qc = Query { column: AdviceColumn(2), rotation: Rotation(0) };
    lemma_layout_values(a, b, terms, rows, instance);
    assert(cfg.col_a() == AdviceColumn(0));
    assert(cfg.col_b() == AdviceColumn(1));
    assert(cfg.col_c() == AdviceColumn(2));
    assert(t.shape.gates.len() == 1);
    assert(t.shape.gates[0] == cfg.gate());
    assert(t.shape.gates[0].polys.len() == 1);
    let poly = t.shape.gates[0].polys[0];
    assert(poly == add_poly(Selector(0), qa, qb, qc));
    if a is Some && b is Some {
        let x = a.unwrap();
        let y = b.unwrap();
        assert forall|i: nat| value_term(a, b, i) == Some(term(x, y, i)) by {
            lemma_value_term_known(x, y, i);
        }
        assert(t.gates_hold()) by {
            assert forall|gate: int, p: int, row: int|
                0 <= gate < t.shape.gates.len() && 0 <= p < t.shape.gates[gate].polys.len() && 0 <= row
                    < t.rows implies #[trigger] t.poly_holds(gate, p, row) by {
                if row < n {
                    lemma_add_poly_enabled(t, Selector(0), qa, qb, qc, row);
                    assert(qa.value(t, row) == Some(term(x, y, row as nat)));
                    assert(qb.value(t, row) == Some(term(x, y, (row + 1) as nat)));
                    assert(qc.value(t, row) == Some(term(x, y, (row + 2) as nat)));
                } else {
                    lemma_add_poly_disabled(t, Selector(0), qa, qb, qc, row);
                }
            }
        }
        let last = (2 * (n - 1)) as int;
        assert(t.copies.len() == last + 1);
        assert forall|i: int| 0 <= i < last implies t.copy_holds(#[trigger] t.copies[i]) by {
            let row = i / 2 + 1;
            assert(t.copies[i] == chain_copy(i));
            if i % 2 == 0 {
                assert(t.cell_value(chain_copy(i).left) == Some(term(x, y, row as nat)));
                assert(t.cell_value(chain_copy(i).right) == Some(term(x, y, row as nat)));
            } else {
                assert(t.cell_value(chain_copy(i).left) == Some(term(x, y, (row + 1) as nat)));
                assert(t.cell_value(chain_copy(i).right) == Some(term(x, y, (row + 1) as nat)));
            }
        }
        let bound = t.copies[last];
        assert(t.cell_value(bound.left) == Some(term(x, y, n + 1)));
        assert(t.cell_value(bound.right) == Some(t.instance_value(0, 2)));
        if t.instance_value(0, 2) == term(x, y, n + 1) {
            assert(t.copies_hold());
        } else {
            assert(!t.copy_holds(t.copies[last]));
        }
    } else {
        lemma_add_poly_enabled(t, Selector(0), qa, qb, qc, 0);
        assert(qa.value(t, 0) == a);
        assert(qb.value(t, 0) == b);
        assert(!t.poly_holds(0, 0, 0));
    }
}

/// Copy-constraint integrity in this layout: once one of the copies that
/// chain the rows takes its value from a cell that holds another value than
/// the cell it feeds, the circuit is not satisfied, although every row
/// still adds up and the public output is the right one.
pub proof fn lemma_layout_redirected(
    a: nat,
    b: nat,
    terms: nat,
    rows: nat,
    instance: Seq<Seq<nat>>,
    i: int,
    cell: Cell,
)
    requires
        rows_needed(terms) <= rows,
        0 <= i < 2 * (chain_rows(terms) - 1),
        layout(Some(a), Some(b), terms, rows, instance).cell_value(cell) != layout(
            Some(a),
            Some(b),
            terms,
            rows,
            instance,
        ).cell_value(chain_copy(i).left),
    ensures
        !layout(Some(a), Some(b), terms, rows, instance).redirect(i, cell).satisfied(),
{
    let t = layout(Some(a), Some(b), terms, rows, instance);
    assert(t.copies[i] == chain_copy(i));
    lemma_redirected_copy_fails(t, i, cell);
}

impl MyCircuit {
    /// Configures the circuit and lays it out in a table of `rows` rows
    /// with the given public inputs. Succeeds exactly when the table has
    /// the rows needed, and then the table is `layout`.
    pub fn run(&self, rows: usize, instance: Vec<Vec<FieldElement>>) -> (r: Result<Layouter, Error>)
        ensures
            match r {
                Ok(layouter) => {
                    &&& rows >= rows_needed(self.terms as nat)
                    &&& layouter@ == layout(
                        self.a@,
                        self.b@,
                        self.terms as nat,
                        rows as nat,
                        instance_view(instance@),
                    )
                    &&& layouter@.wf()
                },
                Err(e) => e == Error::NotEnoughRowsAvailable && rows < rows_needed(self.terms as nat),
            },
    {
        let mut cs = ConstraintSystem::new();
        let config = MyCircuit::configure(&mut cs);
        assert(config == fresh_config()) by {
            assert(config.advice =~= fresh_config().advice);
        }
        let mut layouter = Layouter::new(cs, rows, instance);
        proof {
            lemma_synthesis(self.a@, self.b@, self.terms as nat, rows as nat, instance_view(instance@));
        }
        self.synthesize(config, &mut layouter)?;
        Ok(layouter)
    }

    /// Lays the circuit out and checks it against the public inputs: the
    /// check passes exactly when both seeds are known and row 2 of the
    /// public inputs is the last term of the sequence seeded with them.
    pub fn check(&self, rows: usize, instance: Vec<Vec<FieldElement>>) -> (r: Result<bool, Error>)
        ensures
            match r {
                Ok(passed) => {
                    &&& rows >= rows_needed(self.terms as nat)
                    &&& passed == {
                        &&& self.a@ is Some
                        &&& self.b@ is Some
                        &&& public_input(instance_view(instance@), 0, 2) == term(
                            self.a@.unwrap(),
                            self.b@.unwrap(),
                            chain_rows(self.terms as nat) + 1,
                        )
                    }
                },
                Err(e) => e == Error::NotEnoughRowsAvailable && rows < rows_needed(self.terms as nat),
            },
    {
        let ghost public = instance_view(instance@);
        let layouter = self.run(rows, instance)?;
        proof {
            match self.a {
                Value::Known(v) => {
                    use_type_invariant(&v);
                },
                Value::Unknown => {},
            }
            match self.b {
                Value::Known(v) => {
                    use_type_invariant(&v);
                },
                Value::Unknown => {},
            }
            lemma_layout_satisfied(self.a@, self.b@, self.terms as nat, rows as nat, public);
        }
        Ok(layouter.is_satisfied())
    }
}

} // verus!
