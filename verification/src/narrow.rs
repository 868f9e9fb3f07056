//! The narrow layout: one advice column, one term per row. Its gate reads
//! the current row and the two below it; rows 0 and 1 are seeded from the
//! public inputs.

use crate::field::{modulus, FieldElement};
use crate::gate::{add_gate, add_poly, lemma_add_poly_disabled, lemma_add_poly_enabled, Query};
use crate::layouter::{instance_view, AssignedCell, Layouter};
use crate::plonk::{
    empty_shape, AdviceColumn, Column, ConstraintSystem, Error, Expression, GateSpec, InstanceColumn, Rotation,
    Selector, Shape,
};
use crate::recurrence::{lemma_term_bound, lemma_value_term_known, term, value_term};
use crate::table::{or_error, public_input, want_of_rows, Cell, CopyConstraint, RegionSpec, Table};
use vstd::prelude::*;

verus! {

/// The column and the selector that the chip works with.
#[derive(Clone, Copy, Debug, PartialEq, Eq)]
pub struct FiboConfig {
    pub advice: AdviceColumn,
    pub selector: Selector,
    pub instance: InstanceColumn,
}

/// How many rows a chain of `terms` terms takes: one for each term, and
/// two at least, since both seeds are always laid out.
pub open spec fn chain_rows(terms: nat) -> nat {
    if terms > 2 {
        terms
    } else {
        2
    }
}

impl FiboConfig {
    /// This layout's gate: `a` is the current row, `b` the next, `c`
    /// the one after.
    pub open spec fn gate(self) -> GateSpec {
        add_gate(
            self.selector,
            Query { column: self.advice, rotation: Rotation(0) },
            Query { column: self.advice, rotation: Rotation(1) },
            Query { column: self.advice, rotation: Rotation(2) },
        )
    }

    /// Whether these are the column and the selector that configuring a
    /// circuit of shape `shape` allocates, with `instance` for its public inputs.
    pub open spec fn allocated_in(self, shape: Shape, instance: InstanceColumn) -> bool {
        &&& self.advice.0 == shape.advice_columns
        &&& self.selector.0 == shape.selectors
        &&& self.instance == instance
    }

    /// Whether a circuit of shape `shape` has what the chip works with: the
    /// advice column and the instance column, both with equality enabled,
    /// and the selector.
    pub open spec fn fits(self, shape: Shape) -> bool {
        &&& self.advice.0 < shape.advice_columns
        &&& self.selector.0 < shape.selectors
        &&& self.instance.0 < shape.instance_columns
        &&& shape.equality.contains(Column::Advice(self.advice))
        &&& shape.equality.contains(Column::Instance(self.instance))
    }

    /// The shape after configuration: one more advice column and one more
    /// selector, equality enabled on the column and on the instance column,
    /// and one gate added.
    pub open spec fn configured(self, shape: Shape) -> Shape {
        Shape {
            advice_columns: shape.advice_columns + 1,
            selectors: shape.selectors + 1,
            equality: shape.equality.insert(Column::Advice(self.advice)).insert(Column::Instance(self.instance)),
            gates: shape.gates.push(self.gate()),
            ..shape
        }
    }

    /// The first seed: row 0 of the public inputs.
    pub open spec fn seed_a(self, t: Table) -> Option<nat> {
        Some(t.instance_value(self.instance.0 as int, 0))
    }

    /// The second seed: row 1 of the public inputs.
    pub open spec fn seed_b(self, t: Table) -> Option<nat> {
        Some(t.instance_value(self.instance.0 as int, 1))
    }

    /// The table after the region was opened, the selector enabled on rows
    /// 0 and 1 as far as the chain has a row two below them, and both
    /// seeds copied in from the public inputs.
    pub open spec fn seeded(self, t: Table, terms: nat) -> Table {
        let start = t.next_row as int;
        t.open_region("entire fibonacci table"@).enable_where(terms > 2, self.selector.0 as int, start).enable_where(
            terms > 3,
            self.selector.0 as int,
            start + 1,
        ).copy(Table::instance_cell(self.instance, 0), self.advice, start, self.seed_a(t)).copy(
            Table::instance_cell(self.instance, 1),
            self.advice,
            start + 1,
            self.seed_b(t),
        )
    }

    /// Why the chain cannot be seeded, if it cannot: the error of the first
    /// step that fails.
    pub open spec fn seeded_error(self, t: Table, terms: nat) -> Option<Error> {
        let start = t.next_row as int;
        let t0 = t.open_region("entire fibonacci table"@);
        let t1 = t0.enable_where(terms > 2, self.selector.0 as int, start);
        let t2 = t1.enable_where(terms > 3, self.selector.0 as int, start + 1);
        let t3 = t2.copy(Table::instance_cell(self.instance, 0), self.advice, start, self.seed_a(t));
        or_error(
            t0.enable_where_error(terms > 2, self.selector.0 as int, start),
            or_error(
                t1.enable_where_error(terms > 3, self.selector.0 as int, start + 1),
                or_error(
                    t2.instance_copy_error(self.instance, 0, self.advice, start),
                    t3.instance_copy_error(self.instance, 1, self.advice, start + 1),
                ),
            ),
        )
    }

    /// The table after the term with index `i` was laid out at the row
    /// `i` of the region that starts at `start`: the selector enabled there
    /// if the chain has a row two below, and the cell given `value`.
    pub open spec fn step(self, t: Table, start: int, i: nat, terms: nat, value: Option<nat>) -> Table {
        t.enable_where(i + 2 < terms, self.selector.0 as int, start + i).assign(
            self.advice.0 as int,
            start + i,
            value,
        )
    }

    /// Why the term with index `i` cannot be laid out, if it cannot.
    pub open spec fn step_error(self, t: Table, start: int, i: nat, terms: nat) -> Option<Error> {
        or_error(
            t.enable_where_error(i + 2 < terms, self.selector.0 as int, start + i),
            t.enable_where(i + 2 < terms, self.selector.0 as int, start + i).assign_error(
                self.advice.0 as int,
                start + i,
            ),
        )
    }

    /// The table after the terms from index `i` on were laid out, each the
    /// term of the sequence seeded with `a` and `b`.
    pub open spec fn fill(self, t: Table, start: int, i: nat, terms: nat, a: Option<nat>, b: Option<nat>) -> Table
        decreases terms - i,
    {
        if i >= terms {
            t
        } else {
            self.fill(self.step(t, start, i, terms, value_term(a, b, i)), start, i + 1, terms, a, b)
        }
    }

    /// Why the terms from index `i` on cannot be laid out, if they cannot:
    /// the error of the first that fails.
    pub open spec fn fill_error(
        self,
        t: Table,
        start: int,
        i: nat,
        terms: nat,
        a: Option<nat>,
        b: Option<nat>,
    ) -> Option<Error>
        decreases terms - i,
    {
        if i >= terms {
            None
        } else {
            or_error(
                self.step_error(t, start, i, terms),
                self.fill_error(self.step(t, start, i, terms, value_term(a, b, i)), start, i + 1, terms, a, b),
            )
        }
    }

    /// The table after a chain of `terms` terms was laid out in one region.
    pub open spec fn assignment(self, t: Table, terms: nat) -> Table {
        self.fill(self.seeded(t, terms), t.next_row as int, 2, terms, self.seed_a(t), self.seed_b(t))
    }

    /// Why the chain cannot be laid out, if it cannot.
    pub open spec fn assignment_error(self, t: Table, terms: nat) -> Option<Error> {
        or_error(
            self.seeded_error(t, terms),
            self.fill_error(self.seeded(t, terms), t.next_row as int, 2, terms, self.seed_a(t), self.seed_b(t)),
        )
    }

    /// The cell that holds the last term of a chain laid out from `t` on.
    pub open spec fn last_cell(self, t: Table, terms: nat) -> Cell {
        Table::advice_cell(self.advice, t.next_row + chain_rows(terms) - 1)
    }

    /// The table after the chain was laid out and its last cell bound to
    /// row 2 of the public inputs.
    pub open spec fn synthesis(self, t: Table, terms: nat) -> Table {
        self.assignment(t, terms).constrain(self.last_cell(t, terms), Table::instance_cell(self.instance, 2))
    }

    /// Why the chain cannot be laid out and bound, if it cannot.
    pub open spec fn synthesis_error(self, t: Table, terms: nat) -> Option<Error> {
        or_error(
            self.assignment_error(t, terms),
            self.assignment(t, terms).constrain_error(
                self.last_cell(t, terms),
                Table::instance_cell(self.instance, 2),
            ),
        )
    }
}

/// Where the configuration fits the circuit, the chain is seeded whenever
/// two rows are free, and takes exactly those rows.
pub proof fn lemma_seeded_owed(cfg: FiboConfig, t: Table, terms: nat)
    requires
        t.well_shaped(),
        cfg.fits(t.shape),
    ensures
        cfg.seeded_error(t, terms) == want_of_rows(t.next_row + 2 <= t.rows),
        t.next_row + 2 <= t.rows ==> {
            let u = cfg.seeded(t, terms);
            &&& u.well_shaped()
            &&& u.shape == t.shape
            &&& u.rows == t.rows
            &&& u.next_row == t.next_row + 2
        },
{
}

/// Where the configuration fits the circuit, the terms from index `i` on
/// are laid out below the ones before them whenever there is a free row
/// for each, and take exactly those rows.
pub proof fn lemma_fill_owed(cfg: FiboConfig, t: Table, start: int, i: nat, terms: nat, a: Option<nat>, b: Option<nat>)
    requires
        t.well_shaped(),
        cfg.fits(t.shape),
        0 <= start,
        t.next_row == start + i,
    ensures
        cfg.fill_error(t, start, i, terms, a, b) == want_of_rows(i >= terms || start + terms <= t.rows),
        i >= terms || start + terms <= t.rows ==> {
            let u = cfg.fill(t, start, i, terms, a, b);
            &&& u.well_shaped()
            &&& u.shape == t.shape
            &&& u.rows == t.rows
            &&& u.next_row == start + if i >= terms {
                i
            } else {
                terms
            }
        },
    decreases terms - i,
{
    if i < terms {
        if t.next_row < t.rows {
            lemma_fill_owed(cfg, cfg.step(t, start, i, terms, value_term(a, b, i)), start, i + 1, terms, a, b);
        }
    }
}

/// Where the configuration fits the circuit, the whole chain is laid out
/// whenever the table has a free row for each of its rows, and bound
/// whenever the table also has a row 2 for the public output.
pub proof fn lemma_synthesis_owed(cfg: FiboConfig, t: Table, terms: nat)
    requires
        t.well_shaped(),
        cfg.fits(t.shape),
    ensures
        cfg.assignment_error(t, terms) == want_of_rows(t.next_row + chain_rows(terms) <= t.rows),
        cfg.synthesis_error(t, terms) == want_of_rows(t.next_row + chain_rows(terms) <= t.rows && 2 < t.rows),
{
    lemma_seeded_owed(cfg, t, terms);
    if t.next_row + 2 <= t.rows {
        lemma_fill_owed(cfg, cfg.seeded(t, terms), t.next_row as int, 2, terms, cfg.seed_a(t), cfg.seed_b(t));
    }
}

/// The chip that lays the recurrence out in one column.
#[derive(Clone, Copy, Debug)]
pub struct FiboChip {
    config: FiboConfig,
}

impl FiboChip {
    /// The configuration the chip was built with.
    pub closed spec fn config(self) -> FiboConfig {
        self.config
    }

    /// The chip over a configuration.
    pub fn construct(config: FiboConfig) -> (r: FiboChip)
        ensures
            r.config() == config,
    {
        FiboChip { config }
    }

    /// Allocates the advice column and the selector, enables equality on
    /// the column and on `instance`, and registers one gate,
    /// `selector * (a + b - c)` over the current row and the two below it.
    pub fn configure(meta: &mut ConstraintSystem, instance: InstanceColumn) -> (r: FiboConfig)
        requires
            old(meta)@.advice_columns < usize::MAX,
            old(meta)@.selectors < usize::MAX,
        ensures
            r.allocated_in(old(meta)@, instance),
            final(meta)@ == r.configured(old(meta)@),
    {
        let advice = meta.advice_column();
        let selector = meta.selector();

        meta.enable_equality(Column::Advice(advice));
        meta.enable_equality(Column::Instance(instance));

        let s = Expression::selector(selector);
        let a = Expression::advice(advice, Rotation::cur());
        let b = Expression::advice(advice, Rotation::next());
        let c = Expression::advice(advice, Rotation(2));
        let polys = vec![s.times(a.plus(b).minus(c))];
        let config = FiboConfig { advice, selector, instance };
        proof {
            assert(polys@ =~= config.gate().polys);
        }
        meta.create_gate("add", polys);
        config
    }

    /// Lays a chain of `rows` terms out in one region: the seeds are copied
    /// in from rows 0 and 1 of the public inputs, every later row is given
    /// the sum of the two above it, and the selector is enabled on every
    /// row that has two rows of the chain below it. Hands back the last cell.
    pub fn assign(&self, layouter: &mut Layouter, rows: usize) -> (r: Result<AssignedCell, Error>)
        requires
            old(layouter)@.wf(),
        ensures
            final(layouter)@.wf(),
            match r {
                Ok(last) => {
                    &&& self.config().assignment_error(old(layouter)@, rows as nat) is None
                    &&& final(layouter)@ == self.config().assignment(old(layouter)@, rows as nat)
                    &&& last.cell == self.config().last_cell(old(layouter)@, rows as nat)
                    &&& last.value@ == value_term(
                        self.config().seed_a(old(layouter)@),
                        self.config().seed_b(old(layouter)@),
                        (chain_rows(rows as nat) - 1) as nat,
                    )
                },
                Err(e) => self.config().assignment_error(old(layouter)@, rows as nat) == Some(e),
            },
            self.config().fits(old(layouter)@.shape) ==> match r {
                Ok(_) => old(layouter)@.next_row + chain_rows(rows as nat) <= old(layouter)@.rows,
                Err(e) => e == Error::NotEnoughRowsAvailable && old(layouter)@.next_row + chain_rows(rows as nat)
                    > old(layouter)@.rows,
            },
    {
        proof {
            if self.config.fits(layouter@.shape) {
                lemma_synthesis_owed(self.config, layouter@, rows as nat);
            }
        }
        let ghost cfg = self.config;
        let ghost t = layouter@;
        let ghost va = cfg.seed_a(t);
        let ghost vb = cfg.seed_b(t);
        let ghost start = t.next_row as int;
        let region = layouter.assign_region("entire fibonacci table");
        if rows > 2 {
            layouter.enable_selector(&region, self.config.selector, 0)?;
        }
        if rows > 3 {
            layouter.enable_selector(&region, self.config.selector, 1)?;
        }
        let mut a_cell = layouter.assign_advice_from_instance(
            &region,
            self.config.instance,
            0,
            self.config.advice,
            0,
        )?;
        let mut b_cell = layouter.assign_advice_from_instance(
            &region,
            self.config.instance,
            1,
            self.config.advice,
            1,
        )?;

        let mut n: usize = 2;
        while n < rows
            invariant
                2 <= n,
                n <= rows || n == 2,
                cfg == self.config,
                t == old(layouter)@,
                va == cfg.seed_a(t),
                vb == cfg.seed_b(t),
                start == t.next_row,
                region.start == start,
                layouter@.is_open(region),
                layouter@.wf(),
                cfg.seeded_error(t, rows as nat) is None,
                cfg.fits(t.shape) ==> cfg.assignment_error(t, rows as nat) == want_of_rows(
                    t.next_row + chain_rows(rows as nat) <= t.rows,
                ),
                a_cell.value@ == value_term(va, vb, (n - 2) as nat),
                b_cell.value@ == value_term(va, vb, (n - 1) as nat),
                b_cell.cell == Table::advice_cell(cfg.advice, start + n - 1),
                cfg.assignment(t, rows as nat) == cfg.fill(layouter@, start, n as nat, rows as nat, va, vb),
                cfg.assignment_error(t, rows as nat) == cfg.fill_error(
                    layouter@,
                    start,
                    n as nat,
                    rows as nat,
                    va,
                    vb,
                ),
            decreases rows - n,
        {
            if n < rows - 2 {
                layouter.enable_selector(&region, self.config.selector, n)?;
            }
            let c_val = a_cell.value().add(&b_cell.value());
            let c_cell = layouter.assign_advice(&region, self.config.advice, n, c_val)?;
            a_cell = b_cell;
            b_cell = c_cell;
            n += 1;
        }

        Ok(b_cell)
    }

    /// Binds `cell` to row `row` of the public inputs.
    pub fn expose_public(&self, layouter: &mut Layouter, cell: &AssignedCell, row: usize) -> (r: Result<
        (),
        Error,
    >)
        ensures
            match r {
                Ok(_) => {
                    &&& old(layouter)@.constrain_error(
                        cell.cell,
                        Table::instance_cell(self.config().instance, row as int),
                    ) is None
                    &&& final(layouter)@ == old(layouter)@.constrain(
                        cell.cell,
                        Table::instance_cell(self.config().instance, row as int),
                    )
                },
                Err(e) => {
                    &&& old(layouter)@.constrain_error(
                        cell.cell,
                        Table::instance_cell(self.config().instance, row as int),
                    ) == Some(e)
                    &&& final(layouter)@ == old(layouter)@
                },
            },
    {
        layouter.constrain_instance(cell.cell(), self.config.instance, row)
    }
}

/// The circuit: a chain of `terms` terms of the recurrence seeded with rows
/// 0 and 1 of the public inputs, whose last term is bound to row 2 of the
/// public inputs. It has no witness of its own. Both seeds are always laid
/// out: a chain of fewer than two terms is laid out as one of two.
#[derive(Clone, Copy, Debug, PartialEq, Eq)]
pub struct MyCircuit {
    pub terms: usize,
}

/// The column and the selector that configuring an empty constraint system allocates.
pub open spec fn fresh_config() -> FiboConfig {
    FiboConfig { advice: AdviceColumn(0), selector: Selector(0), instance: InstanceColumn(0) }
}

/// The shape of the circuit: one instance column, one advice column, one
/// selector and the one gate.
pub open spec fn fresh_shape() -> Shape {
    fresh_config().configured(Shape { instance_columns: 1, ..empty_shape() })
}

/// How many rows the table must have for the circuit to be laid out: one
/// for each term, and at least three, since the last cell is bound to row 2
/// of the public inputs.
pub open spec fn rows_needed(terms: nat) -> nat {
    if terms > 3 {
        terms
    } else {
        3
    }
}

/// The copy constraint that seeds row `i` from row `i` of the public inputs.
pub open spec fn seed_copy(i: int) -> CopyConstraint {
    CopyConstraint {
        left: Table::advice_cell(AdviceColumn(0), i),
        right: Table::instance_cell(InstanceColumn(0), i),
    }
}

/// The table of a circuit in which the first `m` terms, at least the two
/// seeds, of a chain of `terms` terms have been laid out: row `r` holds the
/// term `r` of the sequence seeded with rows 0 and 1 of the public inputs,
/// the seeds are tied to those rows, and the selector is enabled where two
/// more rows of the chain follow.
pub open spec fn rows_layout(terms: nat, m: nat, rows: nat, instance: Seq<Seq<nat>>) -> Table {
    Table {
        shape: fresh_shape(),
        rows,
        instance,
        advice: Seq::new(
            1,
            |c: int|
                Seq::new(
                    rows,
                    |r: int|
                        if r < m {
                            Some(
                                value_term(
                                    Some(public_input(instance, 0, 0)),
                                    Some(public_input(instance, 0, 1)),
                                    r as nat,
                                ),
                            )
                        } else {
                            None
                        },
                ),
        ),
        selectors: Seq::new(1, |s: int| Seq::new(rows, |r: int| r < m && r + 2 < terms)),
        copies: seq![seed_copy(0), seed_copy(1)],
        regions: seq![RegionSpec { name: "entire fibonacci table"@, start: 0 }],
        next_row: m,
    }
}

/// The table of the whole circuit: the rows of a chain of `terms` terms,
/// and the last of them bound to row 2 of the public inputs.
pub open spec fn layout(terms: nat, rows: nat, instance: Seq<Seq<nat>>) -> Table {
    rows_layout(terms, chain_rows(terms), rows, instance).constrain(
        Table::advice_cell(AdviceColumn(0), chain_rows(terms) - 1),
        Table::instance_cell(InstanceColumn(0), 2),
    )
}

/// Seeding an empty table gives the layout of the two seeds, and fails
/// only for want of rows.
pub proof fn lemma_seeded(terms: nat, rows: nat, instance: Seq<Seq<nat>>)
    requires
        rows <= usize::MAX,
    ensures
        rows < 2 ==> fresh_config().seeded_error(Table::initial(fresh_shape(), rows, instance), terms) == Some(
            Error::NotEnoughRowsAvailable,
        ),
        rows >= 2 ==> {
            let t = Table::initial(fresh_shape(), rows, instance);
            &&& fresh_config().seeded_error(t, terms) is None
            &&& fresh_config().seeded(t, terms) == rows_layout(terms, 2, rows, instance)
        },
{
    let t = Table::initial(fresh_shape(), rows, instance);
    let cfg = fresh_config();
    if rows >= 2 {
        let t1 = cfg.seeded(t, terms);
        let l = rows_layout(terms, 2, rows, instance);
        assert(t1.advice[0] =~= l.advice[0]);
        assert(t1.advice =~~= l.advice);
        assert(t1.selectors[0] =~= l.selectors[0]);
        assert(t1.selectors =~~= l.selectors);
        assert(t1.copies =~= l.copies);
        assert(t1.regions =~= l.regions);
    }
}

/// Laying out the terms from index `m` on below the first `m` gives the
/// layout of all of them, and fails only for want of rows.
pub proof fn lemma_fill(terms: nat, m: nat, rows: nat, instance: Seq<Seq<nat>>)
    requires
        2 <= m <= rows <= usize::MAX,
    ensures
        terms > rows ==> fresh_config().fill_error(
            rows_layout(terms, m, rows, instance),
            0,
            m,
            terms,
            Some(public_input(instance, 0, 0)),
            Some(public_input(instance, 0, 1)),
        ) == Some(Error::NotEnoughRowsAvailable),
        terms <= rows ==> {
            let t = rows_layout(terms, m, rows, instance);
            let a = Some(public_input(instance, 0, 0));
            let b = Some(public_input(instance, 0, 1));
            &&& fresh_config().fill_error(t, 0, m, terms, a, b) is None
            &&& fresh_config().fill(t, 0, m, terms, a, b) == rows_layout(
                terms,
                if m > terms {
                    m
                } else {
                    terms
                },
                rows,
                instance,
            )
        },
    decreases terms - m,
{
    let cfg = fresh_config();
    let t = rows_layout(terms, m, rows, instance);
    let a = Some(public_input(instance, 0, 0));
    let b = Some(public_input(instance, 0, 1));
    if m < terms {
        if m < rows {
            let t1 = cfg.step(t, 0, m, terms, value_term(a, b, m));
            let l = rows_layout(terms, m + 1, rows, instance);
            assert(t1.advice[0] =~= l.advice[0]);
            assert(t1.advice =~~= l.advice);
            assert(t1.selectors[0] =~= l.selectors[0]);
            assert(t1.selectors =~~= l.selectors);
            lemma_fill(terms, m + 1, rows, instance);
        }
    }
}

/// Laying the whole circuit out in an empty table gives `layout`, and
/// fails, for want of rows, exactly when the table has fewer than
/// `rows_needed` rows.
pub proof fn lemma_synthesis(terms: nat, rows: nat, instance: Seq<Seq<nat>>)
    requires
        rows <= usize::MAX,
    ensures
        rows < rows_needed(terms) ==> fresh_config().synthesis_error(
            Table::initial(fresh_shape(), rows, instance),
            terms,
        ) == Some(Error::NotEnoughRowsAvailable),
        rows >= rows_needed(terms) ==> {
            let t = Table::initial(fresh_shape(), rows, instance);
            &&& fresh_config().synthesis_error(t, terms) is None
            &&& fresh_config().synthesis(t, terms) == layout(terms, rows, instance)
        },
{
    lemma_seeded(terms, rows, instance);
    if rows >= 2 {
        lemma_fill(terms, 2, rows, instance);
    }
}

/// Every number in the layout of the whole circuit lies in the field.
pub proof fn lemma_layout_values(terms: nat, rows: nat, instance: Seq<Seq<nat>>)
    requires
        public_input(instance, 0, 0) < modulus(),
        public_input(instance, 0, 1) < modulus(),
    ensures
        layout(terms, rows, instance).values_in_field(),
{
    let t = layout(terms, rows, instance);
    let a = public_input(instance, 0, 0);
    let b = public_input(instance, 0, 1);
    assert forall|c: int, r: int| 0 <= c < t.advice.len() && 0 <= r < t.advice[c].len() implies match #[trigger] t.advice[c][r] {
        Some(Some(v)) => v < modulus(),
        _ => true,
    } by {
        lemma_value_term_known(a, b, r as nat);
        lemma_term_bound(a, b, r as nat);
    }
}

/// Instance-seed binding: whatever the public inputs are, row `r` of the
/// chain holds the term `r` of the sequence seeded with their rows 0 and
/// 1, so the whole sequence, the last cell among it, follows the seeds.
pub proof fn lemma_layout_cells(terms: nat, rows: nat, instance: Seq<Seq<nat>>, r: int)
    requires
        rows_needed(terms) <= rows,
        0 <= r < chain_rows(terms),
    ensures
        layout(terms, rows, instance).advice_value(0, r) == Some(
            term(public_input(instance, 0, 0), public_input(instance, 0, 1), r as nat),
        ),
{
    lemma_value_term_known(public_input(instance, 0, 0), public_input(instance, 0, 1), r as nat);
}

/// The laid-out circuit is satisfied exactly when row 2 of the public
/// inputs holds the last term of the sequence seeded with rows 0 and 1:
/// the right output passes, any other value there fails, and with other
/// seeds the output that passes is the one that follows from them.
pub proof fn lemma_layout_satisfied(terms: nat, rows: nat, instance: Seq<Seq<nat>>)
    requires
        public_input(instance, 0, 0) < modulus(),
        public_input(instance, 0, 1) < modulus(),
        rows_needed(terms) <= rows <= usize::MAX,
    ensures
        layout(terms, rows, instance).satisfied() <==> public_input(instance, 0, 2) == term(
            public_input(instance, 0, 0),
            public_input(instance, 0, 1),
            (chain_rows(terms) - 1) as nat,
        ),
{
    let t = layout(terms, rows, instance);
    let m = chain_rows(terms);
    let x = public_input(instance, 0, 0);
    let y = public_input(instance, 0, 1);
    let cfg = fresh_config();
    let qa = Query { column: AdviceColumn(0), rotation: Rotation(0) };
    let qb = Query { column: AdviceColumn(0), rotation: Rotation(1) };
    let qc = Query { column: AdviceColumn(0), rotation: Rotation(2) };
    lemma_layout_values(terms, rows, instance);
    assert(t.shape.gates.len() == 1);
    assert(t.shape.gates[0] == cfg.gate());
    assert(t.shape.gates[0].polys.len() == 1);
    assert(t.shape.gates[0].polys[0] == add_poly(Selector(0), qa, qb, qc));
    assert forall|i: nat| value_term(Some(x), Some(y), i) == Some(term(x, y, i)) by {
        lemma_value_term_known(x, y, i);
    }
    assert(t.gates_hold()) by {
        assert forall|gate: int, p: int, row: int|
            0 <= gate < t.shape.gates.len() && 0 <= p < t.shape.gates[gate].polys.len() && 0 <= row
                < t.rows implies #[trigger] t.poly_holds(gate, p, row) by {
            if row + 2 < terms {
                lemma_add_poly_enabled(t, Selector(0), qa, qb, qc, row);
                assert(qa.value(t, row) == Some(term(x, y, row as nat)));
                assert(qb.value(t, row) == Some(term(x, y, (row + 1) as nat)));
                assert(qc.value(t, row) == Some(term(x, y, (row + 2) as nat)));
            } else {
                lemma_add_poly_disabled(t, Selector(0), qa, qb, qc, row);
            }
        }
    }
    assert(t.copies.len() == 3);
    assert(t.copies[0] == seed_copy(0));
    assert(t.copies[1] == seed_copy(1));
    assert(t.cell_value(seed_copy(0).left) == Some(x));
    assert(t.cell_value(seed_copy(0).right) == Some(x));
    assert(t.cell_value(seed_copy(1).left) == Some(y));
    assert(t.cell_value(seed_copy(1).right) == Some(y));
    let bound = t.copies[2];
    assert(t.cell_value(bound.left) == Some(term(x, y, (m - 1) as nat)));
    assert(t.cell_value(bound.right) == Some(public_input(instance, 0, 2)));
    if public_input(instance, 0, 2) == term(x, y, (m - 1) as nat) {
        assert(t.copies_hold());
    } else {
        assert(!t.copy_holds(t.copies[2]));
    }
}

impl MyCircuit {
    /// The same circuit: it has no witnesses to leave out.
    pub fn without_witnesses(&self) -> (r: MyCircuit)
        ensures
            r == *self,
    {
        MyCircuit { terms: self.terms }
    }

    /// Allocates the instance column and configures the chip with it.
    pub fn configure(meta: &mut ConstraintSystem) -> (r: FiboConfig)
        requires
            old(meta)@.advice_columns < usize::MAX,
            old(meta)@.selectors < usize::MAX,
            old(meta)@.instance_columns < usize::MAX,
        ensures
            r.allocated_in(old(meta)@, InstanceColumn(old(meta)@.instance_columns as usize)),
            final(meta)@ == r.configured(
                Shape { instance_columns: old(meta)@.instance_columns + 1, ..old(meta)@ },
            ),
    {
        let instance = meta.instance_column();
        FiboChip::configure(meta, instance)
    }

    /// Lays the chain out in one region and binds its last cell to row 2
    /// of the public inputs.
    pub fn synthesize(&self, config: FiboConfig, layouter: &mut Layouter) -> (r: Result<(), Error>)
        requires
            old(layouter)@.wf(),
        ensures
            final(layouter)@.wf(),
            match r {
                Ok(_) => {
                    &&& config.synthesis_error(old(layouter)@, self.terms as nat) is None
                    &&& final(layouter)@ == config.synthesis(old(layouter)@, self.terms as nat)
                },
                Err(e) => config.synthesis_error(old(layouter)@, self.terms as nat) == Some(e),
            },
            config.fits(old(layouter)@.shape) ==> match r {
                Ok(_) => old(layouter)@.next_row + chain_rows(self.terms as nat) <= old(layouter)@.rows && 2
                    < old(layouter)@.rows,
                Err(e) => e == Error::NotEnoughRowsAvailable && !(old(layouter)@.next_row + chain_rows(
                    self.terms as nat,
                ) <= old(layouter)@.rows && 2 < old(layouter)@.rows),
            },
    {
        proof {
            if config.fits(layouter@.shape) {
                lemma_synthesis_owed(config, layouter@, self.terms as nat);
            }
        }
        let chip = FiboChip::construct(config);
        let out_cell = chip.assign(layouter, self.terms)?;
        chip.expose_public(layouter, &out_cell, 2)
    }

    /// Configures the circuit and lays it out in a table of `rows` rows
    /// with the given public inputs. Succeeds exactly when the table has
    /// the rows needed, and then the table is `layout`.
    pub fn run(&self, rows: usize, instance: Vec<Vec<FieldElement>>) -> (r: Result<Layouter, Error>)
        ensures
            match r {
                Ok(layouter) => {
                    &&& rows >= rows_needed(self.terms as nat)
                    &&& layouter@ == layout(self.terms as nat, rows as nat, instance_view(instance@))
                    &&& layouter@.wf()
                },
                Err(e) => e == Error::NotEnoughRowsAvailable && rows < rows_needed(self.terms as nat),
            },
    {
        let mut cs = ConstraintSystem::new();
        let config = MyCircuit::configure(&mut cs);
        let mut layouter = Layouter::new(cs, rows, instance);
        proof {
            lemma_synthesis(self.terms as nat, rows as nat, instance_view(instance@));
        }
        self.synthesize(config, &mut layouter)?;
        Ok(layouter)
    }

    /// Lays the circuit out and checks it against the public inputs: the
    /// check passes exactly when row 2 of the public inputs is the last
    /// term of the sequence seeded with rows 0 and 1.
    pub fn check(&self, rows: usize, instance: Vec<Vec<FieldElement>>) -> (r: Result<bool, Error>)
        ensures
            match r {
                Ok(passed) => {
                    &&& rows >= rows_needed(self.terms as nat)
                    &&& passed == (public_input(instance_view(instance@), 0, 2) == term(
                        public_input(instance_view(instance@), 0, 0),
                        public_input(instance_view(instance@), 0, 1),
                        (chain_rows(self.terms as nat) - 1) as nat,
                    ))
                },
                Err(e) => e == Error::NotEnoughRowsAvailable && rows < rows_needed(self.terms as nat),
            },
    {
        let ghost public = instance_view(instance@);
        let layouter = self.run(rows, instance)?;
        let seed_a = layouter.instance_value(InstanceColumn(0), 0);
        let seed_b = layouter.instance_value(InstanceColumn(0), 1);
        proof {
            use_type_invariant(&seed_a);
            use_type_invariant(&seed_b);
            lemma_layout_satisfied(self.terms as nat, rows as nat, public);
        }
        Ok(layouter.is_satisfied())
    }
}

} // verus!
