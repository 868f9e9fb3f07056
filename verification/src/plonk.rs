//! The shape of a circuit: its columns, its selectors and its gates, fixed
//! before any witness exists.

use vstd::prelude::*;

verus! {

/// A column of private witness cells.
#[derive(Clone, Copy, Debug, PartialEq, Eq, Structural)]
pub struct AdviceColumn(pub usize);

/// A column of public input cells.
#[derive(Clone, Copy, Debug, PartialEq, Eq, Structural)]
pub struct InstanceColumn(pub usize);

/// A column of either kind.
#[derive(Clone, Copy, Debug, PartialEq, Eq, Structural)]
pub enum Column {
    Advice(AdviceColumn),
    Instance(InstanceColumn),
}

/// A per-row switch that turns the gates querying it on.
#[derive(Clone, Copy, Debug, PartialEq, Eq, Structural)]
pub struct Selector(pub usize);

/// A row offset relative to the row at which a gate is evaluated.
#[derive(Clone, Copy, Debug, PartialEq, Eq, Structural)]
pub struct Rotation(pub i32);

impl Rotation {
    /// The row itself.
    pub fn cur() -> (r: Rotation)
        ensures
            r == Rotation(0),
    {
        Rotation(0)
    }

    /// The row below.
    pub fn next() -> (r: Rotation)
        ensures
            r == Rotation(1),
    {
        Rotation(1)
    }

    /// The row above.
    pub fn prev() -> (r: Rotation)
        ensures
            r.0 == -1,
    {
        Rotation(-1)
    }
}

/// What can go wrong while a circuit is laid out.
#[derive(Clone, Copy, Debug, PartialEq, Eq, Structural)]
pub enum Error {
    /// A row beyond the last usable row was addressed.
    NotEnoughRowsAvailable,
    /// A column or selector that the circuit does not have was addressed.
    BoundsFailure,
    /// A cell that already holds a value was assigned again.
    AlreadyAssigned,
    /// A copy constraint names a column for which equality was not enabled.
    ColumnNotInPermutation,
}

/// A polynomial over the cells around a row.
#[derive(Debug)]
pub enum Expression {
    /// 1 where the selector is enabled, 0 elsewhere.
    Selector(Selector),
    /// The advice cell in `column`, `rotation` rows away.
    Advice { column: AdviceColumn, rotation: Rotation },
    /// The additive inverse of a polynomial.
    Negated(Box<Expression>),
    /// The sum of two polynomials.
    Sum(Box<Expression>, Box<Expression>),
    /// The product of two polynomials.
    Product(Box<Expression>, Box<Expression>),
}

impl Expression {
    /// The query of a selector at the current row.
    pub fn selector(selector: Selector) -> (r: Expression)
        ensures
            r == Expression::Selector(selector),
    {
        Expression::Selector(selector)
    }

    /// The query of an advice cell.
    pub fn advice(column: AdviceColumn, rotation: Rotation) -> (r: Expression)
        ensures
            r == (Expression::Advice { column, rotation }),
    {
        Expression::Advice { column, rotation }
    }

    /// `-self`.
    pub fn negated(self) -> (r: Expression)
        ensures
            r == Expression::Negated(Box::new(self)),
    {
        Expression::Negated(Box::new(self))
    }

    /// `self + rhs`.
    pub fn plus(self, rhs: Expression) -> (r: Expression)
        ensures
            r == Expression::Sum(Box::new(self), Box::new(rhs)),
    {
        Expression::Sum(Box::new(self), Box::new(rhs))
    }

    /// `self - rhs`, held as the sum of `self` and `-rhs`.
    pub fn minus(self, rhs: Expression) -> (r: Expression)
        ensures
            r == Expression::Sum(Box::new(self), Box::new(Expression::Negated(Box::new(rhs)))),
    {
        Expression::Sum(Box::new(self), Box::new(Expression::Negated(Box::new(rhs))))
    }

    /// `self * rhs`.
    pub fn times(self, rhs: Expression) -> (r: Expression)
        ensures
            r == Expression::Product(Box::new(self), Box::new(rhs)),
    {
        Expression::Product(Box::new(self), Box::new(rhs))
    }
}

/// A named list of polynomials, each of which must vanish on every row.
#[derive(Debug)]
pub struct Gate {
    pub name: &'static str,
    pub polys: Vec<Expression>,
}

/// A gate as contracts see it.
pub struct GateSpec {
    pub name: Seq<char>,
    pub polys: Seq<Expression>,
}

impl View for Gate {
    type V = GateSpec;

    open spec fn view(&self) -> GateSpec {
        GateSpec { name: self.name@, polys: self.polys@ }
    }
}

/// A circuit's shape as contracts see it.
pub struct Shape {
    /// How many advice columns there are.
    pub advice_columns: nat,
    /// How many instance columns there are.
    pub instance_columns: nat,
    /// How many selectors there are.
    pub selectors: nat,
    /// The columns whose cells may take part in copy constraints.
    pub equality: Set<Column>,
    /// The gates, in the order of their creation.
    pub gates: Seq<GateSpec>,
}

/// The shape with nothing in it.
pub open spec fn empty_shape() -> Shape {
    Shape {
        advice_columns: 0,
        instance_columns: 0,
        selectors: 0,
        equality: Set::empty(),
        gates: Seq::empty(),
    }
}

/// The description of a circuit's shape, built up during configuration.
#[derive(Debug)]
pub struct ConstraintSystem {
    advice_columns: usize,
    instance_columns: usize,
    selectors: usize,
    equality: Vec<Column>,
    gates: Vec<Gate>,
}

impl View for ConstraintSystem {
    type V = Shape;

    closed spec fn view(&self) -> Shape {
        Shape {
            advice_columns: self.advice_columns as nat,
            instance_columns: self.instance_columns as nat,
            selectors: self.selectors as nat,
            equality: self.equality@.to_set(),
            gates: Seq::new(self.gates@.len(), |i: int| self.gates@[i]@),
        }
    }
}

impl ConstraintSystem {
    /// A constraint system with no columns, selectors or gates.
    pub fn new() -> (r: ConstraintSystem)
        ensures
            r@ == empty_shape(),
    {
        let r = ConstraintSystem {
            advice_columns: 0,
            instance_columns: 0,
            selectors: 0,
            equality: Vec::new(),
            gates: Vec::new(),
        };
        assert(r@.equality =~= Set::empty());
        assert(r@.gates =~= Seq::empty());
        r
    }

    /// Allocates a new advice column.
    pub fn advice_column(&mut self) -> (r: AdviceColumn)
        requires
            old(self)@.advice_columns < usize::MAX,
        ensures
            r.0 == old(self)@.advice_columns,
            final(self)@ == (Shape { advice_columns: old(self)@.advice_columns + 1, ..old(self)@ }),
    {
        let index = self.advice_columns;
        self.advice_columns = index + 1;
        AdviceColumn(index)
    }

    /// Allocates a new instance column.
    pub fn instance_column(&mut self) -> (r: InstanceColumn)
        requires
            old(self)@.instance_columns < usize::MAX,
        ensures
            r.0 == old(self)@.instance_columns,
            final(self)@ == (Shape { instance_columns: old(self)@.instance_columns + 1, ..old(self)@ }),
    {
        let index = self.instance_columns;
        self.instance_columns = index + 1;
        InstanceColumn(index)
    }

    /// Allocates a new selector.
    pub fn selector(&mut self) -> (r: Selector)
        requires
            old(self)@.selectors < usize::MAX,
        ensures
            r.0 == old(self)@.selectors,
            final(self)@ == (Shape { selectors: old(self)@.selectors + 1, ..old(self)@ }),
    {
        let index = self.selectors;
        self.selectors = index + 1;
        Selector(index)
    }

    /// Lets the cells of `column` take part in copy constraints.
    pub fn enable_equality(&mut self, column: Column)
        ensures
            final(self)@ == (Shape { equality: old(self)@.equality.insert(column), ..old(self)@ }),
    {
        self.equality.push(column);
        assert(self@.equality =~= old(self)@.equality.insert(column)) by {
            assert forall|c: Column| self.equality@.contains(c) <==> (old(self).equality@.contains(c) || c == column) by {
                if self.equality@.contains(c) {
                    let i = choose|i: int| 0 <= i < self.equality@.len() && self.equality@[i] == c;
                    if i < old(self).equality@.len() {
                        assert(old(self).equality@[i] == c);
                    }
                }
                if old(self).equality@.contains(c) {
                    let i = choose|i: int| 0 <= i < old(self).equality@.len() && old(self).equality@[i] == c;
                    assert(self.equality@[i] == c);
                }
                if c == column {
                    assert(self.equality@[old(self).equality@.len() as int] == c);
                }
            }
        }
        assert(self@.gates =~= old(self)@.gates);
    }

    /// Registers a gate: every polynomial in `polys` is to vanish on every row.
    pub fn create_gate(&mut self, name: &'static str, polys: Vec<Expression>)
        ensures
            final(self)@ == (Shape {
                gates: old(self)@.gates.push(GateSpec { name: name@, polys: polys@ }),
                ..old(self)@
            }),
    {
        self.gates.push(Gate { name, polys });
        assert(self@.gates =~= old(self)@.gates.push(GateSpec { name: name@, polys: polys@ }));
    }

    /// How many advice columns have been allocated.
    pub fn num_advice_columns(&self) -> (r: usize)
        ensures
            r == self@.advice_columns,
    {
        self.advice_columns
    }

    /// How many instance columns have been allocated.
    pub fn num_instance_columns(&self) -> (r: usize)
        ensures
            r == self@.instance_columns,
    {
        self.instance_columns
    }

    /// How many selectors have been allocated.
    pub fn num_selectors(&self) -> (r: usize)
        ensures
            r == self@.selectors,
    {
        self.selectors
    }

    /// Whether the cells of `column` may take part in copy constraints.
    pub fn is_equality_enabled(&self, column: Column) -> (r: bool)
        ensures
            r == self@.equality.contains(column),
    {
        let mut i: usize = 0;
        while i < self.equality.len()
            invariant
                i <= self.equality@.len(),
                forall|j: int| 0 <= j < i ==> self.equality@[j] != column,
            decreases self.equality@.len() - i,
        {
            if self.equality[i] == column {
                return true;
            }
            i += 1;
        }
        false
    }

    /// The columns for which equality was enabled, one entry for each call.
    pub fn equality_columns(&self) -> (r: &Vec<Column>)
        ensures
            r@.to_set() == self@.equality,
    {
        &self.equality
    }

    /// The gates, in the order of their creation.
    pub fn gates(&self) -> (r: &Vec<Gate>)
        ensures
            r@.len() == self@.gates.len(),
            forall|i: int| 0 <= i < r@.len() ==> r@[i]@ == self@.gates[i],
    {
        &self.gates
    }
}

} // verus!
