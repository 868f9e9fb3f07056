//! The one gate of both layouts: `selector * (a + b - c)`, where `a`, `b`
//! and `c` are advice cells near the row at which it is evaluated.

use crate::field::{field_add, field_mul, field_neg, modulus};
use crate::plonk::{AdviceColumn, Expression, GateSpec, Rotation, Selector};
use crate::table::Table;
use vstd::prelude::*;

verus! {

/// An advice cell as a gate names it: its column and how far from the row
/// of evaluation it lies.
pub struct Query {
    pub column: AdviceColumn,
    pub rotation: Rotation,
}

impl Query {
    /// The polynomial that is the queried cell.
    pub open spec fn expression(self) -> Expression {
        Expression::Advice { column: self.column, rotation: self.rotation }
    }

    /// The number in the queried cell as seen from `row`, if it holds a known one.
    pub open spec fn value(self, t: Table, row: int) -> Option<nat> {
        t.advice_value(self.column.0 as int, row + self.rotation.0)
    }
}

/// The polynomial `selector * (a + b - c)`.
pub open spec fn add_poly(selector: Selector, a: Query, b: Query, c: Query) -> Expression {
    Expression::Product(
        Box::new(Expression::Selector(selector)),
        Box::new(
            Expression::Sum(
                Box::new(Expression::Sum(Box::new(a.expression()), Box::new(b.expression()))),
                Box::new(Expression::Negated(Box::new(c.expression()))),
            ),
        ),
    )
}

/// A gate named "add", whose one polynomial is `selector * (a + b - c)`.
pub open spec fn add_gate(selector: Selector, a: Query, b: Query, c: Query) -> GateSpec {
    GateSpec { name: "add"@, polys: seq![add_poly(selector, a, b, c)] }
}

/// In the field, `s - c` is zero exactly when `s` is `c`.
pub proof fn lemma_difference_zero(s: nat, c: nat)
    requires
        s < modulus(),
        c < modulus(),
    ensures
        field_add(s, field_neg(c)) == 0 <==> s == c,
{
    let p = modulus() as int;
    assert(c % modulus() == c);
    if c == 0 {
        assert((p - 0) % p == 0);
        assert(field_neg(c) == 0);
        assert((s + 0) % modulus() == s);
    } else {
        assert((p - c) % p == p - c);
        assert(field_neg(c) == p - c);
        if s == c {
            assert((s + (p - c)) % p == 0);
        } else if s < c {
            assert((s + (p - c)) % p == s + p - c);
        } else {
            assert((s + (p - c)) % p == s - c);
        }
    }
}

/// Selector locality: on a row where the selector is disabled this
/// polynomial vanishes, whatever the queried cells hold and whether or not
/// they hold anything.
pub proof fn lemma_add_poly_disabled(t: Table, selector: Selector, a: Query, b: Query, c: Query, row: int)
    requires
        !t.selector_enabled(selector.0 as int, row),
    ensures
        t.eval(add_poly(selector, a, b, c), row) == Some(0nat),
{
    reveal_with_fuel(Table::eval, 2);
    assert(field_mul(0, 0) == 0);
    assert(forall|y: nat| field_mul(0, y) == 0) by {
        assert forall|y: nat| field_mul(0, y) == 0 by {
            assert(0 * y == 0);
            assert(0nat % modulus() == 0);
        }
    }
}

/// On a row where the selector is enabled this polynomial vanishes
/// exactly when the three queried cells hold known numbers with
/// `a + b = c` in the field.
pub proof fn lemma_add_poly_enabled(t: Table, selector: Selector, a: Query, b: Query, c: Query, row: int)
    requires
        t.values_in_field(),
        t.selector_enabled(selector.0 as int, row),
    ensures
        t.eval(add_poly(selector, a, b, c), row) == Some(0nat) <==> {
            &&& a.value(t, row) is Some
            &&& b.value(t, row) is Some
            &&& c.value(t, row) is Some
            &&& field_add(a.value(t, row).unwrap(), b.value(t, row).unwrap()) == c.value(t, row).unwrap()
        },
{
    reveal_with_fuel(Table::eval, 5);
    let va = a.value(t, row);
    let vb = b.value(t, row);
    let vc = c.value(t, row);
    if va is Some && vb is Some && vc is Some {
        let s = field_add(va.unwrap(), vb.unwrap());
        let y = vc.unwrap();
        assert(y < modulus()) by {
            let col = c.column.0 as int;
            let r = row + c.rotation.0;
            assert(t.advice[col][r] == Some(Some(y)));
        }
        let x = field_add(s, field_neg(y));
        lemma_difference_zero(s, y);
        assert(field_mul(1, x) == x) by {
            assert(1 * x == x);
            assert(x % modulus() == x);
        }
        assert(t.eval(add_poly(selector, a, b, c), row) == Some(x));
    } else {
        assert(t.eval(add_poly(selector, a, b, c), row) is None);
    }
}

} // verus!
