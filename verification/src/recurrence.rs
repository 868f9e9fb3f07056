//! The recurrence that the circuits compute: each term is the sum, in the
//! field, of the two before it.

use crate::field::{field_add, lemma_field_add_small, modulus};
use crate::value::value_add;
use vstd::prelude::*;

verus! {

/// The term with index `i`, counted from 0, of the sequence that starts
/// with `a` and `b`.
pub open spec fn term(a: nat, b: nat, i: nat) -> nat
    decreases i,
{
    if i == 0 {
        a
    } else if i == 1 {
        b
    } else {
        field_add(term(a, b, (i - 2) as nat), term(a, b, (i - 1) as nat))
    }
}

/// The same sequence over values that may be unknown: a term is unknown as
/// soon as one of the two before it is.
pub open spec fn value_term(a: Option<nat>, b: Option<nat>, i: nat) -> Option<nat>
    decreases i,
{
    if i == 0 {
        a
    } else if i == 1 {
        b
    } else {
        value_add(value_term(a, b, (i - 2) as nat), value_term(a, b, (i - 1) as nat))
    }
}

/// Every term of a sequence whose seeds lie in the field lies in the field.
pub proof fn lemma_term_bound(a: nat, b: nat, i: nat)
    requires
        a < modulus(),
        b < modulus(),
    ensures
        term(a, b, i) < modulus(),
    decreases i,
{
    if i >= 2 {
        lemma_term_bound(a, b, (i - 2) as nat);
        lemma_term_bound(a, b, (i - 1) as nat);
    }
}

/// With known seeds every term is known, and is the term of the plain sequence.
pub proof fn lemma_value_term_known(a: nat, b: nat, i: nat)
    ensures
        value_term(Some(a), Some(b), i) == Some(term(a, b, i)),
    decreases i,
{
    if i >= 2 {
        lemma_value_term_known(a, b, (i - 2) as nat);
        lemma_value_term_known(a, b, (i - 1) as nat);
    }
}

/// Every known term of a sequence whose seeds, where known, lie in the
/// field lies in the field.
pub proof fn lemma_value_term_bound(a: Option<nat>, b: Option<nat>, i: nat)
    requires
        a is Some ==> a.unwrap() < modulus(),
        b is Some ==> b.unwrap() < modulus(),
    ensures
        value_term(a, b, i) is Some ==> value_term(a, b, i).unwrap() < modulus(),
{
}

/// The first ten terms of the sequence seeded with 1 and 1 are the
/// Fibonacci numbers up to 55.
pub proof fn lemma_fibonacci_terms()
    ensures
        term(1, 1, 0) == 1,
        term(1, 1, 1) == 1,
        term(1, 1, 2) == 2,
        term(1, 1, 3) == 3,
        term(1, 1, 4) == 5,
        term(1, 1, 5) == 8,
        term(1, 1, 6) == 13,
        term(1, 1, 7) == 21,
        term(1, 1, 8) == 34,
        term(1, 1, 9) == 55,
{
    reveal_with_fuel(term, 2);
    lemma_field_add_small(1, 1);
    assert(term(1, 1, 2) == 2);
    lemma_field_add_small(1, 2);
    assert(term(1, 1, 3) == 3);
    lemma_field_add_small(2, 3);
    assert(term(1, 1, 4) == 5);
    lemma_field_add_small(3, 5);
    assert(term(1, 1, 5) == 8);
    lemma_field_add_small(5, 8);
    assert(term(1, 1, 6) == 13);
    lemma_field_add_small(8, 13);
    assert(term(1, 1, 7) == 21);
    lemma_field_add_small(13, 21);
    assert(term(1, 1, 8) == 34);
    lemma_field_add_small(21, 34);
    assert(term(1, 1, 9) == 55);
}

} // verus!
