//! Fibonacci-style recurrences arithmetized as PLONKish circuits over the
//! Pallas base field, with a verified model of the constraint system, the
//! witness table and its satisfiability.
//!
//! A circuit is configured into a [`plonk::ConstraintSystem`], laid out by a
//! [`layouter::Layouter`] and checked with [`layouter::Layouter::is_satisfied`].
//! What a layouter holds is a [`table::Table`], over which every contract is
//! stated. Two layouts of the same recurrence are provided: [`wide`], with
//! three cells per row and copy constraints between the rows, and
//! [`narrow`], with one cell per row and a gate that looks two rows ahead.
//! For both it is proved that the check passes exactly when the public
//! output is the last term of the sequence.
//!
//! Field arithmetic is done by `pasta_curves`, as re-exported by
//! `halo2_proofs`; [`field`] states what is relied on.

pub mod field;
pub mod gate;
pub mod layouter;
pub mod narrow;
pub mod plonk;
pub mod recurrence;
pub mod value;
pub mod wide;
pub mod table;
