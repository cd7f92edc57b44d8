//! Modular polynomial arithmetic over configurable coefficient rings.
//!
//! Polynomials are sequences of coefficients, the constant term first. The
//! coefficients are machine integers, taken over the integers or modulo a
//! number `n`; products can be reduced by a polynomial `irr`, which gives the
//! ring of polynomials modulo `n` and `irr`.
//!
//! * [`integer`], [`unsigned`], [`signed`], [`ops`] and [`order`]: the
//!   coefficient types and what their operations compute.
//! * [`inverse`]: inverses modulo `n`.
//! * [`ring`] and [`algebra`]: polynomials as sequences of integers, and the
//!   laws of their sums and products.
//! * [`kernel`], [`division`] and [`inversion`]: arithmetic on slices of
//!   coefficients.
//! * [`plain`]: the operators of sequences, for polynomials over the integers.
//! * [`poly`], [`convert`] and [`fixed`]: polynomials that carry their ring.
//! * [`laws`]: what holds of the arithmetic as a whole.
//! * [`sequence`], [`bytes`], [`array`], [`words`] and [`util`]: sequences,
//!   byte strings and their conversions.
//! * [`randomness`]: the random numbers that the library draws.

pub mod algebra;
pub mod array;
pub mod bytes;
pub mod convert;
pub mod division;
pub mod fixed;
pub mod integer;
pub mod inverse;
pub mod inversion;
pub mod kernel;
pub mod laws;
pub mod ops;
pub mod order;
pub mod plain;
pub mod poly;
pub mod randomness;
pub mod ring;
pub mod sequence;
pub mod signed;
pub mod unsigned;
pub mod util;
pub mod words;
