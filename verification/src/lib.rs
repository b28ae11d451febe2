//! A small dense linear-algebra toolkit over exact scalars.
//!
//! The scalar type of every matrix and vector is `i64`, with two's-complement
//! wrapping semantics for addition, subtraction and multiplication; operations
//! that divide produce exact rational results (`Rat`).

#![verifier::loop_isolation(false)]

use vstd::prelude::*;

pub mod adjugate;
pub mod algebra;
pub mod cofactor;
pub mod error;
pub mod inverse;
pub mod logic;
pub mod matrix;
pub mod operations;
pub mod rational;
pub mod scalar;
pub mod util;
pub mod vector;

