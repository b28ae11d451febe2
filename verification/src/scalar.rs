//! Spec-level helpers for the scalar type of the toolkit.
//!
//! Every additive or multiplicative operation on matrix and vector entries
//! uses two's-complement wrapping arithmetic on `i64`; these spec functions
//! name the wrapped results that the contracts speak of.

use vstd::prelude::*;
use vstd::wrapping::i64_specs;

verus! {

/// The wrapped sum of two scalars.
pub open spec fn wadd(a: i64, b: i64) -> i64 {
    i64_specs::wrapping_add(a, b)
}

/// The wrapped difference of two scalars.
pub open spec fn wsub(a: i64, b: i64) -> i64 {
    i64_specs::wrapping_sub(a, b)
}

/// The wrapped product of two scalars.
pub open spec fn wmul(a: i64, b: i64) -> i64 {
    i64_specs::wrapping_mul(a, b)
}

/// A 64-bit two's-complement wrap of a mathematical integer.
pub open spec fn wrap_i64(x: int) -> i64 {
    i64_specs::signed_crop(x)
}

/// Whether a mathematical integer is representable as an `i64`.
pub open spec fn in_i64(x: int) -> bool {
    i64::MIN <= x <= i64::MAX
}

} // verus!
