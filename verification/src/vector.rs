//! Elementwise arithmetic and reductions over vectors of scalars.

use vstd::prelude::*;
use crate::error::{BadTypeError, CustomErrors, EmptyVectorError, MismatchError};
use crate::rational::Rat;
use crate::scalar::{in_i64, wadd, wmul, wsub};

verus! {

/// The wrapped sum of a sequence of scalars, accumulated left to right.
pub open spec fn wsum(s: Seq<i64>) -> i64
    decreases s.len(),
{
    if s.len() == 0 {
        0i64
    } else {
        wadd(wsum(s.drop_last()), s.last())
    }
}

/// The wrapped sum of the squares of a sequence of scalars.
pub open spec fn wsumsq(s: Seq<i64>) -> i64
    decreases s.len(),
{
    if s.len() == 0 {
        0i64
    } else {
        wadd(wsumsq(s.drop_last()), wmul(s.last(), s.last()))
    }
}

/// The wrapped dot product of two equally long sequences of scalars.
pub open spec fn wdot(a: Seq<i64>, b: Seq<i64>) -> i64
    decreases a.len(),
{
    if a.len() == 0 || b.len() == 0 {
        0i64
    } else {
        wadd(wdot(a.drop_last(), b.drop_last()), wmul(a.last(), b.last()))
    }
}

/// Elementwise sum of two vectors; the operands must have equal lengths.
pub fn add_vec(vec_1: &Vec<i64>, vec_2: &Vec<i64>) -> (r: Result<Vec<i64>, CustomErrors>)
    ensures
        match r {
            Ok(v) => {
                &&& vec_1@.len() == vec_2@.len()
                &&& v@.len() == vec_1@.len()
                &&& forall|i: int| 0 <= i < v@.len() ==> v@[i] == wadd(vec_1@[i], vec_2@[i])
            },
            Err(e) => vec_1@.len() != vec_2@.len() && e == CustomErrors::Mismatch(MismatchError),
        },
{
    let l1 = vec_1.len();
    let l2 = vec_2.len();
    let mut vec_3: Vec<i64> = Vec::new();

    if l1 != l2 {
        return Err(CustomErrors::Mismatch(MismatchError));
    }

    for i in 0..l1
        invariant
            vec_3@.len() == i,
            forall|k: int| 0 <= k < i ==> vec_3@[k] == wadd(vec_1@[k], vec_2@[k]),
    {
        vec_3.push(vec_1[i].wrapping_add(vec_2[i]));
    }

    Ok(vec_3)
}

/// Elementwise difference of two vectors; the operands must have equal lengths.
pub fn sub_vec(vec_1: &Vec<i64>, vec_2: &Vec<i64>) -> (r: Result<Vec<i64>, CustomErrors>)
    ensures
        match r {
            Ok(v) => {
                &&& vec_1@.len() == vec_2@.len()
                &&& v@.len() == vec_1@.len()
                &&& forall|i: int| 0 <= i < v@.len() ==> v@[i] == wsub(vec_1@[i], vec_2@[i])
            },
            Err(e) => vec_1@.len() != vec_2@.len() && e == CustomErrors::Mismatch(MismatchError),
        },
{
    let l1 = vec_1.len();
    let l2 = vec_2.len();
    let mut vec_3: Vec<i64> = Vec::new();

    if l1 != l2 {
        return Err(CustomErrors::Mismatch(MismatchError));
    }

    for i in 0..l1
        invariant
            vec_3@.len() == i,
            forall|k: int| 0 <= k < i ==> vec_3@[k] == wsub(vec_1@[k], vec_2@[k]),
    {
        vec_3.push(vec_1[i].wrapping_sub(vec_2[i]));
    }

    Ok(vec_3)
}

/// Elementwise product of two vectors; the operands must have equal lengths.
pub fn multiply_vec(vec_1: &Vec<i64>, vec_2: &Vec<i64>) -> (r: Result<Vec<i64>, CustomErrors>)
    ensures
        match r {
            Ok(v) => {
                &&& vec_1@.len() == vec_2@.len()
                &&& v@.len() == vec_1@.len()
                &&& forall|i: int| 0 <= i < v@.len() ==> v@[i] == wmul(vec_1@[i], vec_2@[i])
            },
            Err(e) => vec_1@.len() != vec_2@.len() && e == CustomErrors::Mismatch(MismatchError),
        },
{
    if vec_1.len() != vec_2.len() {
        return Err(CustomErrors::Mismatch(MismatchError));
    }

    let mut new_vec: Vec<i64> = Vec::new();

    let l1 = vec_1.len();
    for i in 0..l1
        invariant
            new_vec@.len() == i,
            forall|k: int| 0 <= k < i ==> new_vec@[k] == wmul(vec_1@[k], vec_2@[k]),
    {
        new_vec.push(vec_1[i].wrapping_mul(vec_2[i]));
    }

    Ok(new_vec)
}

/// The sum of the elements of a nonempty vector.
pub fn sum(vec_1: &Vec<i64>) -> (r: Result<i64, CustomErrors>)
    ensures
        match r {
            Ok(s) => vec_1@.len() > 0 && s == wsum(vec_1@),
            Err(e) => vec_1@.len() == 0 && e == CustomErrors::EmptyVector(EmptyVectorError),
        },
{
    let l1 = vec_1.len();
    if l1 == 0 {
        return Err(CustomErrors::EmptyVector(EmptyVectorError));
    }

    let mut acc: i64 = 0;

    for i in 0..l1
        invariant
            acc == wsum(vec_1@.subrange(0, i as int)),
    {
        proof {
            assert(vec_1@.subrange(0, i + 1).drop_last() =~= vec_1@.subrange(0, i as int));
        }
        acc = acc.wrapping_add(vec_1[i]);
    }
    proof {
        assert(vec_1@.subrange(0, l1 as int) =~= vec_1@);
    }

    Ok(acc)
}

/// The sum of the squares of the elements of a nonempty vector.  (This is
/// the squared Euclidean norm; no square root is taken.)
pub fn magnitude(vec_1: &Vec<i64>) -> (r: Result<i64, CustomErrors>)
    ensures
        match r {
            Ok(s) => vec_1@.len() > 0 && s == wsumsq(vec_1@),
            Err(e) => vec_1@.len() == 0 && e == CustomErrors::EmptyVector(EmptyVectorError),
        },
{
    let l1 = vec_1.len();
    if l1 == 0 {
        return Err(CustomErrors::EmptyVector(EmptyVectorError));
    }

    let mut acc: i64 = 0;

    for i in 0..l1
        invariant
            acc == wsumsq(vec_1@.subrange(0, i as int)),
    {
        proof {
            assert(vec_1@.subrange(0, i + 1).drop_last() =~= vec_1@.subrange(0, i as int));
        }
        let sq = vec_1[i].wrapping_mul(vec_1[i]);
        acc = acc.wrapping_add(sq);
    }
    proof {
        assert(vec_1@.subrange(0, l1 as int) =~= vec_1@);
    }

    Ok(acc)
}

/// The dot product of two nonempty vectors of equal length.
pub fn dot_product(vec_1: &Vec<i64>, vec_2: &Vec<i64>) -> (r: Result<i64, CustomErrors>)
    ensures
        match r {
            Ok(s) => {
                &&& vec_1@.len() == vec_2@.len()
                &&& vec_1@.len() > 0
                &&& s == wdot(vec_1@, vec_2@)
            },
            Err(e) => {
                if vec_1@.len() != vec_2@.len() {
                    e == CustomErrors::Mismatch(MismatchError)
                } else {
                    vec_1@.len() == 0 && e == CustomErrors::EmptyVector(EmptyVectorError)
                }
            },
        },
{
    let l1 = vec_1.len();
    let l2 = vec_2.len();

    if l1 != l2 {
        return Err(CustomErrors::Mismatch(MismatchError));
    }

    if l1 == 0 {
        return Err(CustomErrors::EmptyVector(EmptyVectorError));
    }

    let mut acc: i64 = 0;

    for i in 0..l1
        invariant
            acc == wdot(vec_1@.subrange(0, i as int), vec_2@.subrange(0, i as int)),
    {
        proof {
            assert(vec_1@.subrange(0, i + 1).drop_last() =~= vec_1@.subrange(0, i as int));
            assert(vec_2@.subrange(0, i + 1).drop_last() =~= vec_2@.subrange(0, i as int));
        }
        acc = acc.wrapping_add(vec_1[i].wrapping_mul(vec_2[i]));
    }
    proof {
        assert(vec_1@.subrange(0, l1 as int) =~= vec_1@);
        assert(vec_2@.subrange(0, l2 as int) =~= vec_2@);
    }

    Ok(acc)
}

/// The mean of a nonempty vector, as an exact rational.
pub fn mean(vec_1: &Vec<i64>) -> (r: Result<Rat, CustomErrors>)
    ensures
        match r {
            Ok(mn) => {
                &&& 0 < vec_1@.len() <= i64::MAX
                &&& mn == (Rat { num: wsum(vec_1@), den: vec_1@.len() as i64 })
            },
            Err(e) => {
                if vec_1@.len() == 0 {
                    e == CustomErrors::EmptyVector(EmptyVectorError)
                } else {
                    vec_1@.len() > i64::MAX && e == CustomErrors::BadType(BadTypeError)
                }
            },
        },
{
    let total = match sum(vec_1) {
        Ok(s) => s,
        Err(e) => {
            return Err(e);
        },
    };
    if vec_1.len() as u64 > i64::MAX as u64 {
        return Err(CustomErrors::BadType(BadTypeError));
    }
    Ok(Rat { num: total, den: vec_1.len() as i64 })
}

/// The cosine similarity of two vectors, as an exact rational: the dot
/// product divided by the product of the two squared magnitudes, exactly
/// as `magnitude` defines them.
pub fn cosine_similarity(vec_1: &Vec<i64>, vec_2: &Vec<i64>) -> (r: Result<Rat, CustomErrors>)
    ensures
        match r {
            Ok(c) => {
                &&& vec_1@.len() == vec_2@.len()
                &&& vec_1@.len() > 0
                &&& wsumsq(vec_1@) * wsumsq(vec_2@) != 0
                &&& in_i64(wsumsq(vec_1@) * wsumsq(vec_2@))
                &&& c == (Rat {
                    num: wdot(vec_1@, vec_2@),
                    den: (wsumsq(vec_1@) * wsumsq(vec_2@)) as i64,
                })
            },
            Err(e) => {
                if vec_1@.len() == 0 || vec_2@.len() == 0 {
                    e == CustomErrors::EmptyVector(EmptyVectorError)
                } else if vec_1@.len() != vec_2@.len() {
                    e == CustomErrors::Mismatch(MismatchError)
                } else {
                    (wsumsq(vec_1@) * wsumsq(vec_2@) == 0 || !in_i64(
                        wsumsq(vec_1@) * wsumsq(vec_2@),
                    )) && e == CustomErrors::BadType(BadTypeError)
                }
            },
        },
{
    let magnitude_a = match magnitude(vec_1) {
        Ok(val) => val,
        Err(err) => {
            return Err(err);
        },
    };
    let magnitude_b = match magnitude(vec_2) {
        Ok(val) => val,
        Err(err) => {
            return Err(err);
        },
    };

    let dot_prod = match dot_product(vec_1, vec_2) {
        Ok(val) => val,
        Err(err) => {
            return Err(err);
        },
    };

    proof {
        crate::rational::lemma_i64_prod_in_i128(magnitude_a as int, magnitude_b as int);
    }
    let mag_prod = (magnitude_a as i128) * (magnitude_b as i128);
    if mag_prod == 0 || mag_prod < i64::MIN as i128 || mag_prod > i64::MAX as i128 {
        return Err(CustomErrors::BadType(BadTypeError));
    }

    Ok(Rat { num: dot_prod, den: mag_prod as i64 })
}

/// Adds a scalar to every element of a nonempty vector.
pub fn scalar_add(vec_1: &Vec<i64>, scalar: i64) -> (r: Result<Vec<i64>, CustomErrors>)
    ensures
        match r {
            Ok(v) => {
                &&& vec_1@.len() > 0
                &&& v@.len() == vec_1@.len()
                &&& forall|i: int| 0 <= i < v@.len() ==> v@[i] == wadd(vec_1@[i], scalar)
            },
            Err(e) => vec_1@.len() == 0 && e == CustomErrors::EmptyVector(EmptyVectorError),
        },
{
    let l1 = vec_1.len();

    if l1 == 0 {
        return Err(CustomErrors::EmptyVector(EmptyVectorError));
    }

    let mut vec_2: Vec<i64> = Vec::new();
    for i in 0..l1
        invariant
            vec_2@.len() == i,
            forall|k: int| 0 <= k < i ==> vec_2@[k] == wadd(vec_1@[k], scalar),
    {
        vec_2.push(vec_1[i].wrapping_add(scalar));
    }

    Ok(vec_2)
}

/// Subtracts a scalar from every element of a nonempty vector.
pub fn scalar_subtract(vec_1: &Vec<i64>, scalar: i64) -> (r: Result<Vec<i64>, CustomErrors>)
    ensures
        match r {
            Ok(v) => {
                &&& vec_1@.len() > 0
                &&& v@.len() == vec_1@.len()
                &&& forall|i: int| 0 <= i < v@.len() ==> v@[i] == wsub(vec_1@[i], scalar)
            },
            Err(e) => vec_1@.len() == 0 && e == CustomErrors::EmptyVector(EmptyVectorError),
        },
{
    let l1 = vec_1.len();

    if l1 == 0 {
        return Err(CustomErrors::EmptyVector(EmptyVectorError));
    }

    let mut vec_2: Vec<i64> = Vec::new();
    for i in 0..l1
        invariant
            vec_2@.len() == i,
            forall|k: int| 0 <= k < i ==> vec_2@[k] == wsub(vec_1@[k], scalar),
    {
        vec_2.push(vec_1[i].wrapping_sub(scalar));
    }

    Ok(vec_2)
}

/// Multiplies every element of a nonempty vector by a scalar.
pub fn scalar_multiply(vec_1: &Vec<i64>, scalar: i64) -> (r: Result<Vec<i64>, CustomErrors>)
    ensures
        match r {
            Ok(v) => {
                &&& vec_1@.len() > 0
                &&& v@.len() == vec_1@.len()
                &&& forall|i: int| 0 <= i < v@.len() ==> v@[i] == wmul(vec_1@[i], scalar)
            },
            Err(e) => vec_1@.len() == 0 && e == CustomErrors::EmptyVector(EmptyVectorError),
        },
{
    let l1 = vec_1.len();

    if l1 == 0 {
        return Err(CustomErrors::EmptyVector(EmptyVectorError));
    }

    let mut vec_2: Vec<i64> = Vec::new();
    for i in 0..l1
        invariant
            vec_2@.len() == i,
            forall|k: int| 0 <= k < i ==> vec_2@[k] == wmul(vec_1@[k], scalar),
    {
        vec_2.push(vec_1[i].wrapping_mul(scalar));
    }

    Ok(vec_2)
}

/// Divides every element of a nonempty vector by a nonzero scalar,
/// producing exact rationals.
pub fn scalar_divide(vec_1: &Vec<i64>, scalar: i64) -> (r: Result<Vec<Rat>, CustomErrors>)
    ensures
        match r {
            Ok(v) => {
                &&& vec_1@.len() > 0
                &&& scalar != 0
                &&& v@.len() == vec_1@.len()
                &&& forall|i: int|
                    0 <= i < v@.len() ==> v@[i] == (Rat { num: vec_1@[i], den: scalar })
            },
            Err(e) => {
                if vec_1@.len() == 0 {
                    e == CustomErrors::EmptyVector(EmptyVectorError)
                } else {
                    scalar == 0 && e == CustomErrors::BadType(BadTypeError)
                }
            },
        },
{
    let l1 = vec_1.len();

    if l1 == 0 {
        return Err(CustomErrors::EmptyVector(EmptyVectorError));
    }

    if scalar == 0 {
        return Err(CustomErrors::BadType(BadTypeError));
    }

    let mut vec_2: Vec<Rat> = Vec::new();
    for i in 0..l1
        invariant
            vec_2@.len() == i,
            forall|k: int| 0 <= k < i ==> vec_2@[k] == (Rat { num: vec_1@[k], den: scalar }),
    {
        vec_2.push(Rat { num: vec_1[i], den: scalar });
    }

    Ok(vec_2)
}

/// Subtracts every element of a vector from a scalar.
pub fn sub_from_scalar(scalar: i64, vec: &Vec<i64>) -> (r: Vec<i64>)
    ensures
        r@.len() == vec@.len(),
        forall|i: int| 0 <= i < r@.len() ==> r@[i] == wsub(scalar, vec@[i]),
{
    let mut new: Vec<i64> = Vec::new();
    let l = vec.len();
    for i in 0..l
        invariant
            new@.len() == i,
            forall|k: int| 0 <= k < i ==> new@[k] == wsub(scalar, vec@[k]),
    {
        new.push(scalar.wrapping_sub(vec[i]));
    }
    new
}

} // verus!
