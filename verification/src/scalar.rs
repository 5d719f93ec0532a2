//! Fixed-point scalars.
//!
//! Every quantity of the simulation (coordinates, velocities, interaction
//! coefficients, the tick scale) is a signed fixed-point number held in an
//! `i64`, counted in millionths of a world unit. Stored scalars stay within
//! `[-LIMIT, LIMIT]`; a computed value that leaves this range saturates at
//! the nearer end, so that no operation of the engine can overflow.
use vstd::prelude::*;

verus! {

/// Raw value of `1.0`.
pub const UNIT: i64 = 1_000_000;

/// Side length of a chunk, `10.0`.
pub const CHUNK_SIZE: i64 = 10_000_000;

/// Half the side length of a chunk, `5.0`.
pub const HALF_CHUNK: i64 = 5_000_000;

/// Largest magnitude of a stored scalar, `1_000_000.0`.
pub const LIMIT: i64 = 1_000_000_000_000;

/// Largest magnitude of the difference of two coordinates that are expressed
/// in one local frame: two stored coordinates and one chunk shift.
pub const REACH: i64 = 2_000_010_000_000;

/// Whether `v` can be stored as a scalar.
pub open spec fn in_range(v: int) -> bool {
    -LIMIT <= v <= LIMIT
}

/// The scalar nearest to `v`.
pub open spec fn clamp(v: int) -> int {
    if v < -LIMIT {
        -LIMIT as int
    } else if v > LIMIT {
        LIMIT as int
    } else {
        v
    }
}

/// Quotient of `a` by `b`, rounded toward zero.
pub open spec fn quot(a: int, b: int) -> int
    recommends
        b != 0,
{
    if a >= 0 {
        if b > 0 {
            a / b
        } else {
            -(a / (-b))
        }
    } else {
        if b > 0 {
            -((-a) / b)
        } else {
            (-a) / (-b)
        }
    }
}

/// The quotient rounded toward zero never exceeds the dividend in magnitude.
pub proof fn lemma_quot_bound(a: int, b: int, m: int)
    requires
        b != 0,
        -m <= a <= m,
    ensures
        -m <= quot(a, b) <= m,
{
    let ua = if a >= 0 { a } else { -a };
    let ub = if b > 0 { b } else { -b };
    assert(0 <= ua / ub <= ua) by (nonlinear_arith)
        requires
            ua >= 0,
            ub > 0,
    ;
}

/// Saturates a wide intermediate value into the scalar range.
pub fn saturate(v: i128) -> (r: i64)
    ensures
        r == clamp(v as int),
        in_range(r as int),
{
    if v < -1_000_000_000_000 {
        -LIMIT
    } else if v > 1_000_000_000_000 {
        LIMIT
    } else {
        v as i64
    }
}

/// Divides with rounding toward zero.
pub fn divide(a: i128, b: i128) -> (r: i128)
    requires
        b != 0,
        a > i128::MIN,
        b > i128::MIN,
    ensures
        r == quot(a as int, b as int),
{
    proof {
        lemma_quot_bound(a as int, b as int, i128::MAX as int);
    }
    if a >= 0 {
        if b > 0 {
            a / b
        } else {
            -(a / (-b))
        }
    } else {
        if b > 0 {
            -((-a) / b)
        } else {
            (-a) / (-b)
        }
    }
}

} // verus!
