//! The force kernel: what one candidate does to the velocity of a particle,
//! and the scan of a list of candidates.
use vstd::prelude::*;
use crate::particle::Particle;
use crate::scalar::{
    clamp, divide, in_range, lemma_quot_bound, quot, saturate, CHUNK_SIZE, LIMIT, REACH,
};

verus! {

/// Squared distance `2.0`, below which the force turns into repulsion.
pub const NEAR_SQUARED: i128 = 2_000_000_000_000;

/// Squared distance `0.1`, the least magnitude of the close-range denominator.
pub const FLOOR_SQUARED: i128 = 100_000_000_000;

/// The force strength `0.2`, as the divisor `5`.
pub const STRENGTH_DIVISOR: i128 = 5;

/// The damping factor `0.9999` is `DAMPING_KEPT / DAMPING_SCALE`.
pub const DAMPING_KEPT: i128 = 9999;

pub const DAMPING_SCALE: i128 = 10000;

/// Denominator of the force for a squared distance `d2`: the squared distance
/// itself from `2.0` on, and below that the negated larger of `d2` and `0.1`.
pub open spec fn denominator(d2: int) -> int {
    if d2 < NEAR_SQUARED {
        if d2 > FLOOR_SQUARED {
            -d2
        } else {
            -(FLOOR_SQUARED as int)
        }
    } else {
        d2
    }
}

/// Velocity gained along one axis: `coeff * d * delta * 0.2 / denominator`,
/// rounded toward zero. The operands are raw scalars, `d2` is a raw squared
/// distance.
pub open spec fn pull(coeff: int, d: int, delta: int, d2: int) -> int {
    quot(coeff * d * delta, STRENGTH_DIVISOR * denominator(d2))
}

/// The particle `p` after a candidate at `(qx, qy)`, given in the local frame
/// of `p`, has acted on its velocity.
pub open spec fn attracted(p: Particle, qx: int, qy: int, coeff: int, delta: int) -> Particle {
    let dx = qx - p.x;
    let dy = qy - p.y;
    let d2 = dx * dx + dy * dy;
    Particle {
        vx: clamp(p.vx + pull(coeff, dx, delta, d2)) as i64,
        vy: clamp(p.vy + pull(coeff, dy, delta, d2)) as i64,
        ..p
    }
}

/// One scalar after damping, rounded toward zero.
pub open spec fn damp(v: int) -> int {
    quot(v * DAMPING_KEPT, DAMPING_SCALE as int)
}

/// The particle `p` with both velocity components damped once.
pub open spec fn damped(p: Particle) -> Particle {
    Particle { vx: damp(p.vx as int) as i64, vy: damp(p.vy as int) as i64, ..p }
}

/// Whether a candidate coordinate, after its chunk shift, is near enough to
/// be subtracted from a stored coordinate.
pub open spec fn reachable(q: int) -> bool {
    -LIMIT - CHUNK_SIZE <= q <= LIMIT + CHUNK_SIZE
}

/// Damping never enlarges a scalar and keeps its sign.
pub proof fn lemma_damp_shrinks(v: int)
    ensures
        v >= 0 ==> 0 <= damp(v) <= v,
        v <= 0 ==> v <= damp(v) <= 0,
{
    if v >= 0 {
        assert(0 <= (v * 9999) / 10000 <= v) by (nonlinear_arith)
            requires
                v >= 0,
        ;
    } else {
        assert(0 <= ((-v) * 9999) / 10000 <= -v) by (nonlinear_arith)
            requires
                v < 0,
        ;
        assert(-(v * 9999) == (-v) * 9999) by (nonlinear_arith);
    }
}

proof fn lemma_square_bound(d: int)
    requires
        -REACH <= d <= REACH,
    ensures
        0 <= d * d <= REACH * REACH,
{
    assert(0 <= d * d <= REACH * REACH) by (nonlinear_arith)
        requires
            -REACH <= d <= REACH,
    ;
}

proof fn lemma_product_bound(coeff: int, d: int, delta: int)
    requires
        in_range(coeff),
        in_range(delta),
        -REACH <= d <= REACH,
    ensures
        -(LIMIT * REACH) <= coeff * d <= LIMIT * REACH,
        -(LIMIT * REACH * LIMIT) <= coeff * d * delta <= LIMIT * REACH * LIMIT,
{
    let m = LIMIT * REACH;
    assert(-m <= coeff * d <= m) by (nonlinear_arith)
        requires
            -LIMIT <= coeff <= LIMIT,
            -REACH <= d <= REACH,
            m == LIMIT * REACH,
    ;
    let cd = coeff * d;
    assert(-(m * LIMIT) <= cd * delta <= m * LIMIT) by (nonlinear_arith)
        requires
            -m <= cd <= m,
            -LIMIT <= delta <= LIMIT,
            m >= 0,
    ;
}

/// Computes the denominator of the force.
pub fn force_denominator(d2: i128) -> (r: i128)
    requires
        0 <= d2 <= 2 * (REACH * REACH),
    ensures
        r == denominator(d2 as int),
        r != 0,
{
    if d2 < NEAR_SQUARED {
        if d2 > FLOOR_SQUARED {
            -d2
        } else {
            -FLOOR_SQUARED
        }
    } else {
        d2
    }
}

/// Computes the velocity gained along one axis.
pub fn axis_pull(coeff: i64, d: i64, delta: i64, d2: i128) -> (r: i128)
    requires
        in_range(coeff as int),
        in_range(delta as int),
        -REACH <= d <= REACH,
        0 <= d2 <= 2 * (REACH * REACH),
    ensures
        r == pull(coeff as int, d as int, delta as int, d2 as int),
        -(LIMIT * REACH * LIMIT) <= r <= LIMIT * REACH * LIMIT,
{
    proof {
        lemma_product_bound(coeff as int, d as int, delta as int);
        assert(LIMIT * REACH == 2_000_010_000_000_000_000_000_000) by (nonlinear_arith);
        assert(LIMIT * REACH * LIMIT == 2_000_010_000_000_000_000_000_000_000_000_000_000)
            by (nonlinear_arith);
        assert(REACH * REACH == 4_000_040_000_100_000_000_000_000) by (nonlinear_arith);
    }
    let pair: i128 = (coeff as i128) * (d as i128);
    let numerator: i128 = pair * (delta as i128);
    let denominator: i128 = STRENGTH_DIVISOR * force_denominator(d2);
    proof {
        lemma_quot_bound(numerator as int, denominator as int, LIMIT * REACH * LIMIT);
    }
    divide(numerator, denominator)
}

/// Lets a candidate at `(qx, qy)`, given in the local frame of `p`, act on
/// the velocity of `p`.
pub fn attract(p: Particle, qx: i64, qy: i64, coeff: i64, delta: i64) -> (r: Particle)
    requires
        p.bounded(),
        reachable(qx as int),
        reachable(qy as int),
        in_range(coeff as int),
        in_range(delta as int),
    ensures
        r == attracted(p, qx as int, qy as int, coeff as int, delta as int),
        r.bounded(),
        r.x == p.x,
        r.y == p.y,
        r.type_id == p.type_id,
{
    let dx: i64 = qx - p.x;
    let dy: i64 = qy - p.y;
    proof {
        lemma_square_bound(dx as int);
        lemma_square_bound(dy as int);
        assert(REACH * REACH == 4_000_040_000_100_000_000_000_000) by (nonlinear_arith);
        assert(LIMIT * REACH * LIMIT == 2_000_010_000_000_000_000_000_000_000_000_000_000)
            by (nonlinear_arith);
    }
    let d2: i128 = (dx as i128) * (dx as i128) + (dy as i128) * (dy as i128);
    let gx: i128 = axis_pull(coeff, dx, delta, d2);
    let gy: i128 = axis_pull(coeff, dy, delta, d2);
    Particle { x: p.x, y: p.y, vx: saturate(p.vx as i128 + gx), vy: saturate(p.vy as i128 + gy), type_id: p.type_id }
}

/// Damps one scalar.
pub fn damp_scalar(v: i64) -> (r: i64)
    requires
        in_range(v as int),
    ensures
        r == damp(v as int),
        in_range(r as int),
{
    proof {
        lemma_damp_shrinks(v as int);
    }
    let wide: i128 = divide((v as i128) * DAMPING_KEPT, DAMPING_SCALE);
    wide as i64
}

/// Damps the velocity of `p` once.
pub fn damp_particle(p: Particle) -> (r: Particle)
    requires
        p.bounded(),
    ensures
        r == damped(p),
        r.bounded(),
{
    Particle { x: p.x, y: p.y, vx: damp_scalar(p.vx), vy: damp_scalar(p.vy), type_id: p.type_id }
}

/// The particle `p` after the first `n` particles of `candidates` have acted
/// on it in order. Each candidate is shifted by `(sx, sy)` into the local
/// frame of `p` and weighted by the entry of `row` for its type; the candidate
/// at index `skip`, which is `p` itself, exerts no force. Damping is applied
/// once after every candidate, the skipped one included.
pub open spec fn scanned(
    p: Particle,
    candidates: Seq<Particle>,
    sx: int,
    sy: int,
    skip: int,
    row: Seq<i64>,
    delta: int,
    n: int,
) -> Particle
    decreases n,
{
    if n <= 0 {
        p
    } else {
        let before = scanned(p, candidates, sx, sy, skip, row, delta, n - 1);
        let q = candidates[n - 1];
        if n - 1 == skip {
            damped(before)
        } else {
            damped(attracted(before, q.x + sx, q.y + sy, row[q.type_id as int] as int, delta))
        }
    }
}

/// Whether every particle of `candidates` is storable and has a coefficient
/// in a row of `types` entries.
pub open spec fn candidates_valid(candidates: Seq<Particle>, types: int) -> bool {
    forall|k: int|
        0 <= k < candidates.len() ==> (#[trigger] candidates[k]).bounded() && candidates[k].type_id
            < types
}

/// Whether every entry of `row` is storable.
pub open spec fn row_valid(row: Seq<i64>) -> bool {
    forall|b: int| 0 <= b < row.len() ==> in_range(#[trigger] row[b] as int)
}

/// Index that `scanned` skips for `skip`: none for `None`.
pub open spec fn skip_index(skip: Option<usize>) -> int {
    match skip {
        Some(i) => i as int,
        None => -1,
    }
}

/// Lets all of `candidates` act on `p` in order.
pub fn scan(
    p: Particle,
    candidates: &Vec<Particle>,
    sx: i64,
    sy: i64,
    skip: Option<usize>,
    row: &Vec<i64>,
    delta: i64,
) -> (r: Particle)
    requires
        p.bounded(),
        candidates_valid(candidates@, row@.len() as int),
        row_valid(row@),
        in_range(delta as int),
        -CHUNK_SIZE <= sx <= CHUNK_SIZE,
        -CHUNK_SIZE <= sy <= CHUNK_SIZE,
    ensures
        r == scanned(
            p,
            candidates@,
            sx as int,
            sy as int,
            skip_index(skip),
            row@,
            delta as int,
            candidates@.len() as int,
        ),
        r.bounded(),
        r.x == p.x,
        r.y == p.y,
        r.type_id == p.type_id,
{
    let n = candidates.len();
    let mut r = p;
    let mut k: usize = 0;
    while k < n
        invariant
            n == candidates@.len(),
            k <= n,
            candidates_valid(candidates@, row@.len() as int),
            row_valid(row@),
            in_range(delta as int),
            -CHUNK_SIZE <= sx <= CHUNK_SIZE,
            -CHUNK_SIZE <= sy <= CHUNK_SIZE,
            r.bounded(),
            r.x == p.x,
            r.y == p.y,
            r.type_id == p.type_id,
            r == scanned(
                p,
                candidates@,
                sx as int,
                sy as int,
                skip_index(skip),
                row@,
                delta as int,
                k as int,
            ),
        decreases n - k,
    {
        let q = candidates[k];
        let own = match skip {
            Some(i) => i == k,
            None => false,
        };
        if !own {
            assert(candidates@[k as int].bounded());
            r = attract(r, q.x + sx, q.y + sy, row[q.type_id], delta);
        }
        r = damp_particle(r);
        k += 1;
    }
    r
}

} // verus!
