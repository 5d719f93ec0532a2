//! Particles and the table of particle types.
use vstd::prelude::*;
use crate::scalar::{in_range, CHUNK_SIZE, LIMIT};

verus! {

/// A point particle. Its position is relative to the origin of the chunk that
/// owns it; between ticks it lies inside that chunk, unless the particle
/// moves faster than one chunk per tick.
#[derive(Clone, Copy, Debug, PartialEq, Eq, Structural)]
pub struct Particle {
    pub x: i64,
    pub y: i64,
    pub vx: i64,
    pub vy: i64,
    /// Index of the particle's type in the world's type table.
    pub type_id: usize,
}

impl Particle {
    /// All four scalars can be stored.
    pub open spec fn bounded(self) -> bool {
        &&& in_range(self.x as int)
        &&& in_range(self.y as int)
        &&& in_range(self.vx as int)
        &&& in_range(self.vy as int)
    }

    /// The position lies inside the owning chunk.
    pub open spec fn in_chunk(self) -> bool {
        &&& 0 <= self.x < CHUNK_SIZE
        &&& 0 <= self.y < CHUNK_SIZE
    }

    /// Tells whether the position lies inside the owning chunk.
    pub fn is_in_chunk(&self) -> (r: bool)
        ensures
            r == self.in_chunk(),
    {
        0 <= self.x && self.x < CHUNK_SIZE && 0 <= self.y && self.y < CHUNK_SIZE
    }
}

/// A display colour; the engine carries it and never reads it.
#[derive(Clone, Copy, Debug, PartialEq, Eq, Structural)]
pub struct Color {
    pub r: u8,
    pub g: u8,
    pub b: u8,
}

/// One row of the interaction matrix, with the display colour of the type.
#[derive(Clone, Debug)]
pub struct ParticleType {
    /// Index of this type in the table.
    pub id: usize,
    pub color: Color,
    /// `coefficients[j]` is the strength with which a particle of this type
    /// is drawn to one of type `j`; negative values repel.
    pub coefficients: Vec<i64>,
}

/// A type table is valid when each entry sits at the index that it names and
/// holds one storable coefficient for every type of the table.
pub open spec fn table_valid(types: Seq<ParticleType>) -> bool {
    forall|a: int|
        0 <= a < types.len() ==> {
            &&& (#[trigger] types[a]).id == a
            &&& types[a].coefficients@.len() == types.len()
            &&& forall|b: int|
                0 <= b < types.len() ==> in_range(#[trigger] types[a].coefficients@[b] as int)
        }
}

/// The interaction matrix of a type table.
pub open spec fn matrix(types: Seq<ParticleType>) -> Seq<Seq<i64>> {
    Seq::new(types.len(), |a: int| types[a].coefficients@)
}

/// Whether `m` is a square matrix of storable coefficients.
pub open spec fn matrix_valid(m: Seq<Seq<i64>>) -> bool {
    forall|a: int|
        0 <= a < m.len() ==> {
            &&& (#[trigger] m[a]).len() == m.len()
            &&& forall|b: int| 0 <= b < m.len() ==> in_range(#[trigger] m[a][b] as int)
        }
}

/// The matrix of a valid table is valid.
pub proof fn lemma_matrix_of_valid_table(types: Seq<ParticleType>)
    requires
        table_valid(types),
    ensures
        matrix_valid(matrix(types)),
        matrix(types).len() == types.len(),
{
    let m = matrix(types);
    assert forall|a: int| 0 <= a < m.len() implies {
        &&& (#[trigger] m[a]).len() == m.len()
        &&& forall|b: int| 0 <= b < m.len() ==> in_range(#[trigger] m[a][b] as int)
    } by {
        assert(m[a] == types[a].coefficients@);
    }
}

/// Checks a type table.
pub fn check_table(types: &Vec<ParticleType>) -> (ok: bool)
    ensures
        ok == table_valid(types@),
{
    let n = types.len();
    let mut a: usize = 0;
    while a < n
        invariant
            n == types.len(),
            a <= n,
            forall|k: int|
                0 <= k < a ==> {
                    &&& (#[trigger] types@[k]).id == k
                    &&& types@[k].coefficients@.len() == n
                    &&& forall|b: int|
                        0 <= b < n ==> in_range(#[trigger] types@[k].coefficients@[b] as int)
                },
        decreases n - a,
    {
        let t = &types[a];
        if t.id != a || t.coefficients.len() != n {
            return false;
        }
        let mut b: usize = 0;
        while b < n
            invariant
                n == types.len(),
                a < n,
                b <= n,
                t == types@[a as int],
                t.coefficients@.len() == n,
                forall|j: int| 0 <= j < b ==> in_range(#[trigger] t.coefficients@[j] as int),
            decreases n - b,
        {
            let c = t.coefficients[b];
            if c < -LIMIT || c > LIMIT {
                assert(!in_range(types@[a as int].coefficients@[b as int] as int));
                return false;
            }
            b += 1;
        }
        a += 1;
    }
    true
}

} // verus!
