//! Which particles act on a particle, and the force they exert together.
//!
//! A particle is influenced from four chunks only: its own, and the three
//! that touch the quarter of the chunk in which it lies. This reaches every
//! particle within half a chunk of it and misses some that are farther away;
//! the simulation is defined with this approximation.
use vstd::prelude::*;
use crate::force::{candidates_valid, row_valid, scan, scanned};
use crate::particle::{matrix_valid, Particle};
use crate::scalar::{in_range, CHUNK_SIZE, HALF_CHUNK};
use crate::torus::{east_of, north_of, south_of, west_of};
use crate::world::{World, WorldView};

verus! {

/// Whether `p` lies in the eastern half of its chunk.
pub open spec fn looks_east(p: Particle) -> bool {
    p.x > HALF_CHUNK
}

/// Whether `p` lies in the southern half of its chunk.
pub open spec fn looks_south(p: Particle) -> bool {
    p.y > HALF_CHUNK
}

/// The chunk beside `c` on the side of `p`.
pub open spec fn beside(c: int, p: Particle, w: int, h: int) -> int {
    if looks_east(p) {
        east_of(c, w, h)
    } else {
        west_of(c, w, h)
    }
}

/// The chunk above or below `c`, whichever is nearer to `p`.
pub open spec fn upright(c: int, p: Particle, w: int, h: int) -> int {
    if looks_south(p) {
        south_of(c, w, h)
    } else {
        north_of(c, w, h)
    }
}

/// The chunk that touches `c` at the corner nearest to `p`.
pub open spec fn across(c: int, p: Particle, w: int, h: int) -> int {
    upright(beside(c, p, w, h), p, w, h)
}

/// What is added to the `x` of a particle of the chunk beside, to express it
/// in the frame of `p`.
pub open spec fn shift_x(p: Particle) -> int {
    if looks_east(p) {
        CHUNK_SIZE as int
    } else {
        -(CHUNK_SIZE as int)
    }
}

/// What is added to the `y` of a particle of the chunk above or below, to
/// express it in the frame of `p`.
pub open spec fn shift_y(p: Particle) -> int {
    if looks_south(p) {
        CHUNK_SIZE as int
    } else {
        -(CHUNK_SIZE as int)
    }
}

impl WorldView {
    /// The grid has a chunk for every position, the matrix a storable
    /// coefficient for every pair of types, and every particle is storable
    /// and has a type of the matrix.
    pub open spec fn valid(self) -> bool {
        &&& self.width >= 1
        &&& self.height >= 1
        &&& self.cells.len() == self.width * self.height
        &&& matrix_valid(self.matrix)
        &&& forall|c: int|
            0 <= c < self.cells.len() ==> candidates_valid(
                #[trigger] self.cells[c],
                self.matrix.len() as int,
            )
    }

    /// The particle `i` of the chunk `c` after the force phase: its velocity
    /// after the particles of its own chunk, of the chunk beside, of the
    /// chunk across the corner and of the chunk above or below have acted on
    /// it, in this order. Its position is the one it had.
    pub open spec fn forced(self, c: int, i: int, delta: int) -> Particle {
        let p = self.cells[c][i];
        let row = self.matrix[p.type_id as int];
        let w = self.width;
        let h = self.height;
        let own = self.cells[c];
        let side = self.cells[beside(c, p, w, h)];
        let corner = self.cells[across(c, p, w, h)];
        let vertical = self.cells[upright(c, p, w, h)];
        let a = scanned(p, own, 0, 0, i, row, delta, own.len() as int);
        let b = scanned(a, side, shift_x(p), 0, -1, row, delta, side.len() as int);
        let d = scanned(b, corner, shift_x(p), shift_y(p), -1, row, delta, corner.len() as int);
        scanned(d, vertical, 0, shift_y(p), -1, row, delta, vertical.len() as int)
    }
}

impl World {
    /// The view of a well-formed world is valid.
    pub proof fn lemma_view_valid(self)
        requires
            self.wf(),
        ensures
            self@.valid(),
            self@.matrix.len() == self.types@.len(),
    {
        crate::particle::lemma_matrix_of_valid_table(self.types@);
        assert forall|c: int| 0 <= c < self@.cells.len() implies candidates_valid(
            #[trigger] self@.cells[c],
            self@.matrix.len() as int,
        ) by {
            assert forall|k: int| 0 <= k < self@.cells[c].len() implies (
            #[trigger] self@.cells[c][k]).bounded() && self@.cells[c][k].type_id
                < self@.matrix.len() by {
                assert(self.chunks@[c].particles@[k].bounded());
            }
        }
    }

    /// Computes what the force phase makes of the particle `i` of the chunk
    /// `c`.
    pub fn force_on(&self, c: usize, i: usize, delta: i64) -> (r: Particle)
        requires
            self.wf(),
            c < self.chunks@.len(),
            i < self.chunks@[c as int].particles@.len(),
            in_range(delta as int),
        ensures
            r == self@.forced(c as int, i as int, delta as int),
            r.bounded(),
            r.x == self.chunks@[c as int].particles@[i as int].x,
            r.y == self.chunks@[c as int].particles@[i as int].y,
            r.type_id == self.chunks@[c as int].particles@[i as int].type_id,
    {
        proof {
            self.lemma_view_valid();
            self.lemma_links_close(c as int);
        }
        let home = &self.chunks[c];
        let p = home.particles[i];
        assert(p == self@.cells[c as int][i as int]);
        assert(p.bounded() && p.type_id < self.types@.len());
        let row = &self.types[p.type_id].coefficients;
        assert(row@ == self@.matrix[p.type_id as int]);
        assert(row_valid(row@)) by {
            assert(self@.matrix[p.type_id as int].len() == self@.matrix.len());
        }
        let east = p.x > HALF_CHUNK;
        let south = p.y > HALF_CHUNK;
        let side: usize = if east { home.east } else { home.west };
        let vertical: usize = if south { home.south } else { home.north };
        let sx: i64 = if east { CHUNK_SIZE } else { -CHUNK_SIZE };
        let sy: i64 = if south { CHUNK_SIZE } else { -CHUNK_SIZE };
        proof {
            self.lemma_links_close(side as int);
        }
        let corner: usize = if south { self.chunks[side].south } else { self.chunks[side].north };
        proof {
            let w = self.width as int;
            let h = self.height as int;
            assert(home.linked(c as int, w, h));
            assert(self.chunks@[side as int].linked(side as int, w, h));
            assert(side == beside(c as int, p, w, h));
            assert(vertical == upright(c as int, p, w, h));
            assert(corner == across(c as int, p, w, h));
            assert(self@.cells[c as int] == home.particles@);
            assert(self@.cells[side as int] == self.chunks@[side as int].particles@);
            assert(self@.cells[corner as int] == self.chunks@[corner as int].particles@);
            assert(self@.cells[vertical as int] == self.chunks@[vertical as int].particles@);
        }
        let a = scan(p, &home.particles, 0, 0, Some(i), row, delta);
        let b = scan(a, &self.chunks[side].particles, sx, 0, None, row, delta);
        let d = scan(b, &self.chunks[corner].particles, sx, sy, None, row, delta);
        scan(d, &self.chunks[vertical].particles, 0, sy, None, row, delta)
    }
}

} // verus!
