//! The world: a torus of chunks, the particles that each chunk owns, and the
//! table of particle types.
use vstd::prelude::*;
use vstd::arithmetic::div_mod::{
    lemma_fundamental_div_mod, lemma_fundamental_div_mod_converse, lemma_mod_bound,
};
use crate::particle::{matrix, table_valid, Particle, ParticleType};
use crate::scalar::{in_range, CHUNK_SIZE};
use crate::torus::{
    cell, cell_index, column_of, east_index, east_of, lemma_cell_of_position,
    lemma_neighbours_inside, lemma_torus_closure, north_index, north_of, row_of, south_index,
    south_of, west_index, west_of,
};

verus! {

/// A square bucket of space with side `CHUNK_SIZE`: the particles that lie in
/// it, and the identifiers of the four adjacent chunks.
#[derive(Debug)]
pub struct Chunk {
    pub particles: Vec<Particle>,
    pub north: usize,
    pub south: usize,
    pub west: usize,
    pub east: usize,
}

impl Chunk {
    /// The links of the chunk `c` lead to its neighbours on a torus of `w`
    /// columns and `h` rows.
    pub open spec fn linked(self, c: int, w: int, h: int) -> bool {
        &&& self.north == north_of(c, w, h)
        &&& self.south == south_of(c, w, h)
        &&& self.west == west_of(c, w, h)
        &&& self.east == east_of(c, w, h)
    }
}

/// Why a world could not be made.
#[derive(Clone, Copy, Debug, PartialEq, Eq, Structural)]
pub enum WorldError {
    /// The grid would have no column or no row.
    InvalidDimension,
}

/// The simulated world.
#[derive(Debug)]
pub struct World {
    /// Number of chunk columns.
    pub width: usize,
    /// Number of chunk rows.
    pub height: usize,
    /// The chunks; the one at column `x`, row `y` is `chunks[x * height + y]`.
    pub chunks: Vec<Chunk>,
    /// The type table.
    pub types: Vec<ParticleType>,
}

/// What a world is to the simulation: the size of the grid, the particles of
/// every chunk in the order in which the chunk holds them, and the
/// interaction matrix.
pub struct WorldView {
    pub width: int,
    pub height: int,
    pub cells: Seq<Seq<Particle>>,
    pub matrix: Seq<Seq<i64>>,
}

/// Number of particles in the first `n` chunks of `cells`.
pub open spec fn headcount(cells: Seq<Seq<Particle>>, n: int) -> int
    decreases n,
{
    if n <= 0 {
        0
    } else {
        headcount(cells, n - 1) + cells[n - 1].len()
    }
}

impl WorldView {
    /// Number of particles in the world.
    pub open spec fn population(self) -> int {
        headcount(self.cells, self.cells.len() as int)
    }

    /// The world with `p` appended to the chunk `c`.
    pub open spec fn with_particle(self, c: int, p: Particle) -> WorldView {
        WorldView { cells: self.cells.update(c, self.cells[c].push(p)), ..self }
    }

    /// Every particle lies inside the chunk that owns it.
    pub open spec fn settled(self) -> bool {
        forall|c: int, i: int|
            0 <= c < self.cells.len() && 0 <= i < self.cells[c].len() ==> (
            #[trigger] self.cells[c][i]).in_chunk()
    }
}

/// Identifier of the chunk that owns the world position `(wx, wy)`: column
/// `floor(wx / CHUNK_SIZE) mod w`, row `floor(wy / CHUNK_SIZE) mod h`.
pub open spec fn home_of(wx: int, wy: int, w: int, h: int) -> int {
    cell((wx / (CHUNK_SIZE as int)) % w, (wy / (CHUNK_SIZE as int)) % h, h)
}

/// A world coordinate relative to the origin of the chunk that owns it.
pub open spec fn local_of(wc: int) -> int {
    wc % (CHUNK_SIZE as int)
}

/// World coordinate of the local coordinate `local` in the chunk with index
/// `index` along an axis of `count` chunks, wrapped into the world.
pub open spec fn world_coordinate(index: int, local: int, count: int) -> int {
    (index * CHUNK_SIZE + local) % (count * CHUNK_SIZE)
}

/// Placing a non-negative world coordinate into a chunk loses nothing: the
/// local coordinate lies inside the chunk, and chunk index and local
/// coordinate together give back the coordinate, wrapped into the world.
pub proof fn lemma_insertion_consistency(wc: int, count: int)
    requires
        0 <= wc,
        1 <= count,
    ensures
        0 <= local_of(wc) < CHUNK_SIZE,
        0 <= (wc / (CHUNK_SIZE as int)) % count < count,
        world_coordinate((wc / (CHUNK_SIZE as int)) % count, local_of(wc), count) == wc % (count
            * CHUNK_SIZE),
{
    let size = CHUNK_SIZE as int;
    let q = wc / size;
    let r = wc % size;
    lemma_fundamental_div_mod(wc, size);
    lemma_mod_bound(wc, size);
    assert(0 <= q) by (nonlinear_arith)
        requires
            wc == size * q + r,
            0 <= wc,
            0 <= r < size,
            0 < size,
    ;
    lemma_fundamental_div_mod(q, count);
    lemma_mod_bound(q, count);
    let turns = q / count;
    let index = q % count;
    assert(wc == turns * (count * size) + (index * size + r)) by (nonlinear_arith)
        requires
            wc == size * q + r,
            q == count * turns + index,
    ;
    assert(0 <= index * size + r < count * size) by (nonlinear_arith)
        requires
            0 <= index < count,
            0 <= r < size,
    ;
    lemma_fundamental_div_mod_converse(wc, count * size, turns, index * size + r);
    assert(count * size > 0) by (nonlinear_arith)
        requires
            count >= 1,
            size > 0,
    ;
    lemma_fundamental_div_mod_converse(index * size + r, count * size, 0, index * size + r);
}

/// A particle added at a non-negative world position is found again at that
/// position, wrapped into the world: its chunk is a chunk of the grid, its
/// local coordinates lie inside the chunk, and column, row and local
/// coordinates give the position back.
pub proof fn lemma_insertion_recovers(wx: int, wy: int, w: int, h: int)
    requires
        0 <= wx,
        0 <= wy,
        1 <= w,
        1 <= h,
    ensures
        0 <= home_of(wx, wy, w, h) < w * h,
        0 <= local_of(wx) < CHUNK_SIZE,
        0 <= local_of(wy) < CHUNK_SIZE,
        world_coordinate(column_of(home_of(wx, wy, w, h), h), local_of(wx), w) == wx % (w
            * CHUNK_SIZE),
        world_coordinate(row_of(home_of(wx, wy, w, h), h), local_of(wy), h) == wy % (h
            * CHUNK_SIZE),
{
    lemma_insertion_consistency(wx, w);
    lemma_insertion_consistency(wy, h);
    lemma_cell_of_position(
        (wx / (CHUNK_SIZE as int)) % w,
        (wy / (CHUNK_SIZE as int)) % h,
        w,
        h,
    );
}

impl View for World {
    type V = WorldView;

    open spec fn view(&self) -> WorldView {
        WorldView {
            width: self.width as int,
            height: self.height as int,
            cells: Seq::new(self.chunks@.len(), |c: int| self.chunks@[c].particles@),
            matrix: matrix(self.types@),
        }
    }
}

impl World {
    /// The grid is a torus of `width * height` chunks with at least one
    /// column and one row.
    pub open spec fn grid_wf(self) -> bool {
        &&& self.width >= 1
        &&& self.height >= 1
        &&& self.chunks@.len() == self.width * self.height
        &&& forall|c: int|
            0 <= c < self.chunks@.len() ==> (#[trigger] self.chunks@[c]).linked(
                c,
                self.width as int,
                self.height as int,
            )
    }

    /// Every particle is storable and names a type of the table.
    pub open spec fn particles_wf(self) -> bool {
        forall|c: int, i: int|
            0 <= c < self.chunks@.len() && 0 <= i < self.chunks@[c].particles@.len() ==> {
                &&& (#[trigger] self.chunks@[c].particles@[i]).bounded()
                &&& self.chunks@[c].particles@[i].type_id < self.types@.len()
            }
    }

    /// The invariant of a world.
    pub open spec fn wf(self) -> bool {
        &&& self.grid_wf()
        &&& table_valid(self.types@)
        &&& self.particles_wf()
    }

    /// Every link leads to a chunk of the world, and the link back from there
    /// in the opposite direction leads to the chunk it came from.
    pub proof fn lemma_links_close(self, c: int)
        requires
            self.grid_wf(),
            0 <= c < self.chunks@.len(),
        ensures
            self.chunks@[c].north < self.chunks@.len(),
            self.chunks@[c].south < self.chunks@.len(),
            self.chunks@[c].west < self.chunks@.len(),
            self.chunks@[c].east < self.chunks@.len(),
            self.chunks@[self.chunks@[c].north as int].south == c,
            self.chunks@[self.chunks@[c].south as int].north == c,
            self.chunks@[self.chunks@[c].west as int].east == c,
            self.chunks@[self.chunks@[c].east as int].west == c,
    {
        let w = self.width as int;
        let h = self.height as int;
        lemma_neighbours_inside(c, w, h);
        lemma_torus_closure(c, w, h);
        assert(self.chunks@[c].linked(c, w, h));
        assert(self.chunks@[north_of(c, w, h)].linked(north_of(c, w, h), w, h));
        assert(self.chunks@[south_of(c, w, h)].linked(south_of(c, w, h), w, h));
        assert(self.chunks@[west_of(c, w, h)].linked(west_of(c, w, h), w, h));
        assert(self.chunks@[east_of(c, w, h)].linked(east_of(c, w, h), w, h));
    }

    /// Makes an empty world of `chunk_columns` by `chunk_rows` chunks.
    pub fn new(chunk_columns: usize, chunk_rows: usize, particle_types: Vec<ParticleType>) -> (r:
        Result<World, WorldError>)
        requires
            table_valid(particle_types@),
            chunk_columns * chunk_rows <= usize::MAX,
        ensures
            (chunk_columns == 0 || chunk_rows == 0) <==> r == Err::<World, WorldError>(
                WorldError::InvalidDimension,
            ),
            r is Err <==> (chunk_columns == 0 || chunk_rows == 0),
            r is Ok ==> {
                let world = r->Ok_0;
                &&& world.wf()
                &&& world.width == chunk_columns
                &&& world.height == chunk_rows
                &&& world.types == particle_types
                &&& world@.cells == Seq::new(
                    (chunk_columns * chunk_rows) as nat,
                    |c: int| Seq::<Particle>::empty(),
                )
            },
    {
        if chunk_columns == 0 || chunk_rows == 0 {
            return Err(WorldError::InvalidDimension);
        }
        let w = chunk_columns;
        let h = chunk_rows;
        let mut chunks: Vec<Chunk> = Vec::new();
        let mut x: usize = 0;
        while x < w
            invariant
                0 < w,
                0 < h,
                w * h <= usize::MAX,
                x <= w,
                chunks@.len() == x * h,
                forall|c: int|
                    0 <= c < chunks@.len() ==> (#[trigger] chunks@[c]).linked(c, w as int, h as int)
                        && chunks@[c].particles@.len() == 0,
            decreases w - x,
        {
            let mut y: usize = 0;
            while y < h
                invariant
                    0 < w,
                    0 < h,
                    w * h <= usize::MAX,
                    x < w,
                    y <= h,
                    chunks@.len() == x * h + y,
                    forall|c: int|
                        0 <= c < chunks@.len() ==> (#[trigger] chunks@[c]).linked(
                            c,
                            w as int,
                            h as int,
                        ) && chunks@[c].particles@.len() == 0,
                decreases h - y,
            {
                let chunk = Chunk {
                    particles: Vec::new(),
                    north: north_index(x, y, w, h),
                    south: south_index(x, y, w, h),
                    west: west_index(x, y, w, h),
                    east: east_index(x, y, w, h),
                };
                chunks.push(chunk);
                y += 1;
            }
            assert(x * h + h == (x + 1) * h) by (nonlinear_arith);
            x += 1;
        }
        let world = World { width: w, height: h, chunks, types: particle_types };
        assert(world@.cells =~= Seq::new((w * h) as nat, |c: int| Seq::<Particle>::empty())) by {
            assert forall|c: int| 0 <= c < world@.cells.len() implies world@.cells[c]
                == Seq::<Particle>::empty() by {
                assert(world.chunks@[c].particles@.len() == 0);
                assert(world@.cells[c] =~= Seq::<Particle>::empty());
            }
        }
        Ok(world)
    }

    /// Adds a particle at the world position `(world_x, world_y)` with
    /// velocity `(vx, vy)`: it is appended to the chunk that owns the
    /// position, with its coordinates made relative to that chunk.
    pub fn add_particle(&mut self, world_x: i64, world_y: i64, vx: i64, vy: i64, type_id: usize)
        requires
            old(self).wf(),
            0 <= world_x,
            0 <= world_y,
            in_range(vx as int),
            in_range(vy as int),
            type_id < old(self).types@.len(),
        ensures
            final(self).wf(),
            final(self).types == old(self).types,
            final(self)@ == old(self)@.with_particle(
                home_of(
                    world_x as int,
                    world_y as int,
                    old(self).width as int,
                    old(self).height as int,
                ),
                Particle {
                    x: local_of(world_x as int) as i64,
                    y: local_of(world_y as int) as i64,
                    vx,
                    vy,
                    type_id,
                },
            ),
    {
        proof {
            lemma_insertion_consistency(world_x as int, self.width as int);
            lemma_insertion_consistency(world_y as int, self.height as int);
        }
        let cx: usize = (((world_x / CHUNK_SIZE) as u64) % (self.width as u64)) as usize;
        let cy: usize = (((world_y / CHUNK_SIZE) as u64) % (self.height as u64)) as usize;
        assert(self.width * self.height == self.chunks.len());
        let c = cell_index(cx, cy, self.width, self.height);
        let p = Particle { x: world_x % CHUNK_SIZE, y: world_y % CHUNK_SIZE, vx, vy, type_id };
        self.chunks[c].particles.push(p);
        proof {
            let before = old(self);
            assert(self.chunks@.len() == before.chunks@.len());
            assert forall|k: int| 0 <= k < self.chunks@.len() implies (#[trigger] self.chunks@[k]).linked(
                k,
                self.width as int,
                self.height as int,
            ) by {
                assert(before.chunks@[k].linked(k, before.width as int, before.height as int));
            }
            assert forall|k: int, i: int|
                0 <= k < self.chunks@.len() && 0 <= i < self.chunks@[k].particles@.len() implies {
                &&& (#[trigger] self.chunks@[k].particles@[i]).bounded()
                &&& self.chunks@[k].particles@[i].type_id < self.types@.len()
            } by {
                if k == c && i == before.chunks@[k].particles@.len() {
                } else {
                    assert(before.chunks@[k].particles@[i].bounded());
                }
            }
            assert(self@.cells =~= before@.with_particle(c as int, p).cells);
        }
    }

    /// Number of chunk columns.
    pub fn width(&self) -> (r: usize)
        ensures
            r == self@.width,
    {
        self.width
    }

    /// Number of chunk rows.
    pub fn height(&self) -> (r: usize)
        ensures
            r == self@.height,
    {
        self.height
    }

    /// Side length of a chunk.
    pub fn chunk_size(&self) -> (r: i64)
        ensures
            r == CHUNK_SIZE,
    {
        CHUNK_SIZE
    }

    /// Number of particle types.
    pub fn type_count(&self) -> (r: usize)
        ensures
            r == self.types@.len(),
    {
        self.types.len()
    }

    /// The particles of the chunk at column `cx`, row `cy`.
    pub fn particles(&self, cx: usize, cy: usize) -> (r: &Vec<Particle>)
        requires
            self.grid_wf(),
            cx < self.width,
            cy < self.height,
        ensures
            r@ == self@.cells[cell(cx as int, cy as int, self.height as int)],
    {
        assert(self.width * self.height == self.chunks.len());
        let c = cell_index(cx, cy, self.width, self.height);
        &self.chunks[c].particles
    }

    /// World position of the particle `p` of the chunk at column `cx`, row
    /// `cy`.
    pub fn world_position(&self, cx: usize, cy: usize, p: &Particle) -> (r: (i128, i128))
        requires
            self.grid_wf(),
            cx < self.width,
            cy < self.height,
        ensures
            r.0 == world_coordinate(cx as int, p.x as int, self.width as int),
            r.1 == world_coordinate(cy as int, p.y as int, self.height as int),
    {
        (axis_position(cx, p.x, self.width), axis_position(cy, p.y, self.height))
    }
}

/// World coordinate of a local coordinate, wrapped into the world.
pub fn axis_position(index: usize, local: i64, count: usize) -> (r: i128)
    requires
        index < count,
    ensures
        r == world_coordinate(index as int, local as int, count as int),
{
    let span: i128 = (count as i128) * (CHUNK_SIZE as i128);
    let raw: i128 = (index as i128) * (CHUNK_SIZE as i128) + (local as i128);
    if raw >= 0 {
        raw % span
    } else {
        let back: i128 = (-raw) % span;
        proof {
            let a = raw as int;
            let m = span as int;
            lemma_fundamental_div_mod(-a, m);
            lemma_mod_bound(-a, m);
            let q = (-a) / m;
            if back == 0 {
                assert(a == (-q) * m + 0) by (nonlinear_arith)
                    requires
                        -a == m * q + 0,
                ;
                lemma_fundamental_div_mod_converse(a, m, -q, 0);
            } else {
                assert(a == (-q - 1) * m + (m - back)) by (nonlinear_arith)
                    requires
                        -a == m * q + back,
                ;
                lemma_fundamental_div_mod_converse(a, m, -q - 1, m - back);
            }
        }
        if back == 0 {
            0
        } else {
            span - back
        }
    }
}

} // verus!
