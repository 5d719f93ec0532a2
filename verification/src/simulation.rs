//! One tick of the simulation: the force phase, then integration, then
//! migration, each finished before the next begins.
use vstd::prelude::*;
use crate::force::candidates_valid;
use crate::migration::{
    all_in_chunk, all_recoverable, chunk_delivered, classify, delivered, destination,
    lemma_migration_conserves, lemma_migration_settles, migrated, migrated_upto, recoverable,
    relocate, Exit,
};
use crate::particle::{table_valid, Particle};
use crate::scalar::{clamp, in_range, saturate, CHUNK_SIZE};
use crate::world::{headcount, World, WorldView};

verus! {

/// The particle `p` after it has moved by its velocity.
pub open spec fn advanced(p: Particle) -> Particle {
    Particle { x: clamp(p.x + p.vx) as i64, y: clamp(p.y + p.vy) as i64, ..p }
}

/// The cells after every particle has moved by its velocity.
pub open spec fn advanced_all(cells: Seq<Seq<Particle>>) -> Seq<Seq<Particle>> {
    Seq::new(cells.len(), |c: int| Seq::new(cells[c].len(), |i: int| advanced(cells[c][i])))
}

/// The particle lists that a vector of chunks' worth of particles holds.
pub open spec fn rows(grid: Seq<Vec<Particle>>) -> Seq<Seq<Particle>> {
    Seq::new(grid.len(), |c: int| grid[c]@)
}

/// Whether every particle of `cells` is storable and has one of `types`
/// types.
pub open spec fn staffed(cells: Seq<Seq<Particle>>, types: int) -> bool {
    forall|c: int| 0 <= c < cells.len() ==> candidates_valid(#[trigger] cells[c], types)
}

impl WorldView {
    /// The cells after the force phase: every particle with the velocity
    /// that the particles around it give it, all of them taken where they
    /// were when the tick began.
    pub open spec fn accelerated(self, delta: int) -> Seq<Seq<Particle>> {
        Seq::new(
            self.cells.len(),
            |c: int| Seq::new(self.cells[c].len(), |i: int| self.forced(c, i, delta)),
        )
    }

    /// The cells after the force phase and integration.
    pub open spec fn moved(self, delta: int) -> Seq<Seq<Particle>> {
        advanced_all(self.accelerated(delta))
    }

    /// The world after one tick with the scale `delta`.
    pub open spec fn ticked(self, delta: int) -> WorldView {
        WorldView { cells: migrated(self.moved(delta), self.width, self.height), ..self }
    }
}

/// A tick neither drops nor duplicates a particle.
pub proof fn lemma_tick_conserves(world: WorldView, delta: int)
    requires
        world.valid(),
    ensures
        world.ticked(delta).cells.len() == world.cells.len(),
        world.ticked(delta).population() == world.population(),
{
    let moved = world.moved(delta);
    lemma_migration_conserves(moved, world.width, world.height);
    lemma_headcount_by_lengths(moved, world.cells, world.cells.len() as int);
}

/// Two grids whose chunks have the same lengths hold the same number of
/// particles.
pub proof fn lemma_headcount_by_lengths(a: Seq<Seq<Particle>>, b: Seq<Seq<Particle>>, n: int)
    requires
        0 <= n <= a.len(),
        n <= b.len(),
        forall|c: int| 0 <= c < n ==> (#[trigger] a[c]).len() == b[c].len(),
    ensures
        headcount(a, n) == headcount(b, n),
    decreases n,
{
    if n > 0 {
        lemma_headcount_by_lengths(a, b, n - 1);
    }
}

/// After a tick every particle lies inside the chunk that owns it exactly if
/// the force phase and integration have left every particle recoverable. A
/// particle that started inside its chunk and is slower than one chunk per
/// tick is recoverable unless it has left through a corner or has come to lie
/// on the far edge.
pub proof fn lemma_tick_settles(world: WorldView, delta: int)
    requires
        world.valid(),
    ensures
        world.ticked(delta).settled() <==> all_recoverable(
            world.moved(delta),
            world.cells.len() as int,
        ),
{
    let moved = world.moved(delta);
    lemma_migration_settles(moved, world.width, world.height);
    let after = world.ticked(delta);
    if all_in_chunk(after.cells) {
        assert forall|c: int, i: int|
            0 <= c < after.cells.len() && 0 <= i < after.cells[c].len() implies (
        #[trigger] after.cells[c][i]).in_chunk() by {}
    }
    if after.settled() {
        assert(all_in_chunk(after.cells));
    }
}

/// A particle that lies inside its chunk and is slower than one chunk per
/// tick along both axes is recoverable after it has moved, unless it has left
/// through a corner or has come to lie on the far edge of the chunk.
pub proof fn lemma_slow_particle(p: Particle)
    requires
        p.in_chunk(),
        -CHUNK_SIZE < p.vx < CHUNK_SIZE,
        -CHUNK_SIZE < p.vy < CHUNK_SIZE,
    ensures
        -CHUNK_SIZE < advanced(p).x < 2 * CHUNK_SIZE,
        -CHUNK_SIZE < advanced(p).y < 2 * CHUNK_SIZE,
        recoverable(advanced(p)) <==> {
            &&& (0 <= advanced(p).x < CHUNK_SIZE || 0 <= advanced(p).y < CHUNK_SIZE)
            &&& advanced(p).x != CHUNK_SIZE
            &&& advanced(p).y != CHUNK_SIZE
        },
{
}

/// A tick is a function of the world and the scale: equal worlds and equal
/// scales give equal worlds.
pub proof fn lemma_tick_deterministic(a: WorldView, b: WorldView, delta_a: int, delta_b: int)
    requires
        a == b,
        delta_a == delta_b,
    ensures
        a.ticked(delta_a) == b.ticked(delta_b),
{
}

/// Moves `p` by its velocity.
pub fn advance(p: Particle) -> (r: Particle)
    requires
        p.bounded(),
    ensures
        r == advanced(p),
        r.bounded(),
{
    Particle {
        x: saturate(p.x as i128 + p.vx as i128),
        y: saturate(p.y as i128 + p.vy as i128),
        vx: p.vx,
        vy: p.vy,
        type_id: p.type_id,
    }
}

/// The force phase: computes for every particle the velocity that the
/// particles around it give it. The world is only read, so every force is
/// computed from the positions at the beginning of the tick.
pub fn accelerate(world: &World, delta: i64) -> (r: Vec<Vec<Particle>>)
    requires
        world.wf(),
        in_range(delta as int),
    ensures
        rows(r@) == world@.accelerated(delta as int),
        staffed(rows(r@), world.types@.len() as int),
{
    let n = world.chunks.len();
    let mut grid: Vec<Vec<Particle>> = Vec::new();
    let mut c: usize = 0;
    while c < n
        invariant
            world.wf(),
            in_range(delta as int),
            n == world.chunks@.len(),
            c <= n,
            grid@.len() == c,
            forall|k: int|
                0 <= k < c ==> (#[trigger] grid@[k])@ == world@.accelerated(delta as int)[k],
            forall|k: int|
                0 <= k < c ==> candidates_valid(
                    (#[trigger] grid@[k])@,
                    world.types@.len() as int,
                ),
        decreases n - c,
    {
        let len = world.chunks[c].particles.len();
        let mut row: Vec<Particle> = Vec::new();
        let mut i: usize = 0;
        while i < len
            invariant
                world.wf(),
                in_range(delta as int),
                c < world.chunks@.len(),
                len == world.chunks@[c as int].particles@.len(),
                i <= len,
                row@.len() == i,
                forall|j: int|
                    0 <= j < i ==> #[trigger] row@[j] == world@.forced(
                        c as int,
                        j,
                        delta as int,
                    ),
                forall|j: int|
                    0 <= j < i ==> (#[trigger] row@[j]).bounded() && row@[j].type_id
                        < world.types@.len(),
            decreases len - i,
        {
            let p = world.force_on(c, i, delta);
            assert(world.chunks@[c as int].particles@[i as int].type_id < world.types@.len());
            row.push(p);
            i += 1;
        }
        assert(row@ =~= world@.accelerated(delta as int)[c as int]);
        grid.push(row);
        c += 1;
    }
    assert(rows(grid@) =~= world@.accelerated(delta as int));
    grid
}

/// Integration: moves every particle by its velocity.
pub fn integrate(grid: &mut Vec<Vec<Particle>>)
    requires
        forall|c: int, i: int|
            0 <= c < old(grid)@.len() && 0 <= i < old(grid)@[c]@.len() ==> (
            #[trigger] old(grid)@[c]@[i]).bounded(),
    ensures
        rows(final(grid)@) == advanced_all(rows(old(grid)@)),
        forall|c: int, i: int|
            0 <= c < final(grid)@.len() && 0 <= i < final(grid)@[c]@.len() ==> {
                &&& (#[trigger] final(grid)@[c]@[i]).bounded()
                &&& final(grid)@[c]@[i].type_id == old(grid)@[c]@[i].type_id
            },
{
    let ghost before = grid@;
    let n = grid.len();
    let mut c: usize = 0;
    while c < n
        invariant
            n == before.len(),
            grid@.len() == n,
            c <= n,
            forall|k: int, i: int|
                0 <= k < n && 0 <= i < before[k]@.len() ==> (#[trigger] before[k]@[i]).bounded(),
            forall|k: int| 0 <= k < n ==> (#[trigger] grid@[k])@.len() == before[k]@.len(),
            forall|k: int, i: int|
                0 <= k < c && 0 <= i < before[k]@.len() ==> #[trigger] grid@[k]@[i] == advanced(
                    before[k]@[i],
                ),
            forall|k: int, i: int|
                c <= k < n && 0 <= i < before[k]@.len() ==> #[trigger] grid@[k]@[i]
                    == before[k]@[i],
        decreases n - c,
    {
        let len = grid[c].len();
        let mut i: usize = 0;
        while i < len
            invariant
                n == before.len(),
                grid@.len() == n,
                c < n,
                len == before[c as int]@.len(),
                i <= len,
                forall|k: int, j: int|
                    0 <= k < n && 0 <= j < before[k]@.len() ==> (#[trigger] before[k]@[j]).bounded(),
                forall|k: int| 0 <= k < n ==> (#[trigger] grid@[k])@.len() == before[k]@.len(),
                forall|k: int, j: int|
                    0 <= k < c && 0 <= j < before[k]@.len() ==> #[trigger] grid@[k]@[j]
                        == advanced(before[k]@[j]),
                forall|k: int, j: int|
                    c < k < n && 0 <= j < before[k]@.len() ==> #[trigger] grid@[k]@[j]
                        == before[k]@[j],
                forall|j: int|
                    0 <= j < i ==> #[trigger] grid@[c as int]@[j] == advanced(
                        before[c as int]@[j],
                    ),
                forall|j: int|
                    i <= j < len ==> #[trigger] grid@[c as int]@[j] == before[c as int]@[j],
            decreases len - i,
        {
            let p = grid[c][i];
            assert(before[c as int]@[i as int].bounded());
            grid[c][i] = advance(p);
            i += 1;
        }
        c += 1;
    }
    proof {
        let after = rows(grid@);
        let goal = advanced_all(rows(before));
        assert(after.len() == goal.len());
        assert forall|k: int| 0 <= k < after.len() implies #[trigger] after[k] == goal[k] by {
            assert(after[k] =~= goal[k]);
        }
        assert(after =~= goal);
        assert forall|k: int, i: int| 0 <= k < grid@.len() && 0 <= i < grid@[k]@.len() implies {
            &&& (#[trigger] grid@[k]@[i]).bounded()
            &&& grid@[k]@[i].type_id == before[k]@[i].type_id
        } by {
            assert(before[k]@[i].bounded());
        }
    }
}

impl World {
    /// Migration: empties every chunk and hands each particle of `moved`,
    /// whose list `c` holds the particles that the chunk `c` owned, to the
    /// chunk that owns it now.
    pub fn migrate(&mut self, moved: &Vec<Vec<Particle>>)
        requires
            old(self).grid_wf(),
            table_valid(old(self).types@),
            moved@.len() == old(self).chunks@.len(),
            staffed(rows(moved@), old(self).types@.len() as int),
        ensures
            final(self).wf(),
            final(self).types == old(self).types,
            final(self).width == old(self).width,
            final(self).height == old(self).height,
            final(self)@.cells == migrated(
                rows(moved@),
                old(self).width as int,
                old(self).height as int,
            ),
    {
        let ghost w = self.width as int;
        let ghost h = self.height as int;
        let ghost source = rows(moved@);
        let n = self.chunks.len();
        let mut c: usize = 0;
        while c < n
            invariant
                self.grid_wf(),
                self.types == old(self).types,
                self.width == w,
                self.height == h,
                n == self.chunks@.len(),
                c <= n,
                forall|k: int| 0 <= k < c ==> (#[trigger] self.chunks@[k]).particles@.len() == 0,
            decreases n - c,
        {
            let ghost before = self.chunks@;
            self.chunks[c].particles = Vec::new();
            proof {
                assert forall|k: int| 0 <= k < self.chunks@.len() implies (
                #[trigger] self.chunks@[k]).linked(k, w, h) by {
                    assert(before[k].linked(k, w, h));
                }
            }
            c += 1;
        }
        proof {
            assert(self@.cells =~= migrated_upto(source, w, h, 0)) by {
                assert forall|k: int| 0 <= k < self@.cells.len() implies #[trigger] self@.cells[k]
                    =~= Seq::<Particle>::empty() by {
                    assert(self.chunks@[k].particles@.len() == 0);
                }
            }
        }
        c = 0;
        while c < n
            invariant
                self.grid_wf(),
                self.particles_wf(),
                table_valid(self.types@),
                self.types == old(self).types,
                self.width == w,
                self.height == h,
                n == self.chunks@.len(),
                n == moved@.len(),
                source == rows(moved@),
                staffed(source, self.types@.len() as int),
                c <= n,
                self@.cells == migrated_upto(source, w, h, c as int),
            decreases n - c,
        {
            let len = moved[c].len();
            let mut i: usize = 0;
            while i < len
                invariant
                    self.grid_wf(),
                    self.particles_wf(),
                    table_valid(self.types@),
                    self.types == old(self).types,
                    self.width == w,
                    self.height == h,
                    n == self.chunks@.len(),
                    n == moved@.len(),
                    source == rows(moved@),
                    staffed(source, self.types@.len() as int),
                    c < n,
                    len == moved@[c as int]@.len(),
                    i <= len,
                    self@.cells == chunk_delivered(
                        migrated_upto(source, w, h, c as int),
                        source[c as int],
                        c as int,
                        w,
                        h,
                        i as int,
                    ),
                decreases len - i,
            {
                let p = moved[c][i];
                proof {
                    self.lemma_links_close(c as int);
                    assert(self.chunks@[c as int].linked(c as int, w, h));
                    assert(source[c as int][i as int] == p);
                    assert(candidates_valid(source[c as int], self.types@.len() as int));
                    assert(p.bounded() && p.type_id < self.types@.len());
                }
                let d: usize = match classify(&p) {
                    Exit::West => self.chunks[c].west,
                    Exit::North => self.chunks[c].north,
                    Exit::East => self.chunks[c].east,
                    Exit::South => self.chunks[c].south,
                    Exit::Stay => c,
                };
                let q = relocate(p);
                let ghost before = *self;
                self.chunks[d].particles.push(q);
                proof {
                    assert(d == destination(c as int, p, w, h));
                    assert forall|k: int| 0 <= k < self.chunks@.len() implies (
                    #[trigger] self.chunks@[k]).linked(k, w, h) by {
                        assert(before.chunks@[k].linked(k, w, h));
                    }
                    assert forall|k: int, j: int|
                        0 <= k < self.chunks@.len() && 0 <= j
                            < self.chunks@[k].particles@.len() implies {
                        &&& (#[trigger] self.chunks@[k].particles@[j]).bounded()
                        &&& self.chunks@[k].particles@[j].type_id < self.types@.len()
                    } by {
                        if k == d && j == before.chunks@[k].particles@.len() {
                        } else {
                            assert(before.chunks@[k].particles@[j].bounded());
                        }
                    }
                    assert(self@.cells =~= delivered(before@.cells, c as int, p, w, h));
                }
                i += 1;
            }
            c += 1;
        }
        proof {
            assert(self@.cells == migrated(source, w, h));
        }
    }
}

/// Advances the world by one step: every particle takes the velocity that
/// the particles around it give it, then every particle moves by its
/// velocity, then every particle that left its chunk is handed to the next
/// chunk. `delta` scales the forces.
pub fn tick(world: &mut World, delta: i64)
    requires
        old(world).wf(),
        in_range(delta as int),
    ensures
        final(world).wf(),
        final(world).types == old(world).types,
        final(world)@ == old(world)@.ticked(delta as int),
        final(world)@.population() == old(world)@.population(),
        final(world)@.settled() <==> all_recoverable(
            old(world)@.moved(delta as int),
            old(world)@.cells.len() as int,
        ),
{
    proof {
        world.lemma_view_valid();
        lemma_tick_conserves(world@, delta as int);
        lemma_tick_settles(world@, delta as int);
    }
    let mut grid = accelerate(world, delta);
    let ghost forced = rows(grid@);
    proof {
        assert forall|c: int, i: int|
            0 <= c < grid@.len() && 0 <= i < grid@[c]@.len() implies (#[trigger] grid@[c]@[i]).bounded() by {
            assert(candidates_valid(forced[c], world.types@.len() as int));
            assert(forced[c][i].bounded());
        }
    }
    integrate(&mut grid);
    proof {
        let types = world.types@.len() as int;
        assert(rows(grid@).len() == forced.len());
        assert forall|c: int| 0 <= c < rows(grid@).len() implies candidates_valid(
            #[trigger] rows(grid@)[c],
            types,
        ) by {
            assert(candidates_valid(forced[c], types));
            assert forall|i: int| 0 <= i < rows(grid@)[c].len() implies (
            #[trigger] rows(grid@)[c][i]).bounded() && rows(grid@)[c][i].type_id < types by {
                assert(grid@[c]@[i].bounded());
                assert(forced[c][i].type_id < types);
            }
        }
    }
    world.migrate(&grid);
}

} // verus!
