//! Migration: after the particles have moved, each one that left its chunk is
//! handed to the adjacent chunk on the side where it left.
//!
//! Every particle is looked at once per tick and handed over at most once,
//! along one axis. A particle that is slower than one chunk per tick and
//! leaves through an edge is inside its new chunk afterwards; one that is
//! faster, or leaves through a corner, keeps a coordinate outside the chunk
//! that owns it.
use vstd::prelude::*;
use crate::particle::Particle;
use crate::scalar::CHUNK_SIZE;
use crate::torus::{east_of, lemma_neighbours_inside, north_of, south_of, west_of};
use crate::world::headcount;

verus! {

/// The side through which a particle has left its chunk.
#[derive(Clone, Copy, Debug, PartialEq, Eq, Structural)]
pub enum Exit {
    Stay,
    West,
    North,
    East,
    South,
}

/// Where `p` goes: west if `x < 0`, else north if `y < 0`, else east if
/// `x > CHUNK_SIZE`, else south if `y > CHUNK_SIZE`, else nowhere.
pub open spec fn exit_of(p: Particle) -> Exit {
    if p.x < 0 {
        Exit::West
    } else if p.y < 0 {
        Exit::North
    } else if p.x > CHUNK_SIZE {
        Exit::East
    } else if p.y > CHUNK_SIZE {
        Exit::South
    } else {
        Exit::Stay
    }
}

/// The particle `p` with its position made relative to the chunk it goes to.
pub open spec fn relocated(p: Particle) -> Particle {
    match exit_of(p) {
        Exit::West => Particle { x: (p.x + CHUNK_SIZE) as i64, ..p },
        Exit::North => Particle { y: (p.y + CHUNK_SIZE) as i64, ..p },
        Exit::East => Particle { x: (p.x - CHUNK_SIZE) as i64, ..p },
        Exit::South => Particle { y: (p.y - CHUNK_SIZE) as i64, ..p },
        Exit::Stay => p,
    }
}

/// The chunk that owns `p` after migration, if the chunk `c` owned it before.
pub open spec fn destination(c: int, p: Particle, w: int, h: int) -> int {
    match exit_of(p) {
        Exit::West => west_of(c, w, h),
        Exit::North => north_of(c, w, h),
        Exit::East => east_of(c, w, h),
        Exit::South => south_of(c, w, h),
        Exit::Stay => c,
    }
}

/// Whether migration can bring `p` back inside a chunk: one coordinate lies
/// inside the chunk, the other less than one chunk outside it and not on the
/// far edge itself.
pub open spec fn recoverable(p: Particle) -> bool {
    ||| (0 <= p.x < CHUNK_SIZE && -CHUNK_SIZE <= p.y < 2 * CHUNK_SIZE && p.y != CHUNK_SIZE)
    ||| (0 <= p.y < CHUNK_SIZE && -CHUNK_SIZE <= p.x < 2 * CHUNK_SIZE && p.x != CHUNK_SIZE)
}

/// The cells after `p`, which the chunk `c` owned, has been handed to the
/// chunk it goes to.
pub open spec fn delivered(cells: Seq<Seq<Particle>>, c: int, p: Particle, w: int, h: int) -> Seq<
    Seq<Particle>,
> {
    let d = destination(c, p, w, h);
    cells.update(d, cells[d].push(relocated(p)))
}

/// The cells after the first `n` of `leaving`, the particles of the chunk
/// `c`, have been delivered in order.
pub open spec fn chunk_delivered(
    cells: Seq<Seq<Particle>>,
    leaving: Seq<Particle>,
    c: int,
    w: int,
    h: int,
    n: int,
) -> Seq<Seq<Particle>>
    decreases n,
{
    if n <= 0 {
        cells
    } else {
        delivered(chunk_delivered(cells, leaving, c, w, h, n - 1), c, leaving[n - 1], w, h)
    }
}

/// The cells after the particles of the first `k` chunks of `moved` have been
/// delivered, chunk by chunk, into a grid that was empty.
pub open spec fn migrated_upto(moved: Seq<Seq<Particle>>, w: int, h: int, k: int) -> Seq<
    Seq<Particle>,
>
    decreases k,
{
    if k <= 0 {
        Seq::new(moved.len(), |c: int| Seq::<Particle>::empty())
    } else {
        chunk_delivered(
            migrated_upto(moved, w, h, k - 1),
            moved[k - 1],
            k - 1,
            w,
            h,
            moved[k - 1].len() as int,
        )
    }
}

/// The cells after migration: each chunk holds the particles that go to it,
/// in the order of the chunks they come from and of their place there.
pub open spec fn migrated(moved: Seq<Seq<Particle>>, w: int, h: int) -> Seq<Seq<Particle>> {
    migrated_upto(moved, w, h, moved.len() as int)
}

/// Migration brings a particle inside its chunk exactly if it is recoverable.
pub proof fn lemma_recoverable(p: Particle)
    ensures
        relocated(p).in_chunk() <==> recoverable(p),
{
}

/// Handing one particle over keeps the number of chunks and adds one
/// particle.
pub proof fn lemma_delivered(cells: Seq<Seq<Particle>>, c: int, p: Particle, w: int, h: int)
    requires
        0 < w,
        0 < h,
        cells.len() == w * h,
        0 <= c < cells.len(),
    ensures
        delivered(cells, c, p, w, h).len() == cells.len(),
        0 <= destination(c, p, w, h) < cells.len(),
        headcount(delivered(cells, c, p, w, h), cells.len() as int) == headcount(
            cells,
            cells.len() as int,
        ) + 1,
{
    lemma_neighbours_inside(c, w, h);
    let d = destination(c, p, w, h);
    lemma_headcount_update(cells, d, cells[d].push(relocated(p)), cells.len() as int);
}

/// Replacing the chunk `d` changes the head count of the first `n` chunks by
/// the difference in length, if `d` is among them.
pub proof fn lemma_headcount_update(cells: Seq<Seq<Particle>>, d: int, row: Seq<Particle>, n: int)
    requires
        0 <= d < cells.len(),
        0 <= n <= cells.len(),
    ensures
        headcount(cells.update(d, row), n) == headcount(cells, n) + (if d < n {
            row.len() - cells[d].len()
        } else {
            0
        }),
    decreases n,
{
    if n > 0 {
        lemma_headcount_update(cells, d, row, n - 1);
    }
}

/// Delivering the first `n` particles of a chunk keeps the number of chunks
/// and adds `n` particles.
pub proof fn lemma_chunk_delivered(
    cells: Seq<Seq<Particle>>,
    leaving: Seq<Particle>,
    c: int,
    w: int,
    h: int,
    n: int,
)
    requires
        0 < w,
        0 < h,
        cells.len() == w * h,
        0 <= c < cells.len(),
        0 <= n <= leaving.len(),
    ensures
        chunk_delivered(cells, leaving, c, w, h, n).len() == cells.len(),
        headcount(chunk_delivered(cells, leaving, c, w, h, n), cells.len() as int) == headcount(
            cells,
            cells.len() as int,
        ) + n,
    decreases n,
{
    if n > 0 {
        lemma_chunk_delivered(cells, leaving, c, w, h, n - 1);
        lemma_delivered(chunk_delivered(cells, leaving, c, w, h, n - 1), c, leaving[n - 1], w, h);
    }
}

/// Migration keeps the number of chunks, and the cells hold as many
/// particles as the chunks that have been delivered.
pub proof fn lemma_migrated_upto(moved: Seq<Seq<Particle>>, w: int, h: int, k: int)
    requires
        0 < w,
        0 < h,
        moved.len() == w * h,
        0 <= k <= moved.len(),
    ensures
        migrated_upto(moved, w, h, k).len() == moved.len(),
        headcount(migrated_upto(moved, w, h, k), moved.len() as int) == headcount(moved, k),
    decreases k,
{
    if k > 0 {
        lemma_migrated_upto(moved, w, h, k - 1);
        lemma_chunk_delivered(
            migrated_upto(moved, w, h, k - 1),
            moved[k - 1],
            k - 1,
            w,
            h,
            moved[k - 1].len() as int,
        );
    } else {
        lemma_headcount_empty(moved.len() as int, moved.len() as int);
    }
}

/// A grid of empty chunks holds no particle.
pub proof fn lemma_headcount_empty(len: int, n: int)
    requires
        0 <= n <= len,
    ensures
        headcount(Seq::new(len as nat, |c: int| Seq::<Particle>::empty()), n) == 0,
    decreases n,
{
    if n > 0 {
        lemma_headcount_empty(len, n - 1);
    }
}

/// Migration neither drops nor duplicates a particle: the cells hold as many
/// particles after it as before.
pub proof fn lemma_migration_conserves(moved: Seq<Seq<Particle>>, w: int, h: int)
    requires
        0 < w,
        0 < h,
        moved.len() == w * h,
    ensures
        migrated(moved, w, h).len() == moved.len(),
        headcount(migrated(moved, w, h), moved.len() as int) == headcount(moved, moved.len() as int),
{
    lemma_migrated_upto(moved, w, h, moved.len() as int);
}

/// Whether every particle of `cells` lies inside the chunk that owns it.
pub open spec fn all_in_chunk(cells: Seq<Seq<Particle>>) -> bool {
    forall|c: int, i: int|
        0 <= c < cells.len() && 0 <= i < cells[c].len() ==> (#[trigger] cells[c][i]).in_chunk()
}

/// Whether every particle of the first `k` chunks of `moved` is recoverable.
pub open spec fn all_recoverable(moved: Seq<Seq<Particle>>, k: int) -> bool {
    forall|c: int, i: int|
        0 <= c < k && 0 <= i < moved[c].len() ==> recoverable(#[trigger] moved[c][i])
}

proof fn lemma_chunk_delivered_in_chunk(
    cells: Seq<Seq<Particle>>,
    leaving: Seq<Particle>,
    c: int,
    w: int,
    h: int,
    n: int,
)
    requires
        0 < w,
        0 < h,
        cells.len() == w * h,
        0 <= c < cells.len(),
        0 <= n <= leaving.len(),
    ensures
        all_in_chunk(chunk_delivered(cells, leaving, c, w, h, n)) <==> all_in_chunk(cells) && (
        forall|i: int| 0 <= i < n ==> recoverable(#[trigger] leaving[i])),
    decreases n,
{
    if n > 0 {
        lemma_chunk_delivered_in_chunk(cells, leaving, c, w, h, n - 1);
        lemma_chunk_delivered(cells, leaving, c, w, h, n - 1);
        let before = chunk_delivered(cells, leaving, c, w, h, n - 1);
        let p = leaving[n - 1];
        lemma_delivered(before, c, p, w, h);
        lemma_recoverable(p);
        let d = destination(c, p, w, h);
        let after = delivered(before, c, p, w, h);
        if all_in_chunk(before) && recoverable(p) {
            assert forall|k: int, i: int|
                0 <= k < after.len() && 0 <= i < after[k].len() implies (
            #[trigger] after[k][i]).in_chunk() by {
                if k == d && i == before[d].len() {
                } else {
                    assert(before[k][i].in_chunk());
                }
            }
        }
        if all_in_chunk(after) {
            assert forall|k: int, i: int|
                0 <= k < before.len() && 0 <= i < before[k].len() implies (
            #[trigger] before[k][i]).in_chunk() by {
                assert(after[k][i] == before[k][i]);
                assert(after[k][i].in_chunk());
            }
            assert(after[d][before[d].len() as int] == relocated(p));
            assert(after[d][before[d].len() as int].in_chunk());
        }
    }
}

proof fn lemma_migrated_upto_in_chunk(moved: Seq<Seq<Particle>>, w: int, h: int, k: int)
    requires
        0 < w,
        0 < h,
        moved.len() == w * h,
        0 <= k <= moved.len(),
    ensures
        all_in_chunk(migrated_upto(moved, w, h, k)) <==> all_recoverable(moved, k),
    decreases k,
{
    if k > 0 {
        lemma_migrated_upto_in_chunk(moved, w, h, k - 1);
        lemma_migrated_upto(moved, w, h, k - 1);
        lemma_chunk_delivered_in_chunk(
            migrated_upto(moved, w, h, k - 1),
            moved[k - 1],
            k - 1,
            w,
            h,
            moved[k - 1].len() as int,
        );
        if all_recoverable(moved, k) {
            assert forall|i: int| 0 <= i < moved[k - 1].len() implies recoverable(
                #[trigger] moved[k - 1][i],
            ) by {}
            assert(all_recoverable(moved, k - 1));
        }
        if all_recoverable(moved, k - 1) && (forall|i: int|
            0 <= i < moved[k - 1].len() ==> recoverable(#[trigger] moved[k - 1][i])) {
            assert(all_recoverable(moved, k));
        }
    }
}

/// After migration every particle lies inside the chunk that owns it exactly
/// if every particle was recoverable before.
pub proof fn lemma_migration_settles(moved: Seq<Seq<Particle>>, w: int, h: int)
    requires
        0 < w,
        0 < h,
        moved.len() == w * h,
    ensures
        all_in_chunk(migrated(moved, w, h)) <==> all_recoverable(moved, moved.len() as int),
{
    lemma_migrated_upto_in_chunk(moved, w, h, moved.len() as int);
}

/// Tells through which side `p` has left its chunk.
pub fn classify(p: &Particle) -> (r: Exit)
    ensures
        r == exit_of(*p),
{
    if p.x < 0 {
        Exit::West
    } else if p.y < 0 {
        Exit::North
    } else if p.x > CHUNK_SIZE {
        Exit::East
    } else if p.y > CHUNK_SIZE {
        Exit::South
    } else {
        Exit::Stay
    }
}

/// Makes the position of `p` relative to the chunk it goes to.
pub fn relocate(p: Particle) -> (r: Particle)
    ensures
        r == relocated(p),
        p.bounded() ==> r.bounded(),
{
    match classify(&p) {
        Exit::West => Particle { x: p.x + CHUNK_SIZE, y: p.y, vx: p.vx, vy: p.vy, type_id: p.type_id },
        Exit::North => Particle { x: p.x, y: p.y + CHUNK_SIZE, vx: p.vx, vy: p.vy, type_id: p.type_id },
        Exit::East => Particle { x: p.x - CHUNK_SIZE, y: p.y, vx: p.vx, vy: p.vy, type_id: p.type_id },
        Exit::South => Particle { x: p.x, y: p.y - CHUNK_SIZE, vx: p.vx, vy: p.vy, type_id: p.type_id },
        Exit::Stay => p,
    }
}

} // verus!
