//! Random worlds: a type table with random coefficients, and particles at
//! random places. The random numbers come from a generator of the `rand`
//! crate that the caller has seeded; nothing here depends on which numbers
//! come, only on the range they are drawn from.
use vstd::prelude::*;
use rand::rngs::StdRng;
use rand::Rng;
use crate::migration::lemma_headcount_update;
use crate::particle::{table_valid, Color, Particle, ParticleType};
use crate::scalar::{CHUNK_SIZE, UNIT};
use crate::world::{home_of, lemma_insertion_recovers, local_of, World};

verus! {

/// The standard generator of `rand`; its state is opaque here.
#[verifier::external_type_specification]
#[verifier::external_body]
pub struct ExStdRng(StdRng);

/// A drawn coefficient counts ten-thousandths: it is a multiple of
/// `COEFFICIENT_STEP` raw units.
pub const COEFFICIENT_STEP: i64 = 100;

/// Number of coefficient steps in `1.0`.
pub const COEFFICIENT_STEPS: i64 = 10_000;

/// A drawn coordinate counts thousandths: it is a multiple of `PLACE_STEP`
/// raw units.
pub const PLACE_STEP: i64 = 1_000;

/// Number of place steps in the side of a chunk.
pub const PLACES_PER_CHUNK: i64 = 10_000;

/// Calls `Rng::gen_range` of `rand` on the half-open range `low..high` of
/// `i64`. The range must not be empty, or `gen_range` panics; the number it
/// returns lies in the range. Which number comes depends on the state of the
/// generator, of which nothing is claimed.
#[verifier::external_body]
fn draw(rng: &mut StdRng, low: i64, high: i64) -> (r: i64)
    requires
        low < high,
    ensures
        low <= r < high,
{
    rng.gen_range(low..high)
}

/// Whether `c` can be drawn as a coefficient: a number of ten-thousandths
/// from `-1.0` up to, but not including, `1.0`.
pub open spec fn drawable_coefficient(c: int) -> bool {
    -UNIT <= c < UNIT && c % (COEFFICIENT_STEP as int) == 0
}

/// Whether `p` can be scattered into a world with `types` types: it rests
/// inside its chunk at a number of thousandths and has one of the types.
pub open spec fn scattered(p: Particle, types: int) -> bool {
    &&& p.in_chunk()
    &&& (p.x as int) % (PLACE_STEP as int) == 0
    &&& (p.y as int) % (PLACE_STEP as int) == 0
    &&& p.vx == 0
    &&& p.vy == 0
    &&& p.type_id < types
}

/// The coefficient that stands for `steps` ten-thousandths.
pub fn coefficient_of(steps: i64) -> (c: i64)
    requires
        -COEFFICIENT_STEPS <= steps < COEFFICIENT_STEPS,
    ensures
        c == steps * COEFFICIENT_STEP,
        drawable_coefficient(c as int),
{
    assert((steps * 100) % 100 == 0) by (nonlinear_arith);
    steps * COEFFICIENT_STEP
}

/// Makes a type table with one type for every colour of `colors` and a
/// random coefficient for every pair of types.
pub fn random_table(rng: &mut StdRng, colors: &Vec<Color>) -> (table: Vec<ParticleType>)
    ensures
        table@.len() == colors@.len(),
        table_valid(table@),
        forall|a: int| 0 <= a < table@.len() ==> (#[trigger] table@[a]).color == colors@[a],
        forall|a: int, b: int|
            0 <= a < table@.len() && 0 <= b < table@.len() ==> drawable_coefficient(
                #[trigger] table@[a].coefficients@[b] as int,
            ),
{
    let n = colors.len();
    let mut table: Vec<ParticleType> = Vec::new();
    let mut a: usize = 0;
    while a < n
        invariant
            n == colors@.len(),
            a <= n,
            table@.len() == a,
            forall|k: int|
                0 <= k < a ==> {
                    &&& (#[trigger] table@[k]).id == k
                    &&& table@[k].color == colors@[k]
                    &&& table@[k].coefficients@.len() == n
                    &&& forall|b: int|
                        0 <= b < n ==> drawable_coefficient(
                            #[trigger] table@[k].coefficients@[b] as int,
                        )
                },
        decreases n - a,
    {
        let mut row: Vec<i64> = Vec::new();
        let mut b: usize = 0;
        while b < n
            invariant
                b <= n,
                row@.len() == b,
                forall|j: int| 0 <= j < b ==> drawable_coefficient(#[trigger] row@[j] as int),
            decreases n - b,
        {
            let steps = draw(rng, -COEFFICIENT_STEPS, COEFFICIENT_STEPS);
            row.push(coefficient_of(steps));
            b += 1;
        }
        table.push(ParticleType { id: a, color: colors[a], coefficients: row });
        a += 1;
    }
    table
}

/// Adds `count` particles of random types at random places of the world,
/// all of them at rest. Every chunk keeps the particles it held, in their
/// order, in front of those it receives.
pub fn scatter(world: &mut World, rng: &mut StdRng, count: usize)
    requires
        old(world).wf(),
        old(world).types@.len() >= 1,
        old(world).width * CHUNK_SIZE <= i64::MAX,
        old(world).height * CHUNK_SIZE <= i64::MAX,
    ensures
        final(world).wf(),
        final(world).types == old(world).types,
        final(world)@.width == old(world)@.width,
        final(world)@.height == old(world)@.height,
        final(world)@.matrix == old(world)@.matrix,
        final(world)@.cells.len() == old(world)@.cells.len(),
        final(world)@.population() == old(world)@.population() + count,
        forall|c: int|
            0 <= c < old(world)@.cells.len() ==> old(world)@.cells[c] == (
            #[trigger] final(world)@.cells[c]).take(old(world)@.cells[c].len() as int),
        forall|c: int, i: int|
            0 <= c < old(world)@.cells.len() && old(world)@.cells[c].len() <= i
                < final(world)@.cells[c].len() ==> scattered(
                #[trigger] final(world)@.cells[c][i],
                old(world).types@.len() as int,
            ),
{
    let ghost start = world@;
    let ghost types = world.types@.len() as int;
    let types_bound: i64 = if world.types.len() as u64 > i64::MAX as u64 {
        i64::MAX
    } else {
        world.types.len() as i64
    };
    let columns: i64 = (world.width as i64) * PLACES_PER_CHUNK;
    let rows: i64 = (world.height as i64) * PLACES_PER_CHUNK;
    let mut k: usize = 0;
    while k < count
        invariant
            world.wf(),
            world.types == old(world).types,
            types == world.types@.len(),
            0 < types_bound <= types,
            columns == world.width * PLACES_PER_CHUNK,
            rows == world.height * PLACES_PER_CHUNK,
            world.width * CHUNK_SIZE <= i64::MAX,
            world.height * CHUNK_SIZE <= i64::MAX,
            start.cells.len() == start.width * start.height,
            world@.width == start.width,
            world@.height == start.height,
            world@.matrix == start.matrix,
            world@.cells.len() == start.cells.len(),
            k <= count,
            world@.population() == start.population() + k,
            forall|c: int|
                0 <= c < start.cells.len() ==> start.cells[c].len() <= (
                #[trigger] world@.cells[c]).len(),
            forall|c: int|
                0 <= c < start.cells.len() ==> start.cells[c] == (#[trigger] world@.cells[c]).take(
                    start.cells[c].len() as int,
                ),
            forall|c: int, i: int|
                0 <= c < start.cells.len() && start.cells[c].len() <= i
                    < world@.cells[c].len() ==> scattered(#[trigger] world@.cells[c][i], types),
        decreases count - k,
    {
        let x: i64 = draw(rng, 0, columns) * PLACE_STEP;
        let y: i64 = draw(rng, 0, rows) * PLACE_STEP;
        let t: i64 = draw(rng, 0, types_bound);
        let ghost before = world@;
        world.add_particle(x, y, 0, 0, t as usize);
        proof {
            let w = before.width;
            let h = before.height;
            let d = home_of(x as int, y as int, w, h);
            let p = Particle {
                x: local_of(x as int) as i64,
                y: local_of(y as int) as i64,
                vx: 0,
                vy: 0,
                type_id: t as usize,
            };
            lemma_insertion_recovers(x as int, y as int, w, h);
            lemma_headcount_update(
                before.cells,
                d,
                before.cells[d].push(p),
                before.cells.len() as int,
            );
            assert(local_of(x as int) % 1000 == 0) by {
                lemma_step_survives(x as int / 1000);
            }
            assert(local_of(y as int) % 1000 == 0) by {
                lemma_step_survives(y as int / 1000);
            }
            assert(scattered(p, types));
            assert forall|c: int| 0 <= c < start.cells.len() implies start.cells[c].len() <= (
            #[trigger] world@.cells[c]).len() by {
                assert(start.cells[c].len() <= before.cells[c].len());
            }
            assert forall|c: int| 0 <= c < start.cells.len() implies start.cells[c] == (
            #[trigger] world@.cells[c]).take(start.cells[c].len() as int) by {
                assert(start.cells[c].len() <= before.cells[c].len());
                assert(start.cells[c] == before.cells[c].take(start.cells[c].len() as int));
                assert(world@.cells[c].take(start.cells[c].len() as int)
                    =~= before.cells[c].take(start.cells[c].len() as int));
            }
            assert forall|c: int, i: int|
                0 <= c < start.cells.len() && start.cells[c].len() <= i
                    < world@.cells[c].len() implies scattered(
                #[trigger] world@.cells[c][i],
                types,
            ) by {
                assert(start.cells[c].len() <= before.cells[c].len());
                if c == d && i == before.cells[d].len() {
                } else {
                    assert(scattered(before.cells[c][i], types));
                }
            }
        }
        k += 1;
    }
}

/// A coordinate that counts thousandths still does so when it is taken
/// relative to its chunk.
proof fn lemma_step_survives(n: int)
    ensures
        ((n * 1000) % 10_000_000) % 1000 == 0,
        (n * 1000) / 1000 == n,
{
    assert(((n * 1000) % 10_000_000) % 1000 == 0) by (nonlinear_arith);
    assert((n * 1000) / 1000 == n) by (nonlinear_arith);
}

} // verus!
