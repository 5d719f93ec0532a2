use particle_life::migration::{classify, relocate, Exit};
use particle_life::particle::{Color, Particle, ParticleType};
use particle_life::scalar::{CHUNK_SIZE, LIMIT, UNIT};
use particle_life::simulation::{accelerate, advance, integrate, tick};
use particle_life::world::World;

fn fixed(v: f64) -> i64 {
    (v * 1e6).round() as i64
}

fn table(rows: &[&[f64]]) -> Vec<ParticleType> {
    rows.iter()
        .enumerate()
        .map(|(i, row)| ParticleType {
            id: i,
            color: Color { r: 0, g: 0, b: 0 },
            coefficients: row.iter().map(|c| fixed(*c)).collect(),
        })
        .collect()
}

fn world_of(w: usize, h: usize, coefficient: f64) -> World {
    World::new(w, h, table(&[&[coefficient]])).unwrap()
}

fn count(world: &World) -> usize {
    world.chunks.iter().map(|c| c.particles.len()).sum()
}

fn snapshot(world: &World) -> Vec<Vec<Particle>> {
    world.chunks.iter().map(|c| c.particles.clone()).collect()
}

fn still(x: f64, y: f64) -> Particle {
    Particle { x: fixed(x), y: fixed(y), vx: 0, vy: 0, type_id: 0 }
}

#[test]
fn attraction_acts_across_the_wrap() {
    let mut world = world_of(2, 2, 1.0);
    world.add_particle(fixed(1.0), fixed(5.0), 0, 0, 0);
    world.add_particle(fixed(19.0), fixed(5.0), 0, 0, 0);
    assert_eq!(world.particles(0, 0)[0], still(1.0, 5.0));
    assert_eq!(world.particles(1, 0)[0], still(9.0, 5.0));
    tick(&mut world, fixed(1.0));
    let left = world.particles(0, 0)[0];
    let right = world.particles(1, 0)[0];
    assert!(left.vx < 0);
    assert!(right.vx > 0);
    // 1.0 * 2.0 * 1.0 * 0.2 / 4.0 = 0.1, damped once
    assert_eq!(left, Particle { x: 900_010, y: 5_000_000, vx: -99_990, vy: 0, type_id: 0 });
    assert_eq!(right, Particle { x: 9_099_990, y: 5_000_000, vx: 99_990, vy: 0, type_id: 0 });
}

#[test]
fn close_particles_are_pushed_apart() {
    let mut world = world_of(3, 3, 1.0);
    world.add_particle(fixed(14.0), fixed(14.0), 0, 0, 0);
    world.add_particle(fixed(14.5), fixed(14.0), 0, 0, 0);
    tick(&mut world, fixed(1.0));
    let here = world.particles(1, 1);
    assert_eq!(here.len(), 2);
    assert!(here[0].vx < 0);
    assert!(here[1].vx > 0);
    // 1.0 * 0.5 * 1.0 * 0.2 / -0.25 = -0.4; each sees two candidates, itself
    // and the other, and is damped after both
    assert_eq!((here[0].vx, here[0].vy), (-399_960, 0));
    assert_eq!((here[1].vx, here[1].vy), (399_920, 0));
    assert_eq!(here[0].x, fixed(4.0) - 399_960);
    assert_eq!(here[1].x, fixed(4.5) + 399_920);
}

#[test]
fn forces_read_the_positions_of_the_start_of_the_tick() {
    let mut world = world_of(1, 1, 1.0);
    world.add_particle(fixed(2.0), fixed(2.0), 0, 0, 0);
    world.add_particle(fixed(4.0), fixed(2.0), 0, 0, 0);
    let forced = accelerate(&world, fixed(1.0));
    assert_eq!(forced[0][0].x, fixed(2.0));
    assert_eq!(forced[0][1].x, fixed(4.0));
    // own chunk, then its three images beside, across and above in the
    // one-chunk world: eight candidates, seven of them act
    assert!(forced[0][0].vx > 0);
    assert!(forced[0][1].vx < 0);
    assert_eq!(snapshot(&world)[0], vec![still(2.0, 2.0), still(4.0, 2.0)]);
}

#[test]
fn lone_particle_in_a_one_chunk_world_meets_its_own_images() {
    let mut world = world_of(1, 1, 1.0);
    world.add_particle(fixed(5.0), fixed(5.0), 0, 0, 0);
    let forced = accelerate(&world, fixed(1.0));
    // itself: skipped, damped. Image beside at (-5, 5): dx = -10, d2 = 100:
    // -0.02, damped -> -19998. Image across at (-5, -5): dx = dy = -10,
    // d2 = 200: -0.01 each -> vx (-19998 - 10000) damped = -29995,
    // vy -10000 damped = -9999. Image above at (5, -5): dy = -10, d2 = 100:
    // vx -29995 damped -> -29992, vy (-9999 - 20000) damped -> -29996.
    assert_eq!((forced[0][0].vx, forced[0][0].vy), (-29_992, -29_996));
}

#[test]
fn quadrant_selects_the_chunks_that_are_scanned() {
    // One particle in the middle chunk of a 3 x 3 world, one in each of the
    // other eight chunks at the same local place.
    for (x, y, seen) in [
        (2.0, 2.0, [(0usize, 1usize), (0, 0), (1, 0)]),
        (2.0, 8.0, [(0, 1), (0, 2), (1, 2)]),
        (8.0, 2.0, [(2, 1), (2, 0), (1, 0)]),
        (8.0, 8.0, [(2, 1), (2, 2), (1, 2)]),
    ] {
        for cx in 0..3usize {
            for cy in 0..3usize {
                if (cx, cy) == (1, 1) {
                    continue;
                }
                let mut world = world_of(3, 3, 1.0);
                world.add_particle(fixed(10.0 + x), fixed(10.0 + y), 0, 0, 0);
                world.add_particle(fixed(10.0 * cx as f64 + x), fixed(10.0 * cy as f64 + y), 0, 0, 0);
                let forced = accelerate(&world, fixed(1.0));
                let p = forced[4][0];
                let acted = (p.vx, p.vy) != (0, 0);
                assert_eq!(acted, seen.contains(&(cx, cy)), "{:?} from {:?}", (x, y), (cx, cy));
            }
        }
    }
}

#[test]
fn particle_on_the_half_line_looks_west_and_north() {
    let mut world = world_of(3, 3, 1.0);
    world.add_particle(fixed(15.0), fixed(15.0), 0, 0, 0);
    world.add_particle(fixed(8.0), fixed(15.0), 0, 0, 0);
    world.add_particle(fixed(22.0), fixed(15.0), 0, 0, 0);
    world.add_particle(fixed(15.0), fixed(8.0), 0, 0, 0);
    world.add_particle(fixed(15.0), fixed(22.0), 0, 0, 0);
    let forced = accelerate(&world, fixed(1.0));
    let p = forced[4][0];
    assert!(p.vx < 0);
    assert!(p.vy < 0);
}

#[test]
fn zero_delta_only_damps() {
    let mut world = world_of(1, 1, 1.0);
    world.add_particle(fixed(2.0), fixed(2.0), 1_000_000, -1_000_000, 0);
    let forced = accelerate(&world, 0);
    // four candidates: the particle and its three images
    // 1000000 -> 999900 -> 999800 -> 999700 -> 999600
    assert_eq!((forced[0][0].vx, forced[0][0].vy), (999_600, -999_600));
}

#[test]
fn integration_adds_the_velocity() {
    let p = Particle { x: 10, y: 20, vx: -30, vy: 5, type_id: 2 };
    assert_eq!(advance(p), Particle { x: -20, y: 25, vx: -30, vy: 5, type_id: 2 });
    let mut grid = vec![vec![p, p], vec![], vec![Particle { x: LIMIT, vx: 1, ..p }]];
    integrate(&mut grid);
    assert_eq!(grid[0], vec![advance(p), advance(p)]);
    assert!(grid[1].is_empty());
    assert_eq!(grid[2][0].x, LIMIT);
    assert_eq!(grid[2][0].y, 25);
}

#[test]
fn exits_are_tested_in_order() {
    let at = |x: i64, y: i64| Particle { x, y, vx: 0, vy: 0, type_id: 0 };
    assert_eq!(classify(&at(0, 0)), Exit::Stay);
    assert_eq!(classify(&at(CHUNK_SIZE, CHUNK_SIZE)), Exit::Stay);
    assert_eq!(classify(&at(-1, 5)), Exit::West);
    assert_eq!(classify(&at(5, -1)), Exit::North);
    assert_eq!(classify(&at(CHUNK_SIZE + 1, 5)), Exit::East);
    assert_eq!(classify(&at(5, CHUNK_SIZE + 1)), Exit::South);
    assert_eq!(classify(&at(-1, -1)), Exit::West);
    assert_eq!(classify(&at(-1, CHUNK_SIZE + 1)), Exit::West);
    assert_eq!(classify(&at(CHUNK_SIZE + 1, -1)), Exit::North);
    assert_eq!(classify(&at(CHUNK_SIZE + 1, CHUNK_SIZE + 1)), Exit::East);
}

#[test]
fn relocation_shifts_one_axis_by_one_chunk() {
    let at = |x: i64, y: i64| Particle { x, y, vx: 3, vy: 4, type_id: 1 };
    assert_eq!(relocate(at(-1, 5)), at(CHUNK_SIZE - 1, 5));
    assert_eq!(relocate(at(5, -1)), at(5, CHUNK_SIZE - 1));
    assert_eq!(relocate(at(CHUNK_SIZE + 1, 5)), at(1, 5));
    assert_eq!(relocate(at(5, CHUNK_SIZE + 1)), at(5, 1));
    assert_eq!(relocate(at(5, 5)), at(5, 5));
    assert_eq!(relocate(at(-1, -1)), at(CHUNK_SIZE - 1, -1));
    assert_eq!(relocate(at(-CHUNK_SIZE - 1, 5)), at(-1, 5));
}

#[test]
fn migration_hands_particles_to_the_four_neighbours() {
    let mut world = world_of(3, 3, 0.0);
    let moved = |x: f64, y: f64| {
        let mut grid: Vec<Vec<Particle>> = vec![Vec::new(); 9];
        grid[4].push(still(x, y));
        grid
    };
    world.migrate(&moved(-1.0, 5.0));
    assert_eq!(world.particles(0, 1), &vec![still(9.0, 5.0)]);
    assert_eq!(count(&world), 1);
    world.migrate(&moved(5.0, -1.0));
    assert_eq!(world.particles(1, 0), &vec![still(5.0, 9.0)]);
    assert_eq!(count(&world), 1);
    world.migrate(&moved(11.0, 5.0));
    assert_eq!(world.particles(2, 1), &vec![still(1.0, 5.0)]);
    world.migrate(&moved(5.0, 11.0));
    assert_eq!(world.particles(1, 2), &vec![still(5.0, 1.0)]);
    world.migrate(&moved(5.0, 5.0));
    assert_eq!(world.particles(1, 1), &vec![still(5.0, 5.0)]);
    assert_eq!(count(&world), 1);
}

#[test]
fn migration_wraps_around_the_world() {
    let mut world = world_of(3, 2, 0.0);
    let mut grid: Vec<Vec<Particle>> = vec![Vec::new(); 6];
    grid[0].push(still(-2.0, 5.0));
    grid[0].push(still(5.0, -2.0));
    grid[5].push(still(12.0, 5.0));
    grid[5].push(still(5.0, 12.0));
    world.migrate(&grid);
    assert_eq!(world.particles(2, 0), &vec![still(8.0, 5.0), still(5.0, 2.0)]);
    assert_eq!(world.particles(0, 1), &vec![still(5.0, 8.0), still(2.0, 5.0)]);
    assert_eq!(count(&world), 4);
    assert!(snapshot(&world)[0].is_empty());
    assert!(snapshot(&world)[5].is_empty());
}

#[test]
fn migration_orders_arrivals_by_source() {
    let mut world = world_of(2, 1, 0.0);
    let mut grid: Vec<Vec<Particle>> = vec![Vec::new(); 2];
    grid[0].push(still(1.0, 1.0));
    grid[0].push(still(11.0, 2.0));
    grid[0].push(still(3.0, 3.0));
    grid[1].push(still(-4.0, 4.0));
    grid[1].push(still(5.0, 5.0));
    world.migrate(&grid);
    assert_eq!(world.particles(0, 0), &vec![still(1.0, 1.0), still(3.0, 3.0), still(6.0, 4.0)]);
    assert_eq!(world.particles(1, 0), &vec![still(1.0, 2.0), still(5.0, 5.0)]);
}

#[test]
fn migration_replaces_what_the_chunks_held() {
    let mut world = world_of(2, 2, 0.0);
    world.add_particle(fixed(3.0), fixed(3.0), 0, 0, 0);
    world.add_particle(fixed(13.0), fixed(13.0), 0, 0, 0);
    let grid: Vec<Vec<Particle>> = vec![Vec::new(), vec![still(7.0, 7.0)], Vec::new(), Vec::new()];
    world.migrate(&grid);
    assert_eq!(count(&world), 1);
    assert_eq!(world.particles(0, 1), &vec![still(7.0, 7.0)]);
}

#[test]
fn particle_on_the_far_edge_stays() {
    let mut world = world_of(2, 2, 0.0);
    let grid: Vec<Vec<Particle>> =
        vec![vec![still(10.0, 5.0), still(5.0, 10.0)], Vec::new(), Vec::new(), Vec::new()];
    world.migrate(&grid);
    assert_eq!(world.particles(0, 0), &vec![still(10.0, 5.0), still(5.0, 10.0)]);
    assert!(!world.particles(0, 0)[0].is_in_chunk());
}

#[test]
fn particle_leaving_through_a_corner_is_corrected_along_one_axis() {
    let mut world = world_of(3, 3, 0.0);
    world.add_particle(fixed(19.0), fixed(19.0), fixed(2.0), fixed(2.0), 0);
    tick(&mut world, 0);
    assert_eq!(count(&world), 1);
    let here = world.particles(2, 1);
    assert_eq!(here.len(), 1);
    // the particle is its only candidate: damped once, 2000000 -> 1999800
    assert_eq!((here[0].x, here[0].y), (fixed(1.0) - 200, fixed(11.0) - 200));
    assert!(!here[0].is_in_chunk());
}

#[test]
fn fast_particle_is_moved_by_one_chunk_only() {
    let mut world = world_of(4, 1, 0.0);
    world.add_particle(fixed(5.0), fixed(5.0), fixed(25.0), 0, 0);
    tick(&mut world, 0);
    assert_eq!(count(&world), 1);
    let here = world.particles(1, 0);
    assert_eq!(here.len(), 1);
    // candidates: the particle, and its image above in the world of one row;
    // 25000000 damped twice -> 24995000; 5 + 24.995 - 10 = 19.995
    assert_eq!(here[0].x, 19_995_000);
}

#[test]
fn tick_moves_a_particle_into_the_next_chunk() {
    let mut world = world_of(2, 2, 0.0);
    world.add_particle(fixed(9.5), fixed(5.0), fixed(1.0), 0, 0);
    tick(&mut world, fixed(1.0));
    assert!(world.particles(0, 0).is_empty());
    let here = world.particles(1, 0);
    assert_eq!(here.len(), 1);
    // the particle is its only candidate: damped once
    assert_eq!(here[0].vx, 999_900);
    assert_eq!(here[0].x, fixed(9.5) + 999_900 - CHUNK_SIZE);
    assert!(here[0].is_in_chunk());
}

#[test]
fn tick_conserves_the_population() {
    let mut world = World::new(4, 3, table(&[&[1.0, -0.5], &[0.3, -1.0]])).unwrap();
    let mut seed: u64 = 12345;
    let mut next = |bound: u64| {
        seed = seed.wrapping_mul(6364136223846793005).wrapping_add(1442695040888963407);
        (seed >> 33) % bound
    };
    for _ in 0..300 {
        let x = next(40_000) as i64 * 1000;
        let y = next(30_000) as i64 * 1000;
        let vx = next(4_000_000) as i64 - 2_000_000;
        let vy = next(4_000_000) as i64 - 2_000_000;
        let t = next(2) as usize;
        world.add_particle(x, y, vx, vy, t);
    }
    assert_eq!(count(&world), 300);
    for _ in 0..20 {
        tick(&mut world, fixed(0.16));
        assert_eq!(count(&world), 300);
    }
    let mut kinds = [0usize; 2];
    for chunk in &world.chunks {
        for p in &chunk.particles {
            kinds[p.type_id] += 1;
        }
    }
    assert_eq!(kinds[0] + kinds[1], 300);
}

#[test]
fn population_is_conserved_for_any_speed() {
    let mut world = world_of(2, 2, 1.0);
    world.add_particle(fixed(5.0), fixed(5.0), LIMIT, -LIMIT, 0);
    world.add_particle(fixed(15.0), fixed(5.0), -LIMIT, LIMIT, 0);
    world.add_particle(fixed(15.0), fixed(15.0), fixed(35.0), fixed(-35.0), 0);
    for _ in 0..5 {
        tick(&mut world, LIMIT);
        assert_eq!(count(&world), 3);
    }
    for chunk in &world.chunks {
        for p in &chunk.particles {
            assert!(-LIMIT <= p.x && p.x <= LIMIT);
            assert!(-LIMIT <= p.y && p.y <= LIMIT);
            assert!(-LIMIT <= p.vx && p.vx <= LIMIT);
            assert!(-LIMIT <= p.vy && p.vy <= LIMIT);
        }
    }
}

#[test]
fn slow_particles_stay_inside_their_chunks() {
    let mut world = world_of(3, 3, 0.0);
    world.add_particle(fixed(0.5), fixed(5.0), fixed(-1.0), 0, 0);
    world.add_particle(fixed(9.5), fixed(15.0), fixed(1.0), 0, 0);
    world.add_particle(fixed(15.0), fixed(0.5), 0, fixed(-1.0), 0);
    world.add_particle(fixed(25.0), fixed(29.5), 0, fixed(1.0), 0);
    world.add_particle(fixed(14.0), fixed(14.0), fixed(0.5), fixed(0.25), 0);
    for _ in 0..40 {
        tick(&mut world, fixed(1.0));
        assert_eq!(count(&world), 5);
        for chunk in &world.chunks {
            for p in &chunk.particles {
                assert!(p.is_in_chunk());
                assert!(0 <= p.x && p.x < CHUNK_SIZE && 0 <= p.y && p.y < CHUNK_SIZE);
            }
        }
    }
}

#[test]
fn tick_is_deterministic() {
    let build = || {
        let mut world =
            World::new(3, 2, table(&[&[0.5, -0.25, 1.0], &[-1.0, 0.75, 0.1], &[0.0, 0.3, -0.6]]))
                .unwrap();
        let mut s: u64 = 99;
        for _ in 0..120 {
            s = s.wrapping_mul(6364136223846793005).wrapping_add(1442695040888963407);
            let x = ((s >> 20) % 30_000_000) as i64;
            let y = ((s >> 40) % 20_000_000) as i64;
            world.add_particle(x, y, 0, 0, (s % 3) as usize);
        }
        world
    };
    let mut a = build();
    let mut b = build();
    for _ in 0..10 {
        tick(&mut a, fixed(0.5));
        tick(&mut b, fixed(0.5));
        assert_eq!(snapshot(&a), snapshot(&b));
    }
    assert_eq!(a.width, b.width);
    assert_eq!(a.height, b.height);
}

#[test]
fn tick_keeps_grid_and_types() {
    let mut world = World::new(3, 2, table(&[&[0.5, -0.25], &[-1.0, 0.75]])).unwrap();
    world.add_particle(fixed(3.0), fixed(3.0), 0, 0, 1);
    let links: Vec<(usize, usize, usize, usize)> =
        world.chunks.iter().map(|c| (c.north, c.south, c.west, c.east)).collect();
    tick(&mut world, UNIT);
    let after: Vec<(usize, usize, usize, usize)> =
        world.chunks.iter().map(|c| (c.north, c.south, c.west, c.east)).collect();
    assert_eq!(links, after);
    assert_eq!((world.width(), world.height(), world.type_count()), (3, 2, 2));
    assert_eq!(world.types[1].coefficients, vec![-1_000_000, 750_000]);
    assert_eq!(world.types[0].id, 0);
    assert_eq!(world.particles(0, 0)[0].type_id, 1);
}

#[test]
fn coefficients_are_read_by_row_of_the_attracted_type() {
    let mut world = World::new(1, 1, table(&[&[0.0, 1.0], &[0.0, 0.0]])).unwrap();
    world.add_particle(fixed(2.0), fixed(2.0), 0, 0, 0);
    world.add_particle(fixed(4.0), fixed(2.0), 0, 0, 1);
    let forced = accelerate(&world, fixed(1.0));
    assert!(forced[0][0].vx != 0);
    assert_eq!((forced[0][1].vx, forced[0][1].vy), (0, 0));
}

#[test]
fn empty_world_ticks() {
    let mut world = world_of(2, 2, 1.0);
    tick(&mut world, UNIT);
    assert_eq!(count(&world), 0);
}
