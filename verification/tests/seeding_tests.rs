use particle_life::particle::{check_table, Color, Particle};
use particle_life::scalar::{CHUNK_SIZE, UNIT};
use particle_life::seeding::{coefficient_of, random_table, scatter};
use particle_life::simulation::tick;
use particle_life::world::World;
use rand::rngs::StdRng;
use rand::SeedableRng;

fn palette(n: u8) -> Vec<Color> {
    (0..n).map(|i| Color { r: i, g: 255 - i, b: 7 }).collect()
}

fn everyone(world: &World) -> Vec<Particle> {
    world.chunks.iter().flat_map(|c| c.particles.iter().copied()).collect()
}

#[test]
fn coefficient_counts_ten_thousandths() {
    assert_eq!(coefficient_of(0), 0);
    assert_eq!(coefficient_of(1), 100);
    assert_eq!(coefficient_of(-10_000), -UNIT);
    assert_eq!(coefficient_of(9_999), UNIT - 100);
    assert_eq!(coefficient_of(-2_500), -250_000);
}

#[test]
fn random_table_is_valid() {
    let mut rng = StdRng::seed_from_u64(42);
    let colors = palette(13);
    let table = random_table(&mut rng, &colors);
    assert_eq!(table.len(), 13);
    assert!(check_table(&table));
    for (i, t) in table.iter().enumerate() {
        assert_eq!(t.id, i);
        assert_eq!(t.color, colors[i]);
        assert_eq!(t.coefficients.len(), 13);
        for c in &t.coefficients {
            assert!(-UNIT <= *c && *c < UNIT);
            assert_eq!(*c % 100, 0);
        }
    }
}

#[test]
fn random_table_draws_different_coefficients() {
    let mut rng = StdRng::seed_from_u64(1);
    let table = random_table(&mut rng, &palette(8));
    let mut all: Vec<i64> = table.iter().flat_map(|t| t.coefficients.clone()).collect();
    all.sort();
    all.dedup();
    assert!(all.len() > 32);
    assert!(all.iter().any(|c| *c < 0));
    assert!(all.iter().any(|c| *c > 0));
}

#[test]
fn random_table_of_no_colours_is_empty() {
    let mut rng = StdRng::seed_from_u64(5);
    let table = random_table(&mut rng, &Vec::new());
    assert!(table.is_empty());
}

#[test]
fn equal_seeds_give_equal_tables() {
    let mut a = StdRng::seed_from_u64(77);
    let mut b = StdRng::seed_from_u64(77);
    let ta = random_table(&mut a, &palette(5));
    let tb = random_table(&mut b, &palette(5));
    for (x, y) in ta.iter().zip(tb.iter()) {
        assert_eq!(x.coefficients, y.coefficients);
    }
    let mut c = StdRng::seed_from_u64(78);
    let tc = random_table(&mut c, &palette(5));
    assert!(ta.iter().zip(tc.iter()).any(|(x, y)| x.coefficients != y.coefficients));
}

#[test]
fn scatter_adds_resting_particles_inside_their_chunks() {
    let mut rng = StdRng::seed_from_u64(3);
    let table = random_table(&mut rng, &palette(4));
    let mut world = World::new(8, 6, table).unwrap();
    scatter(&mut world, &mut rng, 1000);
    let all = everyone(&world);
    assert_eq!(all.len(), 1000);
    for p in &all {
        assert!(p.is_in_chunk());
        assert_eq!(p.x % 1000, 0);
        assert_eq!(p.y % 1000, 0);
        assert_eq!((p.vx, p.vy), (0, 0));
        assert!(p.type_id < 4);
    }
    let occupied = world.chunks.iter().filter(|c| !c.particles.is_empty()).count();
    assert!(occupied > 40);
    let mut kinds = [0usize; 4];
    for p in &all {
        kinds[p.type_id] += 1;
    }
    assert!(kinds.iter().all(|k| *k > 100));
    let mut places: Vec<(i64, i64)> = all.iter().map(|p| (p.x, p.y)).collect();
    places.sort();
    places.dedup();
    assert!(places.len() > 900);
    assert!(all.iter().any(|p| p.x > CHUNK_SIZE / 2));
    assert!(all.iter().any(|p| p.y > CHUNK_SIZE / 2));
}

#[test]
fn scatter_keeps_what_the_world_held() {
    let mut rng = StdRng::seed_from_u64(9);
    let table = random_table(&mut rng, &palette(2));
    let mut world = World::new(2, 2, table).unwrap();
    world.add_particle(1_234_567, 7_654_321, 11, -12, 1);
    world.add_particle(1_000_001, 7_000_001, 13, -14, 0);
    scatter(&mut world, &mut rng, 200);
    assert_eq!(everyone(&world).len(), 202);
    let first = world.particles(0, 0);
    assert_eq!(first[0], Particle { x: 1_234_567, y: 7_654_321, vx: 11, vy: -12, type_id: 1 });
    assert_eq!(first[1], Particle { x: 1_000_001, y: 7_000_001, vx: 13, vy: -14, type_id: 0 });
}

#[test]
fn scatter_of_nothing_changes_nothing() {
    let mut rng = StdRng::seed_from_u64(9);
    let table = random_table(&mut rng, &palette(2));
    let mut world = World::new(3, 3, table).unwrap();
    scatter(&mut world, &mut rng, 0);
    assert!(everyone(&world).is_empty());
}

#[test]
fn scattered_world_ticks() {
    let mut rng = StdRng::seed_from_u64(2024);
    let table = random_table(&mut rng, &palette(13));
    let mut world = World::new(8, 6, table).unwrap();
    scatter(&mut world, &mut rng, 500);
    for _ in 0..10 {
        tick(&mut world, 160_000);
        assert_eq!(everyone(&world).len(), 500);
    }
    let moving = everyone(&world).iter().filter(|p| p.vx != 0 || p.vy != 0).count();
    assert!(moving > 250);
}
