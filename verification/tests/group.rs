use fireworks::group::{
    create_particle, Color, ParticleGroup, BURST_SIZE, MAX_PARTICLES_COLOR, OFF_CANVAS, PARKED,
    UNTOUCHED,
};
use fireworks::particle::Particle;
use fireworks::random::random_burst;
use fireworks::vector::Vector;

const GRAVITY: Vector = Vector { x: 0, y: -4_000 };

fn vacant() -> Particle {
    Particle {
        position: Vector { x: PARKED, y: PARKED },
        velocity: Vector { x: 0, y: 0 },
        acceleration: Vector { x: 0, y: 0 },
        alive: false,
        exploded: true,
        is_sub: false,
    }
}

fn falling_rocket_at(x: i64) -> (Vector, Vector) {
    (Vector { x, y: 7_000_000 }, Vector { x: 0, y: -60_000 })
}

fn burst_velocities() -> Vec<Vector> {
    (0..BURST_SIZE as i64).map(|k| Vector { x: 10_000 * (k + 1), y: -5_000 * k }).collect()
}

#[test]
fn constants_of_the_pool() {
    assert_eq!(MAX_PARTICLES_COLOR, 1000);
    assert_eq!(BURST_SIZE, 19);
    assert_eq!(OFF_CANVAS, 9_999_900_000);
    assert_eq!(UNTOUCHED, -9_999_900_000);
    assert_eq!(PARKED, -999_900_000);
}

#[test]
fn a_fresh_pool_is_vacant() {
    let group = ParticleGroup::new(Color::Magenta);
    assert_eq!(group.color(), Color::Magenta);
    assert_eq!(group.write_cursor(), 0);
    assert_eq!(group.particles().len(), MAX_PARTICLES_COLOR);
    assert_eq!(group.coordinates().len(), MAX_PARTICLES_COLOR);
    for i in 0..MAX_PARTICLES_COLOR {
        assert_eq!(group.particles()[i], vacant());
        assert_eq!(group.coordinates()[i], (UNTOUCHED, UNTOUCHED));
    }
}

#[test]
fn a_launch_takes_the_slot_at_the_cursor() {
    let mut group = ParticleGroup::new(Color::Red);
    let position = Vector { x: 3_000_000, y: -50_000_000 };
    let velocity = Vector { x: -80_000, y: 1_200_000 };
    create_particle(&mut group, false, position, velocity);
    assert_eq!(group.write_cursor(), 1);
    assert_eq!(group.particles()[0], Particle::new(false, position, velocity));
    assert_eq!(group.coordinates()[0], (3_000_000, -50_000_000));
    assert_eq!(group.particles()[1], vacant());
    assert_eq!(group.coordinates()[1], (UNTOUCHED, UNTOUCHED));
    create_particle(&mut group, true, velocity, position);
    assert_eq!(group.write_cursor(), 2);
    assert_eq!(group.particles()[1], Particle::new(true, velocity, position));
    assert_eq!(group.coordinates()[1], (-80_000, 1_200_000));
    assert_eq!(group.particles()[0], Particle::new(false, position, velocity));
    assert_eq!(group.color(), Color::Red);
}

#[test]
fn the_ring_wraps_after_the_last_slot() {
    let mut group = ParticleGroup::new(Color::Blue);
    for n in 0..MAX_PARTICLES_COLOR as i64 {
        create_particle(&mut group, false, Vector { x: n, y: -n }, Vector { x: 0, y: 1_000_000 });
    }
    assert_eq!(group.write_cursor(), 0);
    assert_eq!(group.particles()[0].position, Vector { x: 0, y: 0 });
    let last = MAX_PARTICLES_COLOR as i64;
    create_particle(&mut group, true, Vector { x: last, y: -last }, Vector { x: 1, y: 2 });
    assert_eq!(group.write_cursor(), 1);
    assert_eq!(
        group.particles()[0],
        Particle::new(true, Vector { x: last, y: -last }, Vector { x: 1, y: 2 })
    );
    assert_eq!(group.coordinates()[0], (last, -last));
    assert_eq!(group.particles()[1].position, Vector { x: 1, y: -1 });
    assert_eq!(group.particles()[999].position, Vector { x: 999, y: -999 });
}

#[test]
fn a_pool_that_is_not_overrun_loses_nothing() {
    let mut group = ParticleGroup::new(Color::Green);
    for n in 0..MAX_PARTICLES_COLOR as i64 {
        assert!(!group.particles()[group.write_cursor()].alive);
        create_particle(
            &mut group,
            n % 2 == 0,
            Vector { x: n, y: 2 * n },
            Vector { x: 3 * n, y: 4 * n },
        );
        for m in 0..=n {
            let p = group.particles()[m as usize];
            assert!(p.alive);
            assert_eq!(p.position, Vector { x: m, y: 2 * m });
        }
    }
    for n in 0..MAX_PARTICLES_COLOR as i64 {
        assert_eq!(
            group.particles()[n as usize],
            Particle::new(n % 2 == 0, Vector { x: n, y: 2 * n }, Vector { x: 3 * n, y: 4 * n })
        );
        assert_eq!(group.coordinates()[n as usize], (n, 2 * n));
    }
}

#[test]
fn a_step_moves_a_flying_rocket_and_its_coordinate() {
    let mut group = ParticleGroup::new(Color::Blue);
    create_particle(
        &mut group,
        false,
        Vector { x: 0, y: -50_000_000 },
        Vector { x: 0, y: 1_200_000 },
    );
    let due = group.advance(0, GRAVITY);
    assert!(!due);
    let p = group.particles()[0];
    assert!(p.alive);
    assert_eq!(p.velocity, Vector { x: 0, y: 1_196_000 });
    assert_eq!(p.position, Vector { x: 0, y: -48_804_000 });
    assert_eq!(group.coordinates()[0], (0, -48_804_000));
    assert_eq!(group.write_cursor(), 1);
    assert_eq!(group.particles()[1], vacant());
    assert_eq!(group.coordinates()[1], (UNTOUCHED, UNTOUCHED));
}

#[test]
fn a_step_leaves_a_vacant_slot_off_the_canvas() {
    let mut group = ParticleGroup::new(Color::Blue);
    for n in 1..=20 {
        let due = group.advance(5, GRAVITY);
        assert!(!due);
        let p = group.particles()[5];
        assert_eq!(p, Particle { acceleration: Vector { x: 0, y: -4_000 * n }, ..vacant() });
        assert_eq!(group.coordinates()[5], (OFF_CANVAS, OFF_CANVAS));
        assert_eq!(group.coordinates()[4], (UNTOUCHED, UNTOUCHED));
        assert_eq!(group.write_cursor(), 0);
    }
}

#[test]
fn a_fresh_pool_stays_quiet() {
    let mut rng = rand::thread_rng();
    let mut group = ParticleGroup::new(Color::Blue);
    for _ in 0..30 {
        group.tick(GRAVITY, &mut rng);
        assert_eq!(group.write_cursor(), 0);
        for i in 0..MAX_PARTICLES_COLOR {
            let p = group.particles()[i];
            assert!(!p.alive && p.exploded && !p.is_sub);
            assert_eq!(p.position, Vector { x: PARKED, y: PARKED });
            assert_eq!(group.coordinates()[i], (OFF_CANVAS, OFF_CANVAS));
        }
    }
}

#[test]
fn a_step_retires_a_falling_rocket_and_says_so() {
    let mut group = ParticleGroup::new(Color::Blue);
    let (position, velocity) = falling_rocket_at(1_000_000);
    create_particle(&mut group, false, position, velocity);
    let due = group.advance(0, GRAVITY);
    assert!(due);
    let p = group.particles()[0];
    assert!(!p.alive);
    assert!(!p.exploded);
    assert_eq!(p.position, position);
    assert_eq!(group.coordinates()[0], (OFF_CANVAS, OFF_CANVAS));
    assert_eq!(group.write_cursor(), 1);
}

#[test]
fn a_falling_fragment_is_never_due() {
    let mut group = ParticleGroup::new(Color::Blue);
    let (position, velocity) = falling_rocket_at(1_000_000);
    create_particle(&mut group, true, position, velocity);
    for _ in 0..50 {
        assert!(!group.advance(0, GRAVITY));
        let p = group.particles()[0];
        assert!(p.alive);
        assert_eq!(group.coordinates()[0], (p.position.x, p.position.y));
    }
}

#[test]
fn a_burst_launches_one_fragment_for_each_velocity() {
    let mut group = ParticleGroup::new(Color::Yellow);
    let (position, velocity) = falling_rocket_at(2_000_000);
    create_particle(&mut group, false, position, velocity);
    assert!(group.advance(0, GRAVITY));
    let velocities = burst_velocities();
    let retired = group.particles()[0];
    group.burst(0, &velocities);
    assert_eq!(group.write_cursor(), 1 + BURST_SIZE);
    assert_eq!(group.particles()[0], Particle { exploded: true, ..retired });
    assert_eq!(group.coordinates()[0], (OFF_CANVAS, OFF_CANVAS));
    for k in 0..BURST_SIZE {
        assert_eq!(group.particles()[1 + k], Particle::new(true, position, velocities[k]));
        assert_eq!(group.coordinates()[1 + k], (position.x, position.y));
    }
    assert_eq!(group.particles()[1 + BURST_SIZE], vacant());
    assert_eq!(group.coordinates()[1 + BURST_SIZE], (UNTOUCHED, UNTOUCHED));
    let fragments = group.particles().iter().filter(|p| p.is_sub).count();
    assert_eq!(fragments, BURST_SIZE);
}

#[test]
fn a_burst_may_overwrite_the_slot_that_bursts() {
    let mut group = ParticleGroup::new(Color::Yellow);
    for _ in 0..MAX_PARTICLES_COLOR - 1 {
        create_particle(&mut group, true, Vector { x: 1, y: 1 }, Vector { x: 0, y: 0 });
    }
    let (position, velocity) = falling_rocket_at(3_000_000);
    create_particle(&mut group, false, position, velocity);
    for _ in 0..5 {
        create_particle(&mut group, true, Vector { x: 2, y: 2 }, Vector { x: 0, y: 0 });
    }
    assert_eq!(group.write_cursor(), 5);
    assert!(group.advance(999, GRAVITY));
    let velocities = burst_velocities();
    // The cursor sits at 995 when slot 999 bursts.
    for _ in 0..990 {
        create_particle(&mut group, true, Vector { x: 3, y: 3 }, Vector { x: 0, y: 0 });
    }
    assert_eq!(group.write_cursor(), 995);
    group.burst(999, &velocities);
    assert_eq!(group.write_cursor(), 14);
    for k in 0..BURST_SIZE {
        let slot = (995 + k) % MAX_PARTICLES_COLOR;
        let expected = Particle::new(true, position, velocities[k]);
        if slot == 999 {
            assert_eq!(group.particles()[slot], Particle { exploded: true, ..expected });
        } else {
            assert_eq!(group.particles()[slot], expected);
        }
        assert_eq!(group.coordinates()[slot], (position.x, position.y));
    }
    assert_eq!(group.particles()[14].position, Vector { x: 3, y: 3 });
    assert!(!group.advance(999, GRAVITY));
}

#[test]
fn a_burst_without_velocities_only_latches() {
    let mut group = ParticleGroup::new(Color::White);
    let (position, velocity) = falling_rocket_at(0);
    create_particle(&mut group, false, position, velocity);
    assert!(group.advance(0, GRAVITY));
    group.burst(0, &Vec::new());
    assert_eq!(group.write_cursor(), 1);
    assert!(group.particles()[0].exploded);
    assert!(!group.advance(0, GRAVITY));
}

#[test]
fn an_exploded_rocket_does_not_burst_again() {
    let mut group = ParticleGroup::new(Color::Yellow);
    let (position, velocity) = falling_rocket_at(2_000_000);
    create_particle(&mut group, false, position, velocity);
    assert!(group.advance(0, GRAVITY));
    group.burst(0, &burst_velocities());
    let cursor = group.write_cursor();
    let others: Vec<Particle> = group.particles()[1..].to_vec();
    for _ in 0..100 {
        assert!(!group.advance(0, GRAVITY));
        let p = group.particles()[0];
        assert!(!p.alive);
        assert!(p.exploded);
        assert!(!p.is_sub);
        assert_eq!(p.position, position);
        assert_eq!(group.coordinates()[0], (OFF_CANVAS, OFF_CANVAS));
        assert_eq!(group.write_cursor(), cursor);
        assert_eq!(group.particles()[1..].to_vec(), others);
    }
}

#[test]
fn a_tick_launches_nineteen_fragments_for_each_burst() {
    let mut rng = rand::thread_rng();
    let mut group = ParticleGroup::new(Color::Green);
    for n in 0..3 {
        let (position, velocity) = falling_rocket_at(n * 1_000_000);
        create_particle(&mut group, false, position, velocity);
    }
    group.tick(GRAVITY, &mut rng);
    assert_eq!(group.write_cursor(), 3 + 3 * BURST_SIZE);
    let fragments = group.particles().iter().filter(|p| p.is_sub).count();
    assert_eq!(fragments, 3 * BURST_SIZE);
    for n in 0..3 {
        let p = group.particles()[n];
        assert!(!p.alive && p.exploded && !p.is_sub);
        assert_eq!(group.coordinates()[n], (OFF_CANVAS, OFF_CANVAS));
        for k in 0..BURST_SIZE {
            let fragment = group.particles()[3 + n * BURST_SIZE + k];
            assert!(fragment.is_sub && fragment.alive && !fragment.exploded);
            // The fragment lies beyond the slot that burst, so this tick
            // has moved it one step from where the rocket retired.
            let start = Vector { x: n as i64 * 1_000_000, y: 7_000_000 };
            let moved = fragment.position - start;
            assert_eq!(fragment.velocity, moved * 980_000);
        }
    }
    // A second tick finds nothing to burst.
    group.tick(GRAVITY, &mut rng);
    assert_eq!(group.write_cursor(), 3 + 3 * BURST_SIZE);
    assert_eq!(group.particles().iter().filter(|p| p.is_sub).count(), 3 * BURST_SIZE);
}

#[test]
fn a_tick_keeps_coordinates_in_step_with_particles() {
    let mut rng = rand::thread_rng();
    let mut group = ParticleGroup::new(Color::Green);
    create_particle(&mut group, false, Vector { x: 0, y: 0 }, Vector { x: 50_000, y: 20_000 });
    for _ in 0..40 {
        group.tick(GRAVITY, &mut rng);
        for i in 0..MAX_PARTICLES_COLOR {
            let p = group.particles()[i];
            let expected =
                if p.alive { (p.position.x, p.position.y) } else { (OFF_CANVAS, OFF_CANVAS) };
            assert_eq!(group.coordinates()[i], expected);
        }
    }
}

#[test]
fn fragments_of_a_burst_start_within_the_speed_range() {
    let mut rng = rand::thread_rng();
    for _ in 0..200 {
        let velocities = random_burst(&mut rng);
        assert_eq!(velocities.len(), BURST_SIZE);
        for v in velocities {
            let speed_sq = (v.x as i128) * (v.x as i128) + (v.y as i128) * (v.y as i128);
            assert!(speed_sq < 400_000 * 400_000);
            let out_x = (v.x as i128).abs() + 2;
            let out_y = (v.y as i128).abs() + 2;
            assert!(out_x * out_x + out_y * out_y > 199_999 * 199_999);
        }
    }
}

#[test]
fn a_pool_with_room_for_every_burst_loses_nothing() {
    let mut rng = rand::thread_rng();
    let mut group = ParticleGroup::new(Color::Red);
    // Fifty rockets and their bursts make a thousand launches.
    let rockets: i64 = 50;
    let spacing: i64 = 1_000_000_000;
    let mut slots: Vec<usize> = Vec::new();
    for n in 0..rockets {
        assert!(!group.particles()[group.write_cursor()].alive);
        slots.push(group.write_cursor());
        create_particle(
            &mut group,
            false,
            Vector { x: n * spacing, y: 0 },
            Vector { x: 0, y: 4_000 * n },
        );
        group.tick(GRAVITY, &mut rng);
    }
    for _ in 0..100 {
        group.tick(GRAVITY, &mut rng);
    }
    assert_eq!(group.write_cursor(), 0);
    for n in 0..rockets {
        let rocket = group.particles()[slots[n as usize]];
        assert!(!rocket.is_sub && !rocket.alive && rocket.exploded);
        assert_eq!(rocket.position.x, n * spacing);
        let fragments = group
            .particles()
            .iter()
            .filter(|p| p.is_sub && p.alive && (p.position.x - n * spacing).abs() < spacing / 2)
            .count();
        assert_eq!(fragments, BURST_SIZE);
    }
    let fragments = group.particles().iter().filter(|p| p.is_sub).count();
    assert_eq!(fragments, rockets as usize * BURST_SIZE);
}
