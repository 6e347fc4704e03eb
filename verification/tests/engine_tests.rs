use particle_life::engine::{Config, Engine};
use particle_life::fixed::{MAX_COORD, SCALE};
use particle_life::force::get_force;
use particle_life::geometry::{Region, Vec2};
use particle_life::particle::{AffinityMatrix, Particle, TypeTag};

const BETA: i64 = 300_000;
const DAMPING: i64 = 900_000;

fn arena(units: i64) -> Region {
    Region { origin: Vec2 { x: 0, y: 0 }, width: units * SCALE, height: units * SCALE }
}

fn config(radius_units: i64) -> Config {
    Config {
        arena: arena(1000),
        radius: radius_units * SCALE,
        threshold: 100 * SCALE,
        beta: BETA,
        damping: DAMPING,
        capacity: 4,
        affinity: AffinityMatrix::baseline(),
    }
}

fn part(x: i64, y: i64, vx: i64, vy: i64, kind: TypeTag) -> Particle {
    Particle { position: Vec2 { x, y }, velocity: Vec2 { x: vx, y: vy }, kind }
}

#[test]
fn baseline_matrix_attracts_self_repels_others() {
    let m = AffinityMatrix::baseline();
    assert!(m.check());
    let kinds = [TypeTag::Red, TypeTag::Green, TypeTag::Blue, TypeTag::Yellow];
    for &a in kinds.iter() {
        for &b in kinds.iter() {
            let v = m.affinity(a, b);
            if a == b {
                assert_eq!(v, 800_000);
            } else {
                assert_eq!(v, -800_000);
            }
        }
    }
}

#[test]
fn force_is_zero_at_and_beyond_threshold() {
    assert_eq!(get_force(SCALE, 800_000, BETA), 0);
    assert_eq!(get_force(2 * SCALE, 800_000, BETA), 0);
    assert_eq!(get_force(10 * SCALE, -800_000, BETA), 0);
}

#[test]
fn force_below_beta_is_repulsive_and_affinity_independent() {
    // r/beta - 1 at r = 0.1, beta = 0.3: 0.1 / 0.3 - 1 = -0.666667.
    let f_pos = get_force(100_000, 800_000, BETA);
    let f_neg = get_force(100_000, -800_000, BETA);
    assert_eq!(f_pos, f_neg);
    assert_eq!(f_pos, 333_333 - SCALE);
    // strongest repulsion exactly at contact
    assert_eq!(get_force(0, 800_000, BETA), -SCALE);
    assert!(get_force(299_999, -800_000, BETA) < 0);
}

#[test]
fn force_tent_region_follows_the_documented_formula() {
    // at r = beta: (1 - |2b - b| - b) * a = (1 - 2 * 0.3) * 0.8 = 0.32
    assert_eq!(get_force(BETA, 800_000, BETA), 320_000);
    // at r = 0.4: (1 - |0.8 - 0.3| - 0.3) * 0.8 = 0.2 * 0.8 = 0.16
    assert_eq!(get_force(400_000, 800_000, BETA), 160_000);
    // unlike kinds repel in the tent region
    assert_eq!(get_force(400_000, -800_000, BETA), -160_000);
    // at r = 0.5 the tent crosses zero exactly
    assert_eq!(get_force(500_000, 800_000, BETA), 0);
}

#[test]
fn same_kind_pair_accelerates_toward_each_other() {
    // Two same-kind particles 40 units apart (r = 0.4 against a threshold of
    // 100, inside the attractive part of the tent), at rest: after one tick
    // each velocity points at the other particle.
    let cfg = config(30);
    assert!(cfg.validate());
    let particles = vec![
        part(500 * SCALE, 500 * SCALE, 0, 0, TypeTag::Red),
        part(540 * SCALE, 500 * SCALE, 0, 0, TypeTag::Red),
    ];
    let mut engine = Engine::new(cfg, particles);
    assert!(engine.tick(10_000));
    let p0 = engine.particles[0];
    let p1 = engine.particles[1];
    assert_eq!(p0.velocity.x, 160_000);
    assert_eq!(p0.velocity.y, 0);
    assert_eq!(p0.position.x, 500 * SCALE + 1_600);
    assert_eq!(p0.position.y, 500 * SCALE);
    assert!(p1.velocity.x < 0);
    assert_eq!(p1.velocity.y, 0);
    assert!(p1.position.x < 540 * SCALE);
}

#[test]
fn wall_proximity_flips_the_velocity_sign() {
    // One particle half a radius from the left wall, moving left: after one
    // tick its x velocity has flipped sign (damped, then reflected).
    let cfg = config(10);
    assert!(cfg.validate());
    let particles = vec![part(5 * SCALE, 500 * SCALE, -3 * SCALE, 0, TypeTag::Blue)];
    let mut engine = Engine::new(cfg, particles);
    assert!(engine.tick(10_000));
    let p = engine.particles[0];
    assert_eq!(p.velocity.x, 2_700_000);
    assert_eq!(p.velocity.y, 0);
    assert_eq!(p.position.x, 5 * SCALE + 27_000);
    assert_eq!(p.position.y, 500 * SCALE);
}

#[test]
fn tick_preserves_count_and_kinds() {
    let cfg = config(5);
    let particles = vec![
        part(100 * SCALE, 100 * SCALE, SCALE, -SCALE, TypeTag::Red),
        part(200 * SCALE, 300 * SCALE, 0, 0, TypeTag::Green),
        part(700 * SCALE, 900 * SCALE, -SCALE, 2 * SCALE, TypeTag::Blue),
        part(400 * SCALE, 400 * SCALE, 0, SCALE, TypeTag::Yellow),
    ];
    let mut engine = Engine::new(cfg, particles.clone());
    assert!(engine.tick(16_000));
    assert_eq!(engine.particles.len(), particles.len());
    for (before, after) in particles.iter().zip(engine.particles.iter()) {
        assert_eq!(before.kind, after.kind);
    }
}

#[test]
fn tick_rejects_a_bad_time_step() {
    let cfg = config(5);
    let particles = vec![part(100 * SCALE, 100 * SCALE, 0, 0, TypeTag::Red)];
    let mut engine = Engine::new(cfg, particles.clone());
    assert!(!engine.tick(0));
    assert!(!engine.tick(-5));
    assert_eq!(engine.particles, particles);
}

#[test]
fn tick_rejects_an_out_of_range_particle() {
    let cfg = config(5);
    let particles = vec![part(MAX_COORD + 1, 100 * SCALE, 0, 0, TypeTag::Red)];
    let mut engine = Engine::new(cfg, particles.clone());
    assert!(!engine.tick(10_000));
    assert_eq!(engine.particles, particles);
}

#[test]
fn validate_rejects_bad_configurations() {
    assert!(config(5).validate());
    let mut c = config(5);
    c.capacity = 0;
    assert!(!c.validate());
    let mut c = config(5);
    c.beta = 0;
    assert!(!c.validate());
    let mut c = config(5);
    c.beta = SCALE;
    assert!(!c.validate());
    let mut c = config(5);
    c.damping = SCALE + 1;
    assert!(!c.validate());
    let mut c = config(5);
    c.affinity.entries[0][0] = 2 * SCALE;
    assert!(!c.validate());
    let mut c = config(5);
    c.arena.width = -SCALE;
    assert!(!c.validate());
}
