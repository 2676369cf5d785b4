use gravity::absorb::{absorb, collides};
use gravity::body::{Body, Role};
use gravity::force::{accelerations, pair_pull, Accel};
use gravity::integrate::{advance, integrate};
use gravity::trail::{decay_trails, is_trail_tick, spawn_trails, TrailMarker};
use gravity::vector::{distance_squared, integer_sqrt, Vec3, COORD_LIMIT};
use gravity::world::{Config, ConfigError, StepError, World};

fn body(id: u64, role: Role, pos: (i64, i64, i64), vel: (i64, i64, i64), mass: u64, radius: u64) -> Body {
    Body::new(
        id,
        role,
        Vec3::new(pos.0, pos.1, pos.2),
        Vec3::new(vel.0, vel.1, vel.2),
        mass,
        radius,
    )
}

/// Star of mass 100 at the origin and a planet of mass 1 at (0, 100, 0)
/// moving at (5, 0, 0), G = 50, all at a scale of 1000 units per pixel.
fn star_and_planet() -> Vec<Body> {
    vec![
        body(0, Role::Star, (0, 0, 0), (0, 0, 0), 100, 10_000),
        body(1, Role::Planet, (0, 100_000, 0), (5_000, 0, 0), 1, 5_000),
    ]
}

const G_SCALED: u64 = 50_000_000_000;

fn config() -> Config {
    Config::new(G_SCALED, 30, 2, 2_000)
}

fn momentum(bodies: &[Body]) -> (i128, i128, i128) {
    let mut m = (0i128, 0i128, 0i128);
    for b in bodies {
        m.0 += b.mass as i128 * b.vel.x as i128;
        m.1 += b.mass as i128 * b.vel.y as i128;
        m.2 += b.mass as i128 * b.vel.z as i128;
    }
    m
}

#[test]
fn integer_sqrt_values() {
    assert_eq!(integer_sqrt(0), 0);
    assert_eq!(integer_sqrt(1), 1);
    assert_eq!(integer_sqrt(15), 3);
    assert_eq!(integer_sqrt(16), 4);
    assert_eq!(integer_sqrt(10_000_000_000), 100_000);
}

#[test]
fn squared_distance_value() {
    let a = Vec3::new(1, 2, 3);
    let b = Vec3::new(4, 6, 3);
    assert_eq!(distance_squared(&a, &b), 25);
}

#[test]
fn pair_pull_is_antisymmetric() {
    let a = Vec3::new(0, 0, 0);
    let b = Vec3::new(3_000, -4_000, 12_000);
    let ab = pair_pull(G_SCALED, &a, &b);
    let ba = pair_pull(G_SCALED, &b, &a);
    assert_eq!(ab.x, -ba.x);
    assert_eq!(ab.y, -ba.y);
    assert_eq!(ab.z, -ba.z);
    assert!(ab.x > 0 && ab.y < 0 && ab.z > 0);
}

#[test]
fn pair_pull_exact_value() {
    let star = Vec3::new(0, 0, 0);
    let planet = Vec3::new(0, 100_000, 0);
    let on_planet = pair_pull(G_SCALED, &planet, &star);
    assert_eq!(on_planet, Accel { x: 0, y: -5, z: 0 });
}

#[test]
fn coincident_bodies_do_not_pull() {
    let p = Vec3::new(7, 7, 7);
    assert_eq!(pair_pull(G_SCALED, &p, &p), Accel { x: 0, y: 0, z: 0 });
}

#[test]
fn accelerations_scale_by_other_mass() {
    let acc = accelerations(G_SCALED, &star_and_planet());
    assert_eq!(acc.len(), 2);
    assert_eq!(acc[0], Accel { x: 0, y: 5, z: 0 });
    assert_eq!(acc[1], Accel { x: 0, y: -500, z: 0 });
}

#[test]
fn single_body_has_no_acceleration() {
    let bodies = vec![body(0, Role::Star, (0, 0, 0), (0, 0, 0), 100, 10)];
    let acc = accelerations(G_SCALED, &bodies);
    assert_eq!(acc, vec![Accel { x: 0, y: 0, z: 0 }]);
    assert!(accelerations(G_SCALED, &Vec::new()).is_empty());
}

#[test]
fn semi_implicit_euler_order() {
    let b = body(1, Role::Planet, (10, 20, 30), (1, 2, 3), 1, 1);
    let a = Accel { x: 100, y: -200, z: 0 };
    let n = advance(&b, &a);
    assert_eq!(n.vel, Vec3::new(101, -198, 3));
    assert_eq!(n.pos, Vec3::new(111, -178, 33));
}

#[test]
fn integrate_refuses_leaving_bounds() {
    let mut bodies = vec![body(1, Role::Planet, (COORD_LIMIT, 0, 0), (0, 0, 0), 1, 1)];
    let before = bodies.clone();
    let ok = integrate(&mut bodies, &vec![Accel { x: 1, y: 0, z: 0 }]);
    assert!(!ok);
    assert_eq!(bodies, before);
    let ok = integrate(&mut bodies, &vec![Accel { x: -1, y: 0, z: 0 }]);
    assert!(ok);
    assert_eq!(bodies[0].pos.x, COORD_LIMIT - 1);
}

#[test]
fn example_scenario_one_tick() {
    let mut w = World::new(config(), star_and_planet()).unwrap();
    let removed = w.step().unwrap();
    assert!(removed.is_empty());
    assert_eq!(w.bodies[1].vel, Vec3::new(5_000, -500, 0));
    assert_eq!(w.bodies[1].pos, Vec3::new(5_000, 99_500, 0));
    assert_eq!(w.bodies[0].vel, Vec3::new(0, 5, 0));
    assert_eq!(w.bodies[0].pos, Vec3::new(0, 5, 0));
    assert_eq!(w.frame, 1);
    assert_eq!(w.trails.len(), 1);
    assert_eq!(w.trails[0].pos, Vec3::new(5_000, 99_500, 0));
    assert_eq!(w.trails[0].scale(), (29, 30));
    assert_eq!(w.star_position(), Vec3::new(0, 5, 0));
}

#[test]
fn example_scenario_regression() {
    let mut w = World::new(config(), star_and_planet()).unwrap();
    for _ in 0..3 {
        w.step().unwrap();
    }
    let again = {
        let mut v = World::new(config(), star_and_planet()).unwrap();
        for _ in 0..3 {
            v.step().unwrap();
        }
        v
    };
    assert_eq!(w.bodies, again.bodies);
    assert_eq!(w.frame, 3);
    assert!(w.bodies[1].pos.y < 100_000 - 500);
    assert!(w.bodies[1].pos.x > 3 * 5_000 - 10);
}

#[test]
fn momentum_conserved_over_many_ticks() {
    let mut w = World::new(Config::new(G_SCALED, 30, 1, 0), star_and_planet()).unwrap();
    let start = momentum(&w.bodies);
    assert_eq!(start, (5_000, 0, 0));
    for _ in 0..200 {
        w.step().unwrap();
        assert_eq!(w.bodies.len(), 2);
        assert_eq!(momentum(&w.bodies), start);
    }
}

#[test]
fn trail_lifecycle_exact() {
    let mut markers = vec![TrailMarker::spawn(Vec3::new(1, 2, 3), 5, 3)];
    assert_eq!(markers[0].scale(), (3, 3));
    assert_eq!(decay_trails(&mut markers), 0);
    assert_eq!(markers[0].scale(), (2, 3));
    assert_eq!(decay_trails(&mut markers), 0);
    assert_eq!(markers[0].scale(), (1, 3));
    assert_eq!(decay_trails(&mut markers), 1);
    assert!(markers.is_empty());
    assert_eq!(decay_trails(&mut markers), 0);
}

#[test]
fn trails_stamp_planets_only() {
    let bodies = star_and_planet();
    let mut markers = Vec::new();
    spawn_trails(&bodies, &mut markers, 100);
    assert_eq!(markers, vec![TrailMarker::spawn(Vec3::new(0, 100_000, 0), 5_000, 100)]);
}

#[test]
fn trail_cadence() {
    assert!(is_trail_tick(0, 2));
    assert!(!is_trail_tick(1, 2));
    assert!(is_trail_tick(4, 2));
    assert!(is_trail_tick(7, 1));
}

#[test]
fn trails_survive_absorbed_body() {
    let bodies = vec![
        body(0, Role::Star, (0, 0, 0), (0, 0, 0), 100, 10),
        body(1, Role::Planet, (5, 0, 0), (0, 0, 0), 1, 5),
    ];
    let mut w = World::new(Config::new(0, 30, 1, 2), bodies).unwrap();
    let removed = w.step().unwrap();
    assert_eq!(removed, vec![1]);
    assert_eq!(w.bodies.len(), 1);
    assert_eq!(w.trails.len(), 1);
    assert_eq!(w.trails[0].scale(), (29, 30));
}

#[test]
fn absorption_conserves_mass() {
    let mut bodies = vec![
        body(0, Role::Star, (0, 0, 0), (0, 0, 0), 100, 10),
        body(1, Role::Planet, (0, 10, 0), (0, 0, 0), 3, 5),
        body(2, Role::Planet, (16, 0, 0), (0, 0, 0), 4, 5),
        body(3, Role::Planet, (17, 0, 0), (0, 0, 0), 5, 5),
    ];
    let removed = absorb(&mut bodies, 0, 2);
    assert_eq!(removed, vec![1, 2]);
    assert_eq!(bodies.len(), 2);
    assert_eq!(bodies[0].mass, 107);
    assert_eq!(bodies[1].id, 3);
    let total: u64 = bodies.iter().map(|b| b.mass).sum();
    assert_eq!(total, 112);
}

#[test]
fn absorption_order_does_not_matter() {
    let mut a = vec![
        body(1, Role::Planet, (0, 3, 0), (0, 0, 0), 7, 5),
        body(0, Role::Star, (0, 0, 0), (0, 0, 0), 50, 10),
        body(2, Role::Planet, (3, 0, 0), (0, 0, 0), 9, 5),
    ];
    let mut b = vec![
        body(2, Role::Planet, (3, 0, 0), (0, 0, 0), 9, 5),
        body(0, Role::Star, (0, 0, 0), (0, 0, 0), 50, 10),
        body(1, Role::Planet, (0, 3, 0), (0, 0, 0), 7, 5),
    ];
    absorb(&mut a, 1, 0);
    absorb(&mut b, 1, 0);
    assert_eq!(a.len(), 1);
    assert_eq!(a[0].mass, 66);
    assert_eq!(a, b);
}

#[test]
fn collision_threshold() {
    let star = body(0, Role::Star, (0, 0, 0), (0, 0, 0), 100, 10);
    let at = |x: i64| body(1, Role::Planet, (x, 0, 0), (0, 0, 0), 1, 5);
    assert!(collides(&star, &at(16), 2));
    assert!(!collides(&star, &at(17), 2));
    assert!(!collides(&star, &at(18), 2));
    assert!(collides(&star, &at(14), 0));
    assert!(!collides(&star, &at(15), 0));
}

#[test]
fn config_errors() {
    let ok = star_and_planet();
    assert_eq!(World::new(Config::new(u64::MAX, 30, 2, 0), ok.clone()).err(), Some(ConfigError::GravityTooLarge));
    assert_eq!(World::new(Config::new(1, 0, 2, 0), ok.clone()).err(), Some(ConfigError::ZeroTrailLength));
    assert_eq!(World::new(Config::new(1, 30, 0, 0), ok.clone()).err(), Some(ConfigError::ZeroTrailPeriod));
    assert_eq!(World::new(Config::new(1, 30, 2, u64::MAX), ok.clone()).err(), Some(ConfigError::MarginTooLarge));
    let mut zero_mass = ok.clone();
    zero_mass[1].mass = 0;
    assert_eq!(World::new(config(), zero_mass).err(), Some(ConfigError::InvalidBody));
    let mut heavy = ok.clone();
    heavy[0].mass = 4_294_967_296;
    assert_eq!(World::new(config(), heavy).err(), Some(ConfigError::TooMuchMass));
    let mut no_star = ok.clone();
    no_star[0].role = Role::Planet;
    assert_eq!(World::new(config(), no_star).err(), Some(ConfigError::NoStar));
    let mut two_stars = ok.clone();
    two_stars[1].role = Role::Star;
    assert_eq!(World::new(config(), two_stars).err(), Some(ConfigError::SeveralStars));
    let mut same_id = ok.clone();
    same_id[1].id = 0;
    assert_eq!(World::new(config(), same_id).err(), Some(ConfigError::DuplicateId));
    assert!(World::new(config(), ok).is_ok());
}

#[test]
fn step_out_of_bounds_changes_nothing() {
    let bodies = vec![
        body(0, Role::Star, (0, 0, 0), (0, 0, 0), 1, 1),
        body(1, Role::Planet, (COORD_LIMIT, 0, 0), (1, 0, 0), 1, 1),
    ];
    let mut w = World::new(Config::new(0, 30, 2, 0), bodies).unwrap();
    let before = w.bodies.clone();
    assert_eq!(w.step(), Err(StepError::OutOfBounds));
    assert_eq!(w.bodies, before);
    assert_eq!(w.frame, 0);
    assert!(w.trails.is_empty());
}
