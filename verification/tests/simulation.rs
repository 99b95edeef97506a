use arena_core::asteroid::AsteroidType;
use arena_core::asteroid_collection::AsteroidCollection;
use arena_core::bullet::Bullet;
use arena_core::bullet_collection::BulletCollection;
use arena_core::collision::circles_overlap;
use arena_core::fixed::wrap_coord;
use arena_core::game::GameManager;
use arena_core::numfmt::parse_fixed;
use arena_core::numfmt::push_fixed;
use arena_core::player::Player;
use arena_core::player::CMD;
use arena_core::player_collection::AddPlayerError;
use arena_core::WORLD_FP;

#[test]
fn wrap_keeps_coordinates_in_world() {
    assert_eq!(wrap_coord(0), 0);
    assert_eq!(wrap_coord(WORLD_FP - 1), WORLD_FP - 1);
    assert_eq!(wrap_coord(WORLD_FP), 0);
    assert_eq!(wrap_coord(3 * WORLD_FP + 5), 5);
    assert_eq!(wrap_coord(-1), WORLD_FP - 1);
    assert_eq!(wrap_coord(-2 * WORLD_FP - 7), WORLD_FP - 7);
    for c in [-5 * WORLD_FP - 3, -1, 0, 17, 9 * WORLD_FP + 123] {
        let w = wrap_coord(c);
        assert!(0 <= w && w < WORLD_FP);
    }
}

#[test]
fn command_queue_evicts_oldest_at_capacity() {
    let mut p = Player::new(1);
    p.push_command(CMD::UP);
    p.push_command(CMD::LEFT);
    assert_eq!(p.input_buffer, vec![CMD::UP, CMD::LEFT]);
    p.push_command(CMD::RIGHT);
    assert_eq!(p.input_buffer, vec![CMD::LEFT, CMD::RIGHT]);
    p.push_command(CMD::SHOT);
    assert_eq!(p.input_buffer, vec![CMD::RIGHT, CMD::SHOT]);
    assert!(p.input_buffer.len() <= 2);
}

#[test]
fn shot_cooldown_allows_one_shot_per_window() {
    let mut p = Player::new(9);
    // SHOT issued on every tick of one full cooldown window: exactly one
    // projectile leaves the ship.
    for _ in 0..p.shot_cooldown {
        p.push_command(CMD::SHOT);
        p.update();
    }
    assert_eq!(p.bullets.bullets.len(), 1);
    // The boundary tick right after the window may fire once more.
    p.push_command(CMD::SHOT);
    p.update();
    assert_eq!(p.bullets.bullets.len(), 2);
}

#[test]
fn big_asteroid_splits_into_two_medium() {
    let mut field = AsteroidCollection::new();
    assert!(field.spawn(500_000, 500_000, AsteroidType::BIG));
    field.remove_at(0);
    assert_eq!(field.len(), 2);
    for a in field.get_all() {
        assert!(a.size == AsteroidType::MEDIUM);
        assert_eq!(a.x, 500_000);
        assert_eq!(a.y, 500_000);
        assert_eq!(a.radius, 25);
    }
}

#[test]
fn medium_asteroid_splits_into_two_small() {
    let mut field = AsteroidCollection::new();
    assert!(field.spawn(100_000, 200_000, AsteroidType::MEDIUM));
    field.remove_at(0);
    assert_eq!(field.len(), 2);
    for a in field.get_all() {
        assert!(a.size == AsteroidType::SMALL);
        assert_eq!(a.radius, 15);
    }
}

#[test]
fn small_asteroid_leaves_no_children() {
    let mut field = AsteroidCollection::new();
    assert!(field.spawn(1_000, 2_000, AsteroidType::SMALL));
    field.remove_at(0);
    assert!(field.is_empty());
}

#[test]
fn remove_at_past_end_is_a_no_op() {
    let mut field = AsteroidCollection::new();
    assert!(field.spawn(1_000, 2_000, AsteroidType::BIG));
    field.remove_at(5);
    assert_eq!(field.len(), 1);
}

#[test]
fn split_children_are_exempt_from_the_cap() {
    let mut field = AsteroidCollection::new();
    for _ in 0..16 {
        assert!(field.spawn(500_000, 500_000, AsteroidType::BIG));
    }
    // The cap refuses a seventeenth BIG spawn...
    assert!(!field.spawn(500_000, 500_000, AsteroidType::BIG));
    assert_eq!(field.len(), 16);
    // ...but children of a split always fit.
    assert!(field.spawn(500_000, 500_000, AsteroidType::MEDIUM));
    assert!(field.spawn(500_000, 500_000, AsteroidType::SMALL));
    assert_eq!(field.len(), 18);
    field.remove_at(0);
    assert_eq!(field.len(), 19);
}

#[test]
fn projectile_never_hits_its_own_owner() {
    let mut gm = GameManager::new();
    gm.asteroids.clear();
    gm.add_player(7).unwrap();
    // Firing spawns the projectile right on top of the ship; the owner
    // must survive the tick even though the two overlap geometrically.
    gm.handle_player_command(7, "SHOT");
    gm.tick();
    assert!(gm.players.get_player(7).is_some());
    let p = gm.players.get_player(7).unwrap();
    assert_eq!(p.bullets.bullets.len(), 1);
    assert_eq!(p.bullets.bullets[0].player_id, 7);
}

#[test]
fn remove_player_is_idempotent() {
    let mut gm = GameManager::new();
    gm.add_player(4).unwrap();
    assert!(gm.rm_player(4));
    assert!(!gm.rm_player(4));
    assert!(!gm.rm_player(4));
    assert_eq!(gm.players.get_players().len(), 0);
}

#[test]
fn add_player_rejects_duplicates() {
    let mut gm = GameManager::new();
    assert_eq!(gm.add_player(11), Ok(11));
    assert_eq!(gm.add_player(11), Err(AddPlayerError::AlreadyPresent));
}

#[test]
fn add_player_rejects_a_full_registry() {
    let mut gm = GameManager::new();
    for id in 0..255u128 {
        assert_eq!(gm.add_player(id), Ok(id));
    }
    assert_eq!(gm.add_player(999), Err(AddPlayerError::Full));
}

#[test]
fn up_and_shot_advance_and_fire() {
    // Start from zero players and five BIG asteroids, placed far from the
    // spawn point so the first tick cannot interfere.
    let mut gm = GameManager::new();
    gm.asteroids.clear();
    for i in 0..5i64 {
        assert!(gm
            .asteroids
            .spawn(700_000 + i * 20_000, 800_000, AsteroidType::BIG));
    }
    gm.add_player(7).unwrap();
    gm.handle_player_command(7, "UP SHOT");
    gm.tick();
    let p = gm.players.get_player(7).expect("player must survive");
    let (x, y, angle) = p.get_position();
    // Thrust along heading zero: 31 fixed-point units, integrated once.
    assert_eq!(x, 100_031);
    assert_eq!(y, 100_000);
    assert_eq!(angle, 0);
    // The counter started at the cooldown, so exactly one projectile with
    // this owner exists.
    assert_eq!(p.bullets.bullets.len(), 1);
    assert_eq!(p.bullets.bullets[0].player_id, 7);
}

#[test]
fn overlapping_players_both_remain() {
    // Two ships at the identical spawn point, no projectiles: without a
    // player-versus-player phase the tick leaves both registered.
    let mut gm = GameManager::new();
    gm.asteroids.clear();
    gm.add_player(1).unwrap();
    gm.add_player(2).unwrap();
    gm.tick();
    assert!(gm.players.get_player(1).is_some());
    assert!(gm.players.get_player(2).is_some());
}

#[test]
fn player_over_asteroid_is_evicted() {
    let mut gm = GameManager::new();
    gm.asteroids.clear();
    // An asteroid parked on the spawn point: the ship is struck on the
    // first tick and leaves the registry; the asteroid splits.
    assert!(gm.asteroids.spawn(100_000, 100_000, AsteroidType::BIG));
    gm.add_player(3).unwrap();
    gm.tick();
    assert!(gm.players.get_player(3).is_none());
}

#[test]
fn snapshot_of_known_world_is_exact() {
    let mut gm = GameManager::new();
    gm.asteroids.clear();
    gm.add_player(42).unwrap();
    let snapshot = gm.get_game_state();
    assert_eq!(
        snapshot,
        "{\"Players\":[{\"id\":\"42\",\"x\":100.000,\"y\":100.000,\"angle\":0,\"is_destroyed\":false}],\"Bullets\":[],\"Asteroids\":[]}"
    );
}

#[test]
fn fixed_point_round_trip() {
    for v in [
        0i64,
        1,
        -1,
        999,
        1000,
        100_031,
        -12_345,
        WORLD_FP - 1,
        -WORLD_FP,
        7_654_321,
    ] {
        let mut s = String::new();
        push_fixed(&mut s, v);
        assert_eq!(parse_fixed(s.as_str()), Some(v), "value {} via {}", v, s);
    }
    assert_eq!(parse_fixed("100.000"), Some(100_000));
    assert_eq!(parse_fixed("-12.345"), Some(-12_345));
    assert_eq!(parse_fixed("0.001"), Some(1));
    assert_eq!(parse_fixed("nonsense"), None);
    assert_eq!(parse_fixed("1.2"), None);
}

#[test]
fn unknown_id_and_unrecognized_text_are_no_ops() {
    let mut gm = GameManager::new();
    gm.add_player(5).unwrap();
    gm.handle_player_command(99, "UP");
    gm.handle_player_command(5, "jump sideways");
    let p = gm.players.get_player(5).unwrap();
    assert!(p.input_buffer.is_empty());
}

#[test]
fn command_text_matches_by_substring() {
    let mut gm = GameManager::new();
    gm.add_player(5).unwrap();
    gm.handle_player_command(5, "xxUPyy SHOT");
    let p = gm.players.get_player(5).unwrap();
    assert_eq!(p.input_buffer, vec![CMD::UP, CMD::SHOT]);
}

#[test]
fn spawn_controller_fires_at_threshold() {
    let mut field = AsteroidCollection::new();
    // The counter has a one-second head start; the cooldown is a minute of
    // ticks, so the first spawn lands exactly at the remaining distance.
    let remaining = field.spawn_cooldown - field.spawn_counter;
    for _ in 0..remaining - 1 {
        assert!(!field.maybe_spawn());
    }
    assert!(field.maybe_spawn());
    assert_eq!(field.len(), 1);
    assert!(field.get_all()[0].size == AsteroidType::BIG);
    let a = &field.get_all()[0];
    assert!(0 <= a.x && a.x < WORLD_FP);
    assert!(0 <= a.y && a.y < WORLD_FP);
    // The counter starts over after the attempt.
    assert_eq!(field.spawn_counter, 0);
}

#[test]
fn projectile_ttl_floors_at_zero() {
    let mut b = Bullet::new(1, 0, 0, 0, 3000);
    for _ in 0..9000 {
        b.update();
    }
    assert_eq!(b.ttl, 0);
    assert!(b.is_destroyed());
}

#[test]
fn bullet_sweep_purges_expired_projectiles() {
    let mut c = BulletCollection::new();
    let mut dying = Bullet::new(1, 0, 0, 0, 1000);
    dying.destroy();
    let alive = Bullet::new(1, 0, 0, 0, 1000);
    assert!(c.add_bullet(dying));
    assert!(c.add_bullet(alive));
    c.update();
    assert_eq!(c.bullets.len(), 1);
    assert_eq!(c.bullets[0].id, alive.id);
}

#[test]
fn circle_overlap_matches_geometry() {
    // Touching at exactly the sum of radii counts as overlap.
    assert!(circles_overlap(0, 0, 10_000, 20_000, 0, 10_000));
    assert!(!circles_overlap(0, 0, 10_000, 20_001, 0, 10_000));
    assert!(circles_overlap(5_000, 5_000, 2_000, 5_500, 5_500, 2_000));
}

#[test]
fn friction_decays_velocity_asymptotically() {
    let mut p = Player::new(8);
    p.push_command(CMD::UP);
    p.update();
    let vx_after_thrust = p.vx;
    assert!(vx_after_thrust > 0);
    for _ in 0..50 {
        p.update();
    }
    assert!(p.vx < vx_after_thrust);
    assert!(p.vx >= 0);
}

#[test]
fn three_commands_in_one_text_evict_the_first() {
    let mut gm = GameManager::new();
    gm.add_player(6).unwrap();
    gm.handle_player_command(6, "UP LEFT RIGHT");
    let p = gm.players.get_player(6).unwrap();
    assert_eq!(p.input_buffer, vec![CMD::LEFT, CMD::RIGHT]);
}

#[test]
fn destroyed_flag_shows_in_serialization() {
    let mut p = Player::new(3);
    p.destroy();
    let json = p.to_json();
    assert!(json.contains("\"is_destroyed\":true"));
    assert!(json.starts_with("{\"id\":\"3\""));
}

#[test]
fn consumed_projectile_leaves_the_shooters_collection() {
    // Two ships share the spawn point; the shooter's projectile overlaps
    // the other ship in the same tick, so that ship is evicted and the
    // projectile is consumed out of the shooter's collection.
    let mut gm = GameManager::new();
    gm.asteroids.clear();
    gm.add_player(1).unwrap();
    gm.add_player(2).unwrap();
    gm.handle_player_command(1, "SHOT");
    gm.tick();
    assert!(gm.players.get_player(1).is_some());
    assert!(gm.players.get_player(2).is_none());
    let shooter = gm.players.get_player(1).unwrap();
    assert!(shooter.bullets.bullets.is_empty());
}
