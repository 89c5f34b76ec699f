use shooter_core::collision::{detect_collisions, record_contacts, Pair};
use shooter_core::entity::{
    Entity, Health, Kind, Lifespan, Motion, PhysicsBody, Rgb, LAYER_ENEMY, LAYER_PLAYER,
};
use shooter_core::geometry::{lock_to_region, rect_to_rect_collision, Region, Transform};
use shooter_core::lifecycle::health_bar_fill;
use shooter_core::motion::{step, Direction};
use shooter_core::timer::IntervalTimer;
use shooter_core::world::{Keys, Window, World};

fn window() -> Window {
    Window { width: 60000, height: 80000 }
}

fn boxed(x: i64, y: i64, half: i64) -> Transform {
    Transform { x, y, z: 0, half_w: half, half_h: half }
}

fn plain(handle: u64, kind: Kind, t: Transform) -> Entity {
    Entity {
        handle,
        kind,
        color: Rgb { r: 255, g: 255, b: 255 },
        transform: t,
        motion: None,
        bounds: None,
        body: None,
        health: None,
        lifespan: None,
        shooter: None,
        parent: None,
        bar: None,
        destroy_out_of_window: false,
    }
}

fn projectile(handle: u64, x: i64, y: i64) -> Entity {
    let mut e = plain(handle, Kind::Projectile, Transform { x, y, z: 0, half_w: 200, half_h: 600 });
    e.body = Some(PhysicsBody { self_layer_mask: LAYER_PLAYER, target_layer_mask: LAYER_ENEMY });
    e.lifespan = Some(Lifespan { lifespan: 2000, current: 0 });
    e
}

fn enemy(handle: u64, x: i64, y: i64) -> Entity {
    let mut e = plain(handle, Kind::Enemy, boxed(x, y, 3000));
    e.body = Some(PhysicsBody { self_layer_mask: LAYER_ENEMY, target_layer_mask: LAYER_PLAYER });
    e.health = Some(Health { max: 5, current: 5 });
    e
}

fn world_of(entities: Vec<Entity>, next_handle: u64) -> World {
    World {
        entities,
        contacts: Vec::new(),
        next_handle,
        enemy_timer: IntervalTimer::new(5000),
        star_timer: IntervalTimer::new(500),
    }
}

fn handles(w: &World) -> Vec<u64> {
    w.entities.iter().map(|e| e.handle).collect()
}

#[test]
fn diagonal_step_is_as_long_as_straight_step() {
    assert_eq!(step(Direction { x: 0, y: 1 }, 1000), (0, 1000));
    assert_eq!(step(Direction { x: -1, y: 0 }, 1000), (-1000, 0));
    assert_eq!(step(Direction { x: 1, y: 1 }, 1000), (707, 707));
    assert_eq!(step(Direction { x: 2, y: 2 }, 1000), (707, 707));
    assert_eq!(step(Direction { x: -5, y: -5 }, 1000), (-707, -707));
    let (x, y) = step(Direction { x: 1, y: 1 }, 1000);
    assert!(x * x + y * y <= 1000 * 1000);
    assert!((x + 1) * (x + 1) + (y + 1) * (y + 1) > 1000 * 1000);
}

#[test]
fn step_is_exact_on_pythagorean_headings() {
    assert_eq!(step(Direction { x: 3, y: 4 }, 500), (300, 400));
    assert_eq!(step(Direction { x: 30, y: -40 }, 500), (300, -400));
}

#[test]
fn zero_heading_does_not_move() {
    assert_eq!(step(Direction { x: 0, y: 0 }, 1000), (0, 0));
    let mut e = plain(0, Kind::Star, boxed(100, 200, 50));
    e.motion = Some(Motion { direction: Direction { x: 0, y: 0 }, speed: 700 });
    let mut w = world_of(vec![e], 1);
    w.move_entity();
    assert_eq!(w.entities[0].transform, boxed(100, 200, 50));
}

#[test]
fn movement_adds_the_step() {
    let mut e = plain(0, Kind::Star, boxed(100, 200, 50));
    e.motion = Some(Motion { direction: Direction { x: 0, y: -1 }, speed: 250 });
    let mut w = world_of(vec![e], 1);
    w.move_entity();
    assert_eq!(w.entities[0].transform, boxed(100, -50, 50));
}

#[test]
fn overlap_is_symmetric_and_counts_touching_edges() {
    let a = boxed(0, 0, 10);
    let b = boxed(20, 0, 10);
    let c = boxed(21, 0, 10);
    let d = boxed(5, 19, 10);
    assert!(rect_to_rect_collision(&a, &b));
    assert!(rect_to_rect_collision(&b, &a));
    assert!(!rect_to_rect_collision(&a, &c));
    assert!(!rect_to_rect_collision(&c, &a));
    assert!(rect_to_rect_collision(&a, &d));
    assert!(rect_to_rect_collision(&d, &a));
    assert!(!rect_to_rect_collision(&boxed(0, 0, 1), &boxed(0, 3, 1)));
}

#[test]
fn layer_eligibility_is_directed() {
    let p = projectile(1, 0, 0);
    let e = enemy(2, 0, 0);
    let pairs = detect_collisions(&vec![p, e]);
    assert_eq!(pairs, vec![(1, 2), (2, 1)]);
    let mut star = plain(3, Kind::Star, boxed(0, 0, 100));
    star.body = Some(PhysicsBody { self_layer_mask: 4, target_layer_mask: LAYER_ENEMY });
    let pairs = detect_collisions(&vec![star, e]);
    assert_eq!(pairs, vec![(3, 2)]);
}

#[test]
fn bounds_clamp_each_edge() {
    let r = Region { x: -30000, y: -40000, width: 60000, height: 80000 };
    assert_eq!(lock_to_region(&boxed(40000, 0, 3000), &r), boxed(27000, 0, 3000));
    assert_eq!(lock_to_region(&boxed(-40000, 0, 3000), &r), boxed(-27000, 0, 3000));
    assert_eq!(lock_to_region(&boxed(0, 39000, 3000), &r), boxed(0, 37000, 3000));
    assert_eq!(lock_to_region(&boxed(0, -39000, 3000), &r), boxed(0, -37000, 3000));
    assert_eq!(lock_to_region(&boxed(100, 100, 3000), &r), boxed(100, 100, 3000));
}

#[test]
fn bounded_entities_stay_inside_once_settled() {
    let r = Region { x: -30000, y: -40000, width: 60000, height: 80000 };
    let mut e = plain(0, Kind::Player, boxed(29000, -39999, 3000));
    e.bounds = Some(r);
    e.motion = Some(Motion { direction: Direction { x: 1, y: -1 }, speed: 1000 });
    let mut w = world_of(vec![e], 1);
    for _ in 0..5 {
        w.move_entity();
        w.lock_bounded_entity();
        let t = w.entities[0].transform;
        assert!(t.x - t.half_w >= r.x && t.x + t.half_w <= r.x + r.width);
        assert!(t.y - t.half_h >= r.y && t.y + t.half_h <= r.y + r.height);
        assert_eq!(t, boxed(27000, -37000, 3000));
        w.lock_bounded_entity();
        assert_eq!(w.entities[0].transform, t);
    }
}

#[test]
fn keys_steer_the_player_only() {
    let mut w = World::new(window());
    let mut star = plain(1, Kind::Star, boxed(0, 0, 100));
    star.motion = Some(Motion { direction: Direction { x: 0, y: -1 }, speed: 100 });
    w.entities.push(star);
    w.next_handle = 2;
    w.player_movement_input(Keys { left: true, right: false, up: true, down: false });
    assert_eq!(w.entities[0].motion.unwrap().direction, Direction { x: -1, y: 1 });
    assert_eq!(w.entities[1].motion.unwrap().direction, Direction { x: 0, y: -1 });
    w.player_movement_input(Keys { left: true, right: true, up: false, down: true });
    assert_eq!(w.entities[0].motion.unwrap().direction, Direction { x: 0, y: -1 });
    w.player_movement_input(Keys { left: false, right: false, up: true, down: true });
    assert_eq!(w.entities[0].motion.unwrap().direction, Direction { x: 0, y: 0 });
}

#[test]
fn auto_shoot_fires_on_tick_47_and_restarts_from_zero() {
    let mut t = IntervalTimer::new(750);
    let mut fired_at = Vec::new();
    for tick in 1..=100u64 {
        if t.advance(16) {
            fired_at.push(tick);
        }
    }
    assert_eq!(fired_at, vec![47, 94]);
    assert_eq!(t.current, 6 * 16);
}

#[test]
fn player_fires_two_projectiles_from_its_muzzles() {
    let mut w = World::new(window());
    w.entity_shoot_projectile(749);
    assert_eq!(w.entities.len(), 1);
    w.entity_shoot_projectile(1);
    assert_eq!(w.entities.len(), 3);
    assert_eq!(w.next_handle, 3);
    let a = w.entities[1];
    let b = w.entities[2];
    assert_eq!(a.kind, Kind::Projectile);
    assert_eq!((a.handle, a.transform.x, a.transform.y), (1, 2800, 3200));
    assert_eq!((b.handle, b.transform.x, b.transform.y), (2, -2800, 3200));
    assert_eq!((a.transform.half_w, a.transform.half_h), (200, 600));
    assert_eq!(a.body, w.entities[0].body);
    assert_eq!(a.lifespan, Some(Lifespan { lifespan: 2000, current: 0 }));
    assert_eq!(a.motion, Some(Motion { direction: Direction { x: 0, y: 1 }, speed: 1200 }));
    assert_eq!(w.entities[0].shooter.unwrap().timer.current, 0);
}

#[test]
fn enter_fires_once_per_contiguous_overlap() {
    let mut contacts: Vec<Pair> = Vec::new();
    let mut enter_ticks = Vec::new();
    for tick in 1..=15u32 {
        let overlapping = (3..=7).contains(&tick) || tick == 12;
        let x = if overlapping { 0 } else { 100000 };
        let entities = vec![projectile(1, x, 0), enemy(2, 0, 0)];
        let pairs = detect_collisions(&entities);
        let events = record_contacts(&mut contacts, &pairs);
        for ev in events {
            if ev == (1, 2) {
                enter_ticks.push(tick);
            }
        }
    }
    assert_eq!(enter_ticks, vec![3, 12]);
}

#[test]
fn stale_contacts_are_forgotten() {
    let mut contacts: Vec<Pair> = vec![(1, 2), (3, 4)];
    let events = record_contacts(&mut contacts, &vec![(3, 4), (5, 6), (5, 6)]);
    assert_eq!(events, vec![(5, 6)]);
    assert_eq!(contacts, vec![(3, 4), (5, 6)]);
}

fn enemy_with_bar() -> World {
    let mut w = world_of(vec![], 0);
    w.spawn_enemy(window(), 0, 0);
    w
}

#[test]
fn five_hits_destroy_an_enemy() {
    let mut w = enemy_with_bar();
    assert_eq!(handles(&w), vec![0, 1]);
    for hit in 1..=5i32 {
        let p = 10 + hit as u64;
        w.entities.push(projectile(p, 0, 0));
        w.next_handle = p + 1;
        let hurt = w.on_projectile_collision_enter(&vec![(p, 0)]);
        assert_eq!(hurt, vec![0]);
        assert!(!handles(&w).contains(&p));
        w.entity_health_system(&hurt);
        w.entity_healthbar_system(&hurt);
        if hit < 5 {
            assert_eq!(handles(&w), vec![0, 1]);
            assert_eq!(w.entities[0].health.unwrap().current, 5 - hit);
        } else {
            assert!(w.entities.is_empty());
        }
    }
}

#[test]
fn health_bar_follows_its_owner() {
    let mut w = enemy_with_bar();
    w.entities.push(projectile(7, 0, 0));
    w.next_handle = 8;
    let hurt = w.on_projectile_collision_enter(&vec![(7, 0)]);
    w.entity_health_system(&hurt);
    w.entity_healthbar_system(&hurt);
    let bar = w.entities[1].bar.unwrap();
    assert_eq!((bar.scale_milli, bar.offset_milli), (800, -100));
}

#[test]
fn bar_fill_values() {
    let f = health_bar_fill(Health { max: 5, current: 5 });
    assert_eq!((f.scale_milli, f.offset_milli), (1000, 0));
    let f = health_bar_fill(Health { max: 5, current: 3 });
    assert_eq!((f.scale_milli, f.offset_milli), (600, -200));
    let f = health_bar_fill(Health { max: 5, current: 0 });
    assert_eq!((f.scale_milli, f.offset_milli), (0, -500));
    let f = health_bar_fill(Health { max: 5, current: -1 });
    assert_eq!((f.scale_milli, f.offset_milli), (-200, -600));
    let f = health_bar_fill(Health { max: 3, current: 1 });
    assert_eq!((f.scale_milli, f.offset_milli), (333, -334));
}

#[test]
fn zero_health_destroys_owner_and_bar_in_one_pass() {
    let mut w = enemy_with_bar();
    w.entities[0].health = Some(Health { max: 5, current: 0 });
    w.entity_health_system(&vec![]);
    assert_eq!(handles(&w), vec![0, 1]);
    w.entity_health_system(&vec![0]);
    assert!(w.entities.is_empty());
}

#[test]
fn projectile_destroys_a_target_without_health() {
    let mut target = plain(5, Kind::Star, boxed(0, 0, 100));
    target.body = Some(PhysicsBody { self_layer_mask: LAYER_ENEMY, target_layer_mask: 0 });
    let mut w = world_of(vec![projectile(4, 0, 0), target], 6);
    let hurt = w.on_projectile_collision_enter(&vec![(4, 5)]);
    assert!(hurt.is_empty());
    assert_eq!(handles(&w), vec![4]);
}

#[test]
fn events_on_missing_or_non_projectile_entities_do_nothing() {
    let mut w = enemy_with_bar();
    let hurt = w.on_projectile_collision_enter(&vec![(99, 0), (0, 1)]);
    assert!(hurt.is_empty());
    assert_eq!(handles(&w), vec![0, 1]);
    assert_eq!(w.entities[0].health.unwrap().current, 5);
}

#[test]
fn lifespan_expires_at_its_maximum() {
    let mut w = world_of(vec![projectile(3, 0, 0)], 4);
    w.entity_lifespan_system(1999);
    assert_eq!(handles(&w), vec![3]);
    assert_eq!(w.entities[0].lifespan.unwrap().current, 1999);
    w.entity_lifespan_system(1);
    assert!(w.entities.is_empty());
}

#[test]
fn falling_below_the_window_destroys_enemy_and_bar() {
    let mut w = world_of(vec![], 0);
    w.spawn_enemy(window(), 0, -42999);
    w.destroy_out_of_window_system(window());
    assert_eq!(handles(&w), vec![0, 1]);
    w.entities[0].transform.y = -43000;
    w.destroy_out_of_window_system(window());
    assert!(w.entities.is_empty());
}

#[test]
fn enemy_spawner_waits_for_its_interval() {
    let mut w = World::new(window());
    w.spawn_enemy_system(4999, Some(window()));
    assert_eq!(w.entities.len(), 1);
    w.spawn_enemy_system(1, Some(window()));
    assert_eq!(w.entities.len(), 3);
    let e = w.entities[1];
    assert_eq!(e.kind, Kind::Enemy);
    assert!(e.transform.x >= -27000 && e.transform.x <= 26999);
    assert!(e.transform.y >= 46000 && e.transform.y <= 52000);
    assert_eq!(e.health, Some(Health { max: 5, current: 5 }));
    assert_eq!(w.entities[2].parent, Some(e.handle));
    assert_eq!(w.enemy_timer.current, 0);
}

#[test]
fn spawners_do_nothing_without_a_window() {
    let mut w = World::new(window());
    w.spawn_enemy_system(6000, None);
    w.spawn_star_system(6000, None);
    assert_eq!(w.entities.len(), 1);
    assert_eq!(w.enemy_timer.current, 0);
}

#[test]
fn star_shower_is_random_and_sized() {
    let mut w = World::new(window());
    let mut xs = Vec::new();
    for _ in 0..4 {
        let before = w.entities.len();
        w.spawn_star_system(500, Some(window()));
        let added = w.entities.len() - before;
        assert!((10..=25).contains(&added));
        for e in &w.entities[before..] {
            assert_eq!(e.kind, Kind::Star);
            assert!(e.transform.x >= -30000 && e.transform.x <= 30000);
            assert!(e.transform.y >= 42000 && e.transform.y < 50000);
            assert!(e.transform.half_w >= 100 && e.transform.half_w <= 250);
            xs.push(e.transform.x);
        }
    }
    assert!(xs.iter().any(|x| *x != xs[0]));
}

#[test]
fn star_speed_grows_with_size() {
    let mut w = world_of(vec![], 0);
    w.spawn_star(0, 45000, 500, 800);
    w.spawn_star(0, 45000, 200, 800);
    assert_eq!(w.entities[0].motion.unwrap().speed, 800);
    assert_eq!(w.entities[1].motion.unwrap().speed, 320);
    assert_eq!(w.entities[1].transform.half_w, 100);
}

#[test]
fn a_full_tick_moves_and_shoots() {
    let mut w = World::new(window());
    let keys = Keys { left: false, right: true, up: false, down: false };
    w.tick(keys, 750, Some(window()));
    assert_eq!(w.entities[0].transform.x, 1000);
    assert_eq!(w.entities[0].transform.y, 0);
    let projectiles = w.entities.iter().filter(|e| e.kind == Kind::Projectile).count();
    assert_eq!(projectiles, 2);
}

#[test]
fn odd_window_height_is_compared_exactly() {
    let odd = Window { width: 60000, height: 80001 };
    let mut w = world_of(vec![], 0);
    w.spawn_enemy(odd, 0, -43000);
    w.destroy_out_of_window_system(odd);
    assert_eq!(handles(&w), vec![0, 1]);
    w.entities[0].transform.y = -43001;
    w.destroy_out_of_window_system(odd);
    assert!(w.entities.is_empty());
}

#[test]
fn spawned_entities_carry_their_colours() {
    let mut w = World::new(window());
    assert_eq!(w.entities[0].color, Rgb { r: 51, g: 26, b: 166 });
    w.entity_shoot_projectile(750);
    assert_eq!(w.entities[1].color, Rgb { r: 0, g: 255, b: 0 });
    w.spawn_enemy(window(), 0, 0);
    assert_eq!(w.entities[3].color, Rgb { r: 102, g: 26, b: 153 });
    assert_eq!(w.entities[4].color, Rgb { r: 255, g: 0, b: 0 });
    w.spawn_star(0, 45000, 300, 400);
    assert_eq!(w.entities[5].color, Rgb { r: 255, g: 255, b: 255 });
}

#[test]
fn tick_keeps_handles_distinct() {
    let mut w = World::new(window());
    let keys = Keys { left: false, right: false, up: true, down: false };
    for _ in 0..400 {
        w.tick(keys, 16, Some(window()));
    }
    let mut hs = handles(&w);
    let n = hs.len();
    hs.sort();
    hs.dedup();
    assert_eq!(hs.len(), n);
    for (a, b) in &w.contacts {
        assert!(*a < w.next_handle && *b < w.next_handle);
    }
}
