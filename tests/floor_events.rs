use bevy_rand::prelude::WyRand;
use rand::SeedableRng;
use scp087b::events::{tick_floor, update_floors, Effect, Sound};
use scp087b::geometry::{floor_transform, frame, room_label_transform, within, Placement, Point};
use scp087b::layout::{Floor, FloorAction, LevelLayout};

const U: i64 = 1_000_000;

fn p(x: i64, y: i64, z: i64) -> Point {
    Point { x, y, z }
}

fn far() -> Point {
    p(1_000 * U, 1_000 * U, 1_000 * U)
}

fn floor_y(f: i64) -> i64 {
    U - 2 * U * f
}

fn center(f: i64) -> Point {
    p(4 * U, floor_y(f), if f % 2 == 0 { 6_500_000 } else { 500_000 })
}

fn start(f: i64) -> Point {
    if f % 2 == 0 {
        p(7_500_000, floor_y(f), 6_500_000)
    } else {
        p(500_000, floor_y(f), 500_000)
    }
}

fn end(f: i64) -> Point {
    if f % 2 == 0 {
        p(500_000, floor_y(f), 6_500_000)
    } else {
        p(7_500_000, floor_y(f), 500_000)
    }
}

fn lowered(q: Point) -> Point {
    p(q.x, q.y - 500_000, q.z)
}

fn layout_with(f: usize, action: FloorAction, timer: u32) -> LevelLayout {
    let mut map = LevelLayout::new(f + 3);
    map.floors[f] = Floor { action, timer };
    map
}

fn is_horror(e: &Effect) -> bool {
    matches!(e, Effect::PlaySound(Sound::Horror(k)) if *k < 2)
}

#[test]
fn proceed_fires_once_after_150_ticks() {
    let mut rng = WyRand::seed_from_u64(1);
    let mut map = layout_with(1, FloorAction::Proceed, 1);
    let mut sounds = Vec::new();
    for tick in 1..=150 {
        let fx = update_floors(&mut map, center(1), 1, &mut rng);
        for e in fx {
            sounds.push((tick, e));
        }
    }
    assert_eq!(sounds, vec![(150, Effect::PlaySound(Sound::Radio(0)))]);
    assert_eq!(map.floors[1].timer, 0);
    assert!(update_floors(&mut map, center(1), 1, &mut rng).is_empty());
    assert_eq!(map.floors[1].timer, 0);
}

#[test]
fn generated_floor_one_proceeds() {
    let mut rng = WyRand::seed_from_u64(17);
    let mut map = LevelLayout::new(210);
    map.generate(&mut rng);
    assert_eq!(map.floors[1].action, FloorAction::Proceed);
    let mut count = 0;
    for _ in 0..150 {
        let fx = update_floors(&mut map, start(1), 1, &mut rng);
        count += fx.len();
        assert!(fx.iter().all(|e| *e == Effect::PlaySound(Sound::Radio(0))));
    }
    assert_eq!(count, 1);
    assert_eq!(map.floors[1].timer, 0);
}

#[test]
fn trap_places_block_regardless_of_position() {
    let mut rng = WyRand::seed_from_u64(2);
    let mut map = layout_with(4, FloorAction::Trap, 0);
    assert!(update_floors(&mut map, center(4), 4, &mut rng).is_empty());
    assert_eq!(map.floors[4].timer, 0);
    for player in [far(), center(4), start(4), p(0, 0, 0)] {
        let mut map = layout_with(4, FloorAction::Trap, 1);
        let fx = update_floors(&mut map, player, 4, &mut rng);
        assert_eq!(fx, vec![Effect::SpawnObstacle { at: p(1_000_000, floor_y(4), 6_500_000) }]);
        assert_eq!(map.floors[4].timer, 2);
    }
    let mut odd = layout_with(5, FloorAction::Trap, 1);
    let fx = update_floors(&mut odd, far(), 5, &mut rng);
    assert_eq!(fx, vec![Effect::SpawnObstacle { at: p(7_000_000, floor_y(5), 500_000) }]);
}

#[test]
fn trap_ambush_at_center() {
    let mut rng = WyRand::seed_from_u64(3);
    let mut map = layout_with(4, FloorAction::Trap, 2);
    assert!(update_floors(&mut map, far(), 4, &mut rng).is_empty());
    assert_eq!(map.floors[4].timer, 2);
    let fx = update_floors(&mut map, center(4), 4, &mut rng);
    assert_eq!(fx.len(), 2);
    assert_eq!(fx[0], Effect::SpawnEnemy { at: lowered(start(4)), speed: 10_000 });
    assert!(is_horror(&fx[1]));
    assert_eq!(map.floors[4].timer, 3);
    assert!(update_floors(&mut map, center(4), 4, &mut rng).is_empty());
    assert_eq!(map.floors[4].timer, 3);
}

#[test]
fn flash_waits_while_player_is_away() {
    let mut rng = WyRand::seed_from_u64(4);
    for t in 1..=3u32 {
        let mut map = layout_with(6, FloorAction::Flash, t);
        for _ in 0..50 {
            assert!(update_floors(&mut map, far(), 6, &mut rng).is_empty());
            assert_eq!(map.floors[6].timer, t);
        }
    }
}

#[test]
fn flash_ambush_then_despawn() {
    let mut rng = WyRand::seed_from_u64(5);
    let points = [end(7), center(7), start(7)];
    for (t, q) in (1..=3u32).zip(points) {
        let mut map = layout_with(7, FloorAction::Flash, t);
        let near = p(q.x + 1_000_000, q.y, q.z + 1_000_000);
        let fx = update_floors(&mut map, near, 7, &mut rng);
        assert_eq!(fx.len(), 2);
        assert_eq!(fx[0], Effect::SpawnEnemy { at: lowered(q), speed: 0 });
        assert!(is_horror(&fx[1]));
        assert_eq!(map.floors[7].timer, 5);
        for expected in 6..=30u32 {
            assert!(update_floors(&mut map, near, 7, &mut rng).is_empty());
            assert_eq!(map.floors[7].timer, expected);
        }
        assert_eq!(update_floors(&mut map, near, 7, &mut rng), vec![Effect::DespawnEnemy]);
        assert_eq!(map.floors[7].timer, 0);
    }
}

#[test]
fn flash_radius_is_strict() {
    let mut rng = WyRand::seed_from_u64(6);
    let q = end(7);
    let mut map = layout_with(7, FloorAction::Flash, 1);
    assert!(update_floors(&mut map, p(q.x + 1_500_000, q.y, q.z), 7, &mut rng).is_empty());
    assert_eq!(map.floors[7].timer, 1);
    assert_eq!(update_floors(&mut map, p(q.x + 1_499_999, q.y, q.z), 7, &mut rng).len(), 2);
}

#[test]
fn radios_fire_once() {
    let mut rng = WyRand::seed_from_u64(7);
    for (action, k) in [(FloorAction::Radio2, 1usize), (FloorAction::Radio3, 2), (FloorAction::Radio4, 3)] {
        let mut map = layout_with(3, action, 1);
        assert_eq!(update_floors(&mut map, far(), 3, &mut rng), vec![Effect::PlaySound(Sound::Radio(k))]);
        assert_eq!(map.floors[3].timer, 0);
        assert!(update_floors(&mut map, far(), 3, &mut rng).is_empty());
    }
}

#[test]
fn lights_blow_at_center() {
    let mut rng = WyRand::seed_from_u64(8);
    let mut map = layout_with(20, FloorAction::Lights, 1);
    assert!(update_floors(&mut map, start(20), 20, &mut rng).is_empty());
    let fx = update_floors(&mut map, center(20), 20, &mut rng);
    assert_eq!(
        fx,
        vec![
            Effect::PlaySound(Sound::Horror(1)),
            Effect::PlaySound(Sound::FireOff),
            Effect::SetAmbientBrightness(45),
        ]
    );
    assert_eq!(map.floors[20].timer, 2);
    assert!(update_floors(&mut map, center(20), 20, &mut rng).is_empty());
}

#[test]
fn tricks_trigger_at_hidden_points() {
    let mut rng = WyRand::seed_from_u64(9);
    let cases = [
        (FloorAction::Trick1, 26usize, p(6_000_000, floor_y(26) - 500_000, 1_500_000)),
        (FloorAction::Trick1, 27, p(2_000_000, floor_y(27) - 500_000, 5_500_000)),
        (FloorAction::Trick2, 26, p(8_000_000, floor_y(26) - 500_000, 1_500_000)),
        (FloorAction::Trick2, 27, p(0, floor_y(27) - 500_000, 5_500_000)),
    ];
    for (action, f, q) in cases {
        let mut map = layout_with(f, action, 1);
        assert!(update_floors(&mut map, p(q.x + 250_000, q.y, q.z), f, &mut rng).is_empty());
        assert_eq!(map.floors[f].timer, 1);
        let fx = update_floors(&mut map, p(q.x + 100_000, q.y, q.z), f, &mut rng);
        assert_eq!(fx, vec![Effect::PlaySound(Sound::Horror(2))]);
        assert_eq!(map.floors[f].timer, 2);
    }
}

#[test]
fn roar_shakes_then_ends() {
    let mut rng = WyRand::seed_from_u64(10);
    let mut map = layout_with(30, FloorAction::Roar, 1);
    assert!(update_floors(&mut map, far(), 30, &mut rng).is_empty());
    assert_eq!(map.floors[30].timer, 1);
    let e = end(30);
    let fx = update_floors(&mut map, p(e.x + 5_000_000, e.y, e.z), 30, &mut rng);
    assert_eq!(fx, vec![Effect::PlaySound(Sound::Roar)]);
    assert_eq!(map.floors[30].timer, 51);
    for expected in 52..370u32 {
        let fx = update_floors(&mut map, far(), 30, &mut rng);
        assert_eq!(fx.len(), 1);
        match fx[0] {
            Effect::Shake { velocity, rotation } => {
                for v in [velocity.x, velocity.y, velocity.z] {
                    assert!((-5_000..5_000).contains(&v));
                }
                for r in [rotation.x, rotation.y, rotation.z] {
                    assert!((-1_000_000..1_000_000).contains(&r));
                }
            }
            other => panic!("expected a shake, got {:?}", other),
        }
        assert_eq!(map.floors[30].timer, expected);
    }
    assert!(update_floors(&mut map, far(), 30, &mut rng).is_empty());
    assert_eq!(map.floors[30].timer, 0);
}

#[test]
fn darkness_closes_in() {
    let mut rng = WyRand::seed_from_u64(11);
    let mut map = layout_with(160, FloorAction::Darkness, 1);
    let fx = update_floors(&mut map, center(160), 160, &mut rng);
    assert_eq!(
        fx,
        vec![
            Effect::SpawnObstacle { at: p(7_000_000, floor_y(160), 6_500_000) },
            Effect::SpawnObstacle { at: p(1_000_000, floor_y(160), 6_500_000) },
            Effect::PlaySound(Sound::Stone),
        ]
    );
    assert_eq!(map.floors[160].timer, 2);
    for expected in 3..600u32 {
        assert!(update_floors(&mut map, center(160), 160, &mut rng).is_empty());
        assert_eq!(map.floors[160].timer, expected);
    }
    let fx = update_floors(&mut map, center(160), 160, &mut rng);
    assert_eq!(fx.len(), 2);
    assert_eq!(fx[0], Effect::SpawnEnemy { at: lowered(center(160)), speed: 10_000 });
    assert!(is_horror(&fx[1]));
    assert_eq!(map.floors[160].timer, 601);
    assert!(update_floors(&mut map, center(160), 160, &mut rng).is_empty());
    assert_eq!(map.floors[160].timer, 601);
}

#[test]
fn darkness_missed_first_tick_counts_down_silently() {
    let mut rng = WyRand::seed_from_u64(12);
    let mut map = layout_with(161, FloorAction::Darkness, 1);
    assert!(update_floors(&mut map, far(), 161, &mut rng).is_empty());
    assert_eq!(map.floors[161].timer, 2);
}

#[test]
fn inert_actions_do_nothing() {
    let mut rng = WyRand::seed_from_u64(13);
    for action in [FloorAction::Steps, FloorAction::Cell, FloorAction::Scp173, FloorAction::Lock, FloorAction::Run, FloorAction::Breath] {
        let mut map = layout_with(9, action, 1);
        assert!(update_floors(&mut map, center(9), 9, &mut rng).is_empty());
        assert_eq!(map.floors[9], Floor { action, timer: 1 });
    }
}

#[test]
fn only_the_player_floor_changes() {
    let mut rng = WyRand::seed_from_u64(14);
    let mut map = LevelLayout::new(10);
    map.floors[3] = Floor { action: FloorAction::Proceed, timer: 5 };
    map.floors[4] = Floor { action: FloorAction::Proceed, timer: 5 };
    update_floors(&mut map, far(), 4, &mut rng);
    assert_eq!(map.floors[3].timer, 5);
    assert_eq!(map.floors[4].timer, 6);
}

#[test]
fn tick_floor_matches_update() {
    let mut rng = WyRand::seed_from_u64(15);
    let (next, fx) = tick_floor(Floor { action: FloorAction::Radio2, timer: 1 }, 3, far(), &mut rng);
    assert_eq!(next, Floor { action: FloorAction::Radio2, timer: 0 });
    assert_eq!(fx, vec![Effect::PlaySound(Sound::Radio(1))]);
}

#[test]
fn proximity() {
    let o = p(0, 0, 0);
    assert!(within(o, p(3, 4, 0), 6));
    assert!(!within(o, p(3, 4, 0), 5));
    assert!(!within(o, p(i64::MAX, 0, 0), 10 * U));
    assert!(!within(p(i64::MIN, i64::MIN, i64::MIN), p(i64::MAX, i64::MAX, i64::MAX), 10 * U));
    assert!(within(p(1, 1, 1), p(1, 1, 1), 1));
}

#[test]
fn frames_alternate() {
    let even = frame(4);
    assert_eq!((even.floor_y, even.floor_z, even.start_x, even.end_x, even.even), (-7 * U, 6_500_000, 7_500_000, 500_000, true));
    let odd = frame(5);
    assert_eq!((odd.floor_y, odd.floor_z, odd.start_x, odd.end_x, odd.even), (-9 * U, 500_000, 500_000, 7_500_000, false));
}

#[test]
fn placements() {
    assert_eq!(floor_transform(4), Placement { translation: p(0, -8 * U, 0), turned: false });
    assert_eq!(floor_transform(5), Placement { translation: p(8 * U, -10 * U, 7 * U), turned: true });
    assert_eq!(room_label_transform(4), Placement { translation: p(-240_000, -8_600_000, 500_000), turned: true });
    assert_eq!(room_label_transform(5), Placement { translation: p(8_240_000, -10_600_000, 6_500_000), turned: false });
}
