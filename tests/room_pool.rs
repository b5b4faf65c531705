use bevy_rand::prelude::WyRand;
use rand::SeedableRng;
use scp087b::geometry::floor_transform;
use scp087b::layout::{LevelLayout, RoomType};
use scp087b::pool::{player_cull_floor, Activation, InstanceHandle, ObjectPool, RoomRequest};

fn h(id: u64) -> InstanceHandle {
    InstanceHandle { id }
}

#[test]
fn empty_pool_asks_for_a_build() {
    let mut pool = ObjectPool::new();
    assert_eq!(pool.get_or_spawn(3, RoomType::Map2), Activation::Spawn);
    assert!(!pool.is_slot_active(3));
    pool.activate_spawned(3, h(10));
    assert!(pool.is_slot_active(3));
    assert_eq!(pool.active_slots(), vec![3]);
    assert_eq!(pool.get_or_spawn(3, RoomType::Map2), Activation::Active(h(10)));
    assert_eq!(pool.get_or_spawn(3, RoomType::Map5), Activation::Active(h(10)));
    assert_eq!(pool.active_slots(), vec![3]);
}

#[test]
fn released_instances_are_reused_by_shell() {
    let mut pool = ObjectPool::new();
    pool.activate_spawned(1, h(1));
    pool.activate_spawned(2, h(2));
    pool.release(1, RoomType::Map1);
    assert!(!pool.is_slot_active(1));
    assert_eq!(pool.available_count(RoomType::Map1), 1);
    assert!(pool.holds_handle(h(1)));
    assert_eq!(pool.get_or_spawn(7, RoomType::Map3), Activation::Spawn);
    assert_eq!(pool.get_or_spawn(7, RoomType::Map1), Activation::Reused(h(1)));
    assert_eq!(pool.available_count(RoomType::Map1), 0);
    assert!(pool.is_slot_active(7));
    assert_eq!(pool.active_slots(), vec![2, 7]);
}

#[test]
fn reuse_takes_the_latest_release() {
    let mut pool = ObjectPool::new();
    pool.activate_spawned(1, h(1));
    pool.activate_spawned(2, h(2));
    pool.release(1, RoomType::Maze);
    pool.release(2, RoomType::Maze);
    assert_eq!(pool.available_count(RoomType::Maze), 2);
    assert_eq!(pool.get_or_spawn(9, RoomType::Maze), Activation::Reused(h(2)));
    assert_eq!(pool.get_or_spawn(8, RoomType::Maze), Activation::Reused(h(1)));
}

#[test]
fn release_of_idle_slot_is_a_no_op() {
    let mut pool = ObjectPool::new();
    pool.activate_spawned(4, h(4));
    pool.release(5, RoomType::Neutral);
    assert_eq!(pool.active_slots(), vec![4]);
    assert_eq!(pool.available_count(RoomType::Neutral), 0);
    assert!(!pool.holds_handle(h(5)));
}

fn layout(n: usize, seed: u64) -> LevelLayout {
    let mut rng = WyRand::seed_from_u64(seed);
    let mut map = LevelLayout::new(n);
    map.generate(&mut rng);
    map
}

fn serve(pool: &mut ObjectPool, requests: &[RoomRequest], next_id: &mut u64) {
    for r in requests {
        if r.activation == Activation::Spawn {
            assert!(!pool.holds_handle(h(*next_id)));
            pool.activate_spawned(r.slot, h(*next_id));
            *next_id += 1;
        }
    }
}

#[test]
fn cull_keeps_window_and_never_shares_handles() {
    let map = layout(210, 21);
    let mut pool = ObjectPool::new();
    let mut next_id = 100;
    let path: Vec<usize> = (0..30).chain((10..30).rev()).chain(195..209).collect();
    for cur in path {
        let requests = player_cull_floor(&mut pool, &map, cur);
        serve(&mut pool, &requests, &mut next_id);
        let active = pool.active_slots();
        assert!(active.len() <= 3);
        for s in &active {
            assert!(*s + 1 >= cur && *s <= cur + 1);
        }
        for r in &requests {
            assert_eq!(r.kind, map.rooms[r.slot].kind);
            assert_eq!(r.placement, floor_transform(r.slot));
            assert!(pool.is_slot_active(r.slot));
        }
        let mut window: Vec<usize> = requests.iter().map(|r| r.slot).collect();
        window.sort();
        let expected: Vec<usize> = (cur.saturating_sub(1)..=cur + 1).filter(|s| *s < map.rooms.len()).collect();
        assert_eq!(window, expected);
    }
    let total: usize = [
        RoomType::Neutral,
        RoomType::Map0,
        RoomType::Map1,
        RoomType::Map2,
        RoomType::Map3,
        RoomType::Map4,
        RoomType::Map5,
        RoomType::Map6,
        RoomType::Maze,
    ]
    .iter()
    .map(|k| pool.available_count(*k))
    .sum();
    assert_eq!(total + pool.active_slots().len(), (next_id - 100) as usize);
}

#[test]
fn cull_reuses_instead_of_building() {
    let mut map = LevelLayout::new(12);
    for _ in 0..11 {
        map.rooms.push(scp087b::layout::Room { kind: RoomType::Neutral, label: None });
    }
    let mut pool = ObjectPool::new();
    let mut next_id = 0;
    for cur in 0..11 {
        let requests = player_cull_floor(&mut pool, &map, cur);
        serve(&mut pool, &requests, &mut next_id);
    }
    assert_eq!(next_id, 4);
    assert_eq!(pool.active_slots().len(), 2);
    assert_eq!(pool.available_count(RoomType::Neutral), 2);
    let requests = player_cull_floor(&mut pool, &map, 5);
    let kinds: Vec<Activation> = requests.iter().map(|r| r.activation).collect();
    assert!(matches!(kinds[0], Activation::Reused(_)));
    assert!(matches!(kinds[1], Activation::Reused(_)));
    assert_eq!(kinds[2], Activation::Spawn);
    assert_eq!(pool.available_count(RoomType::Neutral), 2);
}

#[test]
fn active_slots_checked_against_bound() {
    let mut pool = ObjectPool::new();
    pool.activate_spawned(4, h(4));
    assert!(pool.all_slots_below(5));
    assert!(!pool.all_slots_below(4));
}

#[test]
fn cull_keeps_instances_and_releases_by_kind() {
    let mut map = LevelLayout::new(12);
    let kinds = [RoomType::Map1, RoomType::Map2, RoomType::Map3];
    for i in 0..11 {
        map.rooms.push(scp087b::layout::Room { kind: kinds[i % 3], label: None });
    }
    let mut pool = ObjectPool::new();
    let mut next_id = 0;
    let first = player_cull_floor(&mut pool, &map, 5);
    serve(&mut pool, &first, &mut next_id);
    assert_eq!(pool.active_slots(), vec![4, 5, 6]);
    let before = [pool.available_count(RoomType::Map1), pool.available_count(RoomType::Map2)];
    let second = player_cull_floor(&mut pool, &map, 6);
    let slots: Vec<usize> = second.iter().map(|r| r.slot).collect();
    assert_eq!(slots, vec![5, 6, 7]);
    assert_eq!(second[0].activation, Activation::Active(h(1)));
    assert_eq!(second[1].activation, Activation::Active(h(2)));
    assert_eq!(second[2].activation, Activation::Spawn);
    assert!(!pool.is_slot_active(4));
    assert_eq!(pool.available_count(RoomType::Map2), before[1] + 1);
    assert_eq!(pool.available_count(RoomType::Map1), before[0]);
    assert!(pool.holds_handle(h(0)));
}
