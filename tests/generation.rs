use bevy_rand::prelude::WyRand;
use rand::SeedableRng;
use scp087b::generator::{push_decimal, room_kind, scatter_action, sign_text, ScatterError};
use scp087b::layout::{Floor, FloorAction, LevelLayout, RoomType};

fn generated(n: usize, seed: u64) -> LevelLayout {
    let mut rng = WyRand::seed_from_u64(seed);
    let mut map = LevelLayout::new(n);
    map.generate(&mut rng);
    map
}

fn armed(action: FloorAction) -> Floor {
    Floor { action, timer: 1 }
}

fn blank() -> Floor {
    Floor { action: FloorAction::Steps, timer: 0 }
}

fn shallow(a: FloorAction) -> bool {
    matches!(
        a,
        FloorAction::Flash
            | FloorAction::Trick1
            | FloorAction::Trick2
            | FloorAction::Breath
            | FloorAction::Steps
            | FloorAction::Trap
            | FloorAction::Roar
            | FloorAction::Cell
    )
}

fn deep(a: FloorAction) -> bool {
    matches!(
        a,
        FloorAction::Lights
            | FloorAction::Run
            | FloorAction::Trick2
            | FloorAction::Breath
            | FloorAction::Steps
            | FloorAction::Trap
            | FloorAction::Roar
            | FloorAction::Cell
    )
}

#[test]
fn new_layout_is_blank() {
    let map = LevelLayout::new(5);
    assert_eq!(map.floor_amount, 5);
    assert_eq!(map.floors.len(), 5);
    assert!(map.floors.iter().all(|f| *f == blank()));
    assert!(map.rooms.is_empty());
    assert!(map.is_well_formed());
}

#[test]
fn generate_sizes() {
    for (n, seed) in [(200usize, 1u64), (210, 2), (257, 3), (400, 4)] {
        let map = generated(n, seed);
        assert_eq!(map.floor_amount, n);
        assert_eq!(map.floors.len(), n);
        assert_eq!(map.rooms.len(), n - 1);
        assert!(map.is_well_formed());
    }
}

#[test]
fn generate_is_deterministic() {
    for seed in [0u64, 7, 99, 12345] {
        let a = generated(210, seed);
        let b = generated(210, seed);
        assert_eq!(a, b);
    }
    assert_ne!(generated(210, 5), generated(210, 6));
}

#[test]
fn fixed_floors() {
    for seed in 0..20u64 {
        let map = generated(210, seed);
        assert_eq!(map.floors[0], blank());
        assert_eq!(map.floors[1], armed(FloorAction::Proceed));
        assert_eq!(map.floors[7], armed(FloorAction::Lock));
        for i in [2usize, 4, 6, 9] {
            assert_eq!(map.floors[i], blank());
        }
        assert!(map.floors[3] == blank() || map.floors[3] == armed(FloorAction::Radio2));
        assert!(map.floors[5] == blank() || map.floors[5] == armed(FloorAction::Radio3));
        assert!(map.floors[8] == blank() || map.floors[8] == armed(FloorAction::Radio4));
    }
}

#[test]
fn ranged_floors() {
    for seed in 0..20u64 {
        let map = generated(210, seed);
        let count = |lo: usize, hi: usize, f: Floor| map.floors[lo..hi].iter().filter(|x| **x == f).count();
        assert_eq!(count(10, 19, armed(FloorAction::Flash)), 1);
        assert_eq!(count(20, 22, armed(FloorAction::Lights)), 1);
        assert_eq!(count(29, 33, armed(FloorAction::Run)), 1);
        assert_eq!(count(34, 37, armed(FloorAction::Scp173)), 1);
        assert_eq!(count(150, 200, armed(FloorAction::Darkness)), 1);
        let tricks = map.floors[25..28].iter().filter(|x| x.timer == 1).count();
        assert!(tricks <= 1);
        for i in 69..75 {
            assert_eq!(map.floors[i], blank());
        }
        for i in 200..210 {
            assert_eq!(map.floors[i], blank());
        }
    }
}

#[test]
fn scatter_exclusivity() {
    for seed in 0..30u64 {
        let map = generated(210, seed);
        for i in 25..69 {
            let f = map.floors[i];
            if f.timer == 1 {
                assert!(matches!(
                    f.action,
                    FloorAction::Run | FloorAction::Scp173 | FloorAction::Trick1 | FloorAction::Trick2
                ));
            } else {
                assert_eq!(f.timer, 0);
                assert!(shallow(f.action));
            }
        }
        for i in 75..200 {
            let f = map.floors[i];
            if f.action != FloorAction::Darkness {
                assert_eq!(f.timer, 0);
                assert!(deep(f.action));
            }
        }
        let scattered = map.floors[25..69]
            .iter()
            .filter(|f| f.timer == 0 && f.action != FloorAction::Steps)
            .count();
        assert!(scattered <= 8);
        let scattered_deep = map.floors[75..200]
            .iter()
            .filter(|f| f.timer == 0 && f.action != FloorAction::Steps)
            .count();
        assert!(scattered_deep <= 60);
        assert!(scattered_deep >= 40);
    }
}

#[test]
fn scatter_fill_touches_only_idle_floors() {
    let mut rng = WyRand::seed_from_u64(11);
    let mut map = LevelLayout::new(60);
    for i in 10..20 {
        map.floors[i] = armed(FloorAction::Run);
    }
    let before = map.clone();
    let picks = map.scatter_fill(&mut rng, 15, 10, 40, false).expect("twenty idle floors");
    assert_eq!(picks.len(), 15);
    for i in 0..60 {
        if !(10..40).contains(&i) || before.floors[i].action != FloorAction::Steps {
            assert_eq!(map.floors[i], before.floors[i]);
        }
    }
    for (i, a) in &picks {
        assert!((20..40).contains(i));
        assert!(shallow(*a));
        if *a != FloorAction::Steps {
            assert_eq!(map.floors[*i].action, *a);
            assert_eq!(map.floors[*i].timer, 0);
        }
    }
}

#[test]
fn scatter_fill_stops_when_range_is_full() {
    let mut rng = WyRand::seed_from_u64(3);
    let mut map = LevelLayout::new(20);
    for i in 0..20 {
        map.floors[i] = armed(FloorAction::Lock);
    }
    assert_eq!(map.scatter_fill(&mut rng, 4, 5, 10, true), Err(ScatterError::RangeFull));
    assert!(map.floors.iter().all(|f| *f == armed(FloorAction::Lock)));
    let mut small = LevelLayout::new(20);
    let result = small.scatter_fill(&mut rng, 30, 5, 10, false);
    if result.is_err() {
        assert!(small.floors[5..10].iter().all(|f| f.action != FloorAction::Steps));
    }
}

#[test]
fn scatter_fill_exact_when_room_enough() {
    for seed in 0..10u64 {
        let mut rng = WyRand::seed_from_u64(seed);
        let mut map = LevelLayout::new(30);
        let picks = map.scatter_fill(&mut rng, 5, 0, 5, true).expect("five idle floors");
        assert_eq!(picks.len(), 5);
    }
}

#[test]
fn scatter_tables() {
    assert_eq!(scatter_action(false, 2), FloorAction::Flash);
    assert_eq!(scatter_action(false, 3), FloorAction::Trick1);
    assert_eq!(scatter_action(true, 2), FloorAction::Lights);
    assert_eq!(scatter_action(true, 3), FloorAction::Run);
    assert_eq!(scatter_action(true, 4), FloorAction::Trick2);
    assert_eq!(scatter_action(false, 6), FloorAction::Steps);
    assert_eq!(scatter_action(true, 7), FloorAction::Trap);
    assert_eq!(scatter_action(false, 8), FloorAction::Roar);
    assert_eq!(scatter_action(false, 1), FloorAction::Cell);
    assert_eq!(scatter_action(true, 9), FloorAction::Cell);
}

#[test]
fn room_kind_table() {
    assert_eq!(room_kind(0, FloorAction::Cell, 3), RoomType::Map0);
    assert_eq!(room_kind(5, FloorAction::Scp173, 0), RoomType::Map2);
    assert_eq!(room_kind(5, FloorAction::Cell, 0), RoomType::Map1);
    assert_eq!(room_kind(5, FloorAction::Trick1, 0), RoomType::Map4);
    assert_eq!(room_kind(5, FloorAction::Trick2, 0), RoomType::Map5);
    assert_eq!(room_kind(5, FloorAction::Flash, 9), RoomType::Neutral);
    assert_eq!(room_kind(5, FloorAction::Lock, 9), RoomType::Neutral);
    assert_eq!(room_kind(5, FloorAction::Breath, 9), RoomType::Neutral);
    assert_eq!(room_kind(5, FloorAction::Steps, 2), RoomType::Map1);
    assert_eq!(room_kind(5, FloorAction::Steps, 4), RoomType::Map2);
    assert_eq!(room_kind(5, FloorAction::Steps, 6), RoomType::Map3);
    assert_eq!(room_kind(5, FloorAction::Steps, 7), RoomType::Map4);
    assert_eq!(room_kind(5, FloorAction::Steps, 8), RoomType::Map5);
    assert_eq!(room_kind(5, FloorAction::Steps, 9), RoomType::Map6);
    assert_eq!(room_kind(40, FloorAction::Steps, 10), RoomType::Neutral);
    assert_eq!(room_kind(41, FloorAction::Steps, 10), RoomType::Maze);
    assert_eq!(room_kind(41, FloorAction::Steps, 0), RoomType::Neutral);
    assert_eq!(room_kind(41, FloorAction::Steps, 19), RoomType::Neutral);
}

#[test]
fn generated_rooms_follow_floor_below() {
    for seed in 0..10u64 {
        let map = generated(210, seed);
        assert_eq!(map.rooms[0].kind, RoomType::Map0);
        for i in 1..map.rooms.len() {
            let kind = map.rooms[i].kind;
            match map.floors[i + 1].action {
                FloorAction::Scp173 => assert_eq!(kind, RoomType::Map2),
                FloorAction::Cell => assert_eq!(kind, RoomType::Map1),
                FloorAction::Trick1 => assert_eq!(kind, RoomType::Map4),
                FloorAction::Trick2 => assert_eq!(kind, RoomType::Map5),
                FloorAction::Steps => {
                    assert_ne!(kind, RoomType::Map0);
                    if i <= 40 {
                        assert_ne!(kind, RoomType::Maze);
                    }
                }
                _ => assert_eq!(kind, RoomType::Neutral),
            }
        }
    }
}

#[test]
fn generated_labels() {
    for seed in 0..10u64 {
        let map = generated(210, seed);
        assert_eq!(map.rooms[0].label, None);
        let mut numbered = 0;
        for i in 1..map.rooms.len() {
            let label = map.rooms[i].label.clone().expect("every slot but the first has a sign");
            let printable = |c: char| ('!'..='y').contains(&c);
            if i > 140 {
                let n = label.chars().count();
                assert!((1..=3).contains(&n));
                assert!(label.chars().all(printable));
            } else if label == (i + 1).to_string() {
                numbered += 1;
            } else {
                let one = label.chars().count() == 1 && label.chars().all(printable);
                assert!(label.is_empty() || one || ["NIL", "?", "NO", "stop"].contains(&label.as_str()));
            }
        }
        assert!(numbered >= 130);
    }
}

#[test]
fn sign_texts() {
    assert_eq!(sign_text(4, 1, '!'), "");
    assert_eq!(sign_text(4, 2, 'Q'), "Q");
    assert_eq!(sign_text(4, 3, '!'), "NIL");
    assert_eq!(sign_text(4, 4, '!'), "?");
    assert_eq!(sign_text(4, 5, '!'), "NO");
    assert_eq!(sign_text(4, 6, '!'), "stop");
    assert_eq!(sign_text(4, 0, '!'), "5");
    assert_eq!(sign_text(41, 7, '!'), "42");
    assert_eq!(sign_text(139, 599, '!'), "140");
}

#[test]
fn decimal_digits() {
    let mut s = String::from("floor ");
    push_decimal(&mut s, 0);
    assert_eq!(s, "floor 0");
    let mut t = String::new();
    push_decimal(&mut t, 1234567890);
    assert_eq!(t, "1234567890");
    let mut u = String::new();
    push_decimal(&mut u, u64::MAX);
    assert_eq!(u, u64::MAX.to_string());
}

#[test]
fn nearest_rooms() {
    let map = LevelLayout::new(10);
    assert_eq!(map.nearest_rooms_to_floor(0, 1), [None, Some(0), Some(1)]);
    assert_eq!(map.nearest_rooms_to_floor(5, 1), [Some(4), Some(5), Some(6)]);
    assert_eq!(map.nearest_rooms_to_floor(9, 1), [Some(8), Some(9), None]);
    assert_eq!(map.nearest_rooms_to_floor(5, 3), [Some(2), Some(5), Some(8)]);
    assert_eq!(map.nearest_rooms_to_floor(2, 3), [None, Some(2), Some(5)]);
    assert_eq!(map.nearest_rooms_to_floor(7, 3), [Some(4), Some(7), None]);
}

#[test]
fn well_formedness_check() {
    let mut map = LevelLayout::new(3);
    map.floors[1] = Floor { action: FloorAction::Proceed, timer: 150 };
    assert!(map.is_well_formed());
    map.floors[1].timer = 151;
    assert!(!map.is_well_formed());
    map.floors[1] = Floor { action: FloorAction::Darkness, timer: 601 };
    assert!(map.is_well_formed());
    map.floors[1].timer = 602;
    assert!(!map.is_well_formed());
    map.floors[1] = Floor { action: FloorAction::Cell, timer: 9999 };
    assert!(map.is_well_formed());
    map.floor_amount = 4;
    assert!(!map.is_well_formed());
}
