//! What the player sees of the level besides the rooms: the floor sign, and
//! the glimpses of a figure that vanish when approached.
use vstd::prelude::*;
use bevy_rand::prelude::WyRand;
use crate::dice::{draw_range, draw_signed};
use crate::geometry::{floor_y, label_placement, near, room_label_transform, within, Placement, Point};
use crate::layout::{FloorAction, LevelLayout, MAX_FLOORS};

verus! {

/// Distance within which a glimpse vanishes.
pub const GLIMPSE_RADIUS: i64 = 2_300_000;

/// The sign shown to a player on floor `floor_index`: the label of room slot
/// `floor_index - 1` and where it stands, if that slot has a label.
pub fn player_label_floor(map: &LevelLayout, floor_index: usize) -> (r: Option<(String, Placement)>)
    requires
        map.rooms@.len() <= MAX_FLOORS,
    ensures
        floor_index == 0 || floor_index > map.rooms@.len() || map.rooms@[floor_index - 1].label is None
            ==> r is None,
        1 <= floor_index <= map.rooms@.len() && map.rooms@[floor_index - 1].label is Some ==> r == Some(
            (map.rooms@[floor_index - 1].label->0, label_placement(floor_index - 1)),
        ),
{
    if floor_index == 0 || floor_index > map.rooms.len() {
        return None;
    }
    let slot = floor_index - 1;
    match &map.rooms[slot].label {
        Some(label) => Some((label.clone(), room_label_transform(slot))),
        None => None,
    }
}

/// Depth of the wall a glimpse stands against on floor `i`.
pub open spec fn glimpse_z(i: int) -> int {
    if i % 2 == 0 { 6_550_000 } else { 300_000 }
}

/// The glimpse floor `i` gets for its chance roll `roll` (in `1..7`) and a
/// point `x` along the corridor: one only on an idle floor whose roll is 1.
pub open spec fn glimpse_of(map: LevelLayout, i: int, roll: int, x: int) -> Option<Point> {
    if map.floors@[i].action == FloorAction::Steps && roll == 1 {
        Some(Point { x: x as i64, y: floor_y(i) as i64, z: glimpse_z(i) as i64 })
    } else {
        None
    }
}

/// The glimpse of floor `i` for a chance roll and a point along the corridor.
pub fn glimpse_at(map: &LevelLayout, i: usize, roll: u64, x: i64) -> (r: Option<Point>)
    requires
        i < map.floors@.len() <= MAX_FLOORS,
    ensures
        r == glimpse_of(*map, i as int, roll as int, x as int),
{
    if map.floors[i].action == FloorAction::Steps && roll == 1 {
        let y = 1_000_000 - 2_000_000 * (i as i64);
        let z: i64 = if i % 2 == 0 {
            6_550_000
        } else {
            300_000
        };
        Some(Point { x, y, z })
    } else {
        None
    }
}

/// `g` is the glimpse of idle floor `i`: at its height, against its wall,
/// somewhere along the corridor.
pub open spec fn glimpse_spot(map: LevelLayout, i: int, g: Point) -> bool {
    &&& 0 <= i < map.floors@.len()
    &&& map.floors@[i].action == FloorAction::Steps
    &&& g.y == floor_y(i)
    &&& g.z == glimpse_z(i)
    &&& 800_000 <= g.x < 7_200_000
}

/// `g` is the glimpse of some idle floor.
pub open spec fn is_glimpse(map: LevelLayout, g: Point) -> bool {
    exists|i: int| #[trigger] glimpse_spot(map, i, g)
}

/// Scatters glimpses, floor by floor from the top: each idle floor gets one
/// with chance 1 in 6, at a random point along its corridor. The result holds
/// at most one glimpse per floor, in floor order.
pub fn spawn_glimpses(map: &LevelLayout, rng: &mut WyRand) -> (r: Vec<Point>)
    requires
        map.floors@.len() <= MAX_FLOORS,
    ensures
        r@.len() <= map.floors@.len(),
        forall|j: int| 0 <= j < r@.len() ==> is_glimpse(*map, #[trigger] r@[j]),
        forall|j: int, k: int| 0 <= j < k < r@.len() ==> #[trigger] r@[j].y > #[trigger] r@[k].y,
{
    let mut spots: Vec<Point> = Vec::new();
    let mut i: usize = 0;
    while i < map.floors.len()
        invariant
            i <= map.floors@.len() <= MAX_FLOORS,
            spots@.len() <= i,
            forall|j: int| 0 <= j < spots@.len() ==> is_glimpse(*map, #[trigger] spots@[j]),
            forall|j: int| 0 <= j < spots@.len() ==> #[trigger] spots@[j].y > floor_y(i as int),
            forall|j: int, k: int|
                0 <= j < k < spots@.len() ==> #[trigger] spots@[j].y > #[trigger] spots@[k].y,
        decreases map.floors@.len() - i,
    {
        if map.floors[i].action == FloorAction::Steps {
            let roll = draw_range(rng, 1, 7);
            let x = if roll == 1 {
                draw_signed(rng, 800_000, 7_200_000)
            } else {
                800_000
            };
            match glimpse_at(map, i, roll, x) {
                Some(g) => {
                    let ghost prev = spots@;
                    spots.push(g);
                    proof {
                        assert(glimpse_spot(*map, i as int, g));
                        assert forall|j: int| 0 <= j < spots@.len() implies is_glimpse(*map, #[trigger] spots@[j]) by {
                            if j < prev.len() {
                                assert(spots@[j] == prev[j]);
                            }
                        }
                    }
                },
                None => {},
            }
        }
        i += 1;
    }
    spots
}

/// The floor a glimpse at height `y` belongs to.
pub open spec fn glimpse_floor(y: int) -> int {
    if -y - 500_000 <= 0 {
        0
    } else {
        (-y - 500_000) / 2_000_000
    }
}

/// A player on floor `player_floor` at `player` sees the glimpse at `g`
/// vanish: it is on the player's floor and close by.
pub fn glimpse_seen(player_floor: usize, player: Point, g: Point) -> (r: bool)
    ensures
        r == (player_floor >= 1 && player_floor - 1 == glimpse_floor(g.y as int) && near(
            player,
            g,
            GLIMPSE_RADIUS as int,
        )),
{
    let depth: i128 = -(g.y as i128) - 500_000;
    let floor: i128 = if depth <= 0 {
        0
    } else {
        depth / 2_000_000
    };
    player_floor >= 1 && (player_floor - 1) as i128 == floor && within(player, g, GLIMPSE_RADIUS)
}

} // verus!
