//! The level layout: one behaviour per floor and one room shell per floor slot.
use vstd::prelude::*;

verus! {

/// The largest number of floors a layout may hold, so that every coordinate of
/// every floor fits in an `i64` of micro-units.
pub const MAX_FLOORS: usize = 1_000_000_000;

/// Number of floors of a standard level.
pub const FLOOR_AMOUNT: usize = 210;

/// The behaviour script a floor runs when the player stands on it.
#[derive(Clone, Copy, Debug, PartialEq, Eq, Structural)]
pub enum FloorAction {
    Steps,
    Lights,
    Flash,
    Run,
    Breath,
    Proceed,
    Trap,
    Scp173,
    Cell,
    Lock,
    Radio2,
    Radio3,
    Radio4,
    Trick1,
    Trick2,
    Roar,
    Darkness,
}

/// One floor: its behaviour and the progress marker of that behaviour.
///
/// `timer == 0` means the behaviour is inactive; any other value is a sub-state
/// whose meaning depends on `action`. The marker counts whole ticks.
#[derive(Clone, Copy, Debug, PartialEq, Eq, Structural)]
pub struct Floor {
    pub action: FloorAction,
    pub timer: u32,
}

/// The visual shell of a room.
#[derive(Clone, Copy, Debug, PartialEq, Eq, Structural)]
pub enum RoomType {
    Neutral,
    Map0,
    Map1,
    Map2,
    Map3,
    Map4,
    Map5,
    Map6,
    Maze,
}

/// One room: its shell and the text on its floor sign, if any.
#[derive(Clone, Debug, PartialEq, Eq)]
pub struct Room {
    pub kind: RoomType,
    pub label: Option<String>,
}

/// The whole level: `floor_amount` floors and the rooms generated for them.
#[derive(Clone, Debug, PartialEq, Eq)]
pub struct LevelLayout {
    pub floor_amount: usize,
    pub floors: Vec<Floor>,
    pub rooms: Vec<Room>,
}

/// The floor every index holds before generation: idle footsteps, inactive.
pub open spec fn blank_floor() -> Floor {
    Floor { action: FloorAction::Steps, timer: 0 }
}

/// The sub-states a floor's marker can take for its action. Behaviours that
/// count ticks stop at a fixed bound; the others never count.
pub open spec fn timer_in_range(fl: Floor) -> bool {
    match fl.action {
        FloorAction::Proceed => fl.timer <= 150,
        FloorAction::Flash => fl.timer <= 30,
        FloorAction::Roar => fl.timer < 370,
        FloorAction::Darkness => fl.timer <= 601,
        _ => true,
    }
}

impl RoomType {
    /// Position of the kind in declaration order.
    pub open spec fn index_of(self) -> nat {
        match self {
            RoomType::Neutral => 0,
            RoomType::Map0 => 1,
            RoomType::Map1 => 2,
            RoomType::Map2 => 3,
            RoomType::Map3 => 4,
            RoomType::Map4 => 5,
            RoomType::Map5 => 6,
            RoomType::Map6 => 7,
            RoomType::Maze => 8,
        }
    }

    pub fn index(self) -> (r: usize)
        ensures
            r == self.index_of(),
            r < 9,
    {
        match self {
            RoomType::Neutral => 0,
            RoomType::Map0 => 1,
            RoomType::Map1 => 2,
            RoomType::Map2 => 3,
            RoomType::Map3 => 4,
            RoomType::Map4 => 5,
            RoomType::Map5 => 6,
            RoomType::Map6 => 7,
            RoomType::Maze => 8,
        }
    }
}

impl LevelLayout {
    /// Every floor's marker is a sub-state of its action, and the floor vector
    /// has the announced size.
    pub open spec fn wf(&self) -> bool {
        &&& self.floors@.len() == self.floor_amount
        &&& self.floor_amount <= MAX_FLOORS
        &&& forall|i: int| 0 <= i < self.floors@.len() ==> timer_in_range(#[trigger] self.floors@[i])
    }

    /// The state before generation: every floor blank, no rooms.
    pub open spec fn is_blank(&self) -> bool {
        &&& self.floors@.len() == self.floor_amount
        &&& self.rooms@.len() == 0
        &&& forall|i: int| 0 <= i < self.floors@.len() ==> #[trigger] self.floors@[i] == blank_floor()
    }

    /// A layout of `floor_amount` blank floors and no rooms.
    pub fn new(floor_amount: usize) -> (r: Self)
        ensures
            r.floor_amount == floor_amount,
            r.is_blank(),
    {
        let mut floors: Vec<Floor> = Vec::new();
        let mut i: usize = 0;
        while i < floor_amount
            invariant
                i <= floor_amount,
                floors@.len() == i,
                forall|j: int| 0 <= j < i ==> #[trigger] floors@[j] == blank_floor(),
            decreases floor_amount - i,
        {
            floors.push(Floor { action: FloorAction::Steps, timer: 0 });
            i += 1;
        }
        LevelLayout { floor_amount, floors, rooms: Vec::new() }
    }

    /// Tells whether `wf` holds, for callers that Verus does not check.
    pub fn is_well_formed(&self) -> (r: bool)
        ensures
            r == self.wf(),
    {
        if self.floors.len() != self.floor_amount || self.floor_amount > MAX_FLOORS {
            return false;
        }
        let mut i: usize = 0;
        while i < self.floors.len()
            invariant
                i <= self.floors@.len(),
                forall|j: int| 0 <= j < i ==> timer_in_range(#[trigger] self.floors@[j]),
            decreases self.floors@.len() - i,
        {
            let fl = self.floors[i];
            let ok = match fl.action {
                FloorAction::Proceed => fl.timer <= 150,
                FloorAction::Flash => fl.timer <= 30,
                FloorAction::Roar => fl.timer < 370,
                FloorAction::Darkness => fl.timer <= 601,
                _ => true,
            };
            if !ok {
                return false;
            }
            i += 1;
        }
        true
    }

    /// The floor slots `distance` above and below `cur_floor`, and `cur_floor`
    /// itself, in that order; a slot outside `0..floor_amount` is `None`.
    pub fn nearest_rooms_to_floor(&self, cur_floor: usize, distance: usize) -> (r: [Option<usize>; 3])
        ensures
            r@[0] == (if cur_floor >= distance {
                Some((cur_floor - distance) as usize)
            } else {
                None
            }),
            r@[1] == Some(cur_floor),
            r@[2] == (if cur_floor + distance < self.floor_amount {
                Some((cur_floor + distance) as usize)
            } else {
                None
            }),
    {
        let above_room = if cur_floor >= distance {
            Some(cur_floor - distance)
        } else {
            None
        };
        let bottom_room = if distance < self.floor_amount && cur_floor < self.floor_amount - distance {
            Some(cur_floor + distance)
        } else {
            None
        };
        [above_room, Some(cur_floor), bottom_room]
    }
}

impl Default for LevelLayout {
    /// A blank layout of the standard size.
    fn default() -> (r: Self)
        ensures
            r.floor_amount == FLOOR_AMOUNT,
            r.is_blank(),
    {
        LevelLayout::new(FLOOR_AMOUNT)
    }
}

} // verus!
