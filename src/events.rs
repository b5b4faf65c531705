//! The floor event machine: each tick advances the behaviour of the floor the
//! player stands on and returns the side effects that the host must carry out.
use vstd::prelude::*;
use bevy_rand::prelude::WyRand;
use crate::dice::{draw_range, draw_signed};
use crate::geometry::{
    center_point, end_point, frame, floor_y, floor_z, is_even, lowered, near, pt, start_point, start_x,
    end_x, within, Point, HALF, UNIT,
};
use crate::layout::{timer_in_range, Floor, FloorAction, LevelLayout, MAX_FLOORS};

verus! {

/// Radius of the three ambush points of `Flash`.
pub const FLASH_RADIUS: i64 = 1_500_000;

/// Radius of the corridor-centre trigger of `Lights`, `Trap` and `Darkness`.
pub const CENTER_RADIUS: i64 = 1_000_000;

/// Radius of the hidden triggers of `Trick1` and `Trick2`.
pub const TRICK_RADIUS: i64 = 250_000;

/// Radius around the far end within which `Roar` is heard.
pub const ROAR_RADIUS: i64 = 6_000_000;

/// Ambient brightness once `Lights` has blown the lamps.
pub const DIM_BRIGHTNESS: u32 = 45;

/// Speed of an enemy that creeps towards the player, in micro-units per tick.
pub const CREEP_SPEED: i64 = 10_000;

/// Bound of each velocity jolt of the roar's shake, in micro-units per tick.
pub const SHAKE_VELOCITY: i64 = 5_000;

/// Bound of each camera jolt of the roar's shake, in micro-degrees.
pub const SHAKE_ROTATION: i64 = 1_000_000;

/// A sound clip, by bank and index within the bank.
#[derive(Clone, Copy, Debug, PartialEq, Eq, Structural)]
pub enum Sound {
    Radio(usize),
    Horror(usize),
    FireOff,
    Roar,
    Stone,
}

/// A request to the host, to be carried out in order.
#[derive(Clone, Copy, Debug, PartialEq, Eq, Structural)]
pub enum Effect {
    /// Play a clip once.
    PlaySound(Sound),
    /// Spawn the enemy at a point; it becomes the current enemy.
    SpawnEnemy { at: Point, speed: i64 },
    /// Remove the current enemy, if there is one.
    DespawnEnemy,
    /// Spawn a brick block at a point.
    SpawnObstacle { at: Point },
    /// Set the ambient brightness.
    SetAmbientBrightness(u32),
    /// Add `velocity` to the player's velocity and turn the camera by
    /// `rotation` (micro-degrees about x, y and z, in that order).
    Shake { velocity: Point, rotation: Point },
}

/// Where a `Flash` floor in sub-state `t` (1, 2 or 3) waits for the player:
/// the far end, then the centre, then the entry end.
pub open spec fn flash_point(f: int, t: int) -> Point {
    if t == 1 {
        end_point(f)
    } else if t == 2 {
        center_point(f)
    } else {
        start_point(f)
    }
}

pub open spec fn trick1_point(f: int) -> Point {
    if is_even(f) {
        pt(start_x(f) - 1_500_000, floor_y(f) - HALF, floor_z(f) - 5 * UNIT)
    } else {
        pt(start_x(f) + 1_500_000, floor_y(f) - HALF, floor_z(f) + 5 * UNIT)
    }
}

pub open spec fn trick2_point(f: int) -> Point {
    if is_even(f) {
        pt(start_x(f) + HALF, floor_y(f) - HALF, floor_z(f) - 5 * UNIT)
    } else {
        pt(start_x(f) - HALF, floor_y(f) - HALF, floor_z(f) + 5 * UNIT)
    }
}

/// The block that closes the far end of the corridor.
pub open spec fn far_block(f: int) -> Point {
    if is_even(f) {
        pt(end_x(f) + HALF, floor_y(f), floor_z(f))
    } else {
        pt(end_x(f) - HALF, floor_y(f), floor_z(f))
    }
}

/// The block that closes the entry end of the corridor.
pub open spec fn near_block(f: int) -> Point {
    if is_even(f) {
        pt(start_x(f) - HALF, floor_y(f), floor_z(f))
    } else {
        pt(start_x(f) + HALF, floor_y(f), floor_z(f))
    }
}

/// One of the two random horror stingers.
pub open spec fn is_horror(e: Effect) -> bool {
    e matches Effect::PlaySound(Sound::Horror(k)) && k < 2
}

pub open spec fn in_bound(v: i64, bound: i64) -> bool {
    -bound <= v < bound
}

/// A shake whose jolts all lie within their bounds.
pub open spec fn is_shake(e: Effect) -> bool {
    e matches Effect::Shake { velocity, rotation } && in_bound(velocity.x, SHAKE_VELOCITY) && in_bound(
        velocity.y,
        SHAKE_VELOCITY,
    ) && in_bound(velocity.z, SHAKE_VELOCITY) && in_bound(rotation.x, SHAKE_ROTATION) && in_bound(
        rotation.y,
        SHAKE_ROTATION,
    ) && in_bound(rotation.z, SHAKE_ROTATION)
}

/// An enemy appears at `lowered(q)` with `speed`, with a random stinger.
pub open spec fn ambush(fx: Seq<Effect>, q: Point, speed: i64) -> bool {
    &&& fx.len() == 2
    &&& fx[0] == Effect::SpawnEnemy { at: lowered(q), speed }
    &&& is_horror(fx[1])
}

pub open spec fn with_timer(fl: Floor, t: int) -> Floor {
    Floor { action: fl.action, timer: t as u32 }
}

/// `fl` stays as it is and nothing happens.
pub open spec fn idle(fl: Floor, next: Floor, fx: Seq<Effect>) -> bool {
    next == fl && fx == Seq::<Effect>::empty()
}

/// One tick of floor `f` in state `fl` with the player at `p` may lead to state
/// `next` with effects `fx`. It is exact but for the random sound index and
/// shake jolts, which it bounds.
pub open spec fn tick_spec(fl: Floor, f: int, p: Point, next: Floor, fx: Seq<Effect>) -> bool {
    let t = fl.timer as int;
    if t == 0 {
        idle(fl, next, fx)
    } else {
        match fl.action {
            FloorAction::Proceed => if t == 150 {
                next == with_timer(fl, 0) && fx == seq![Effect::PlaySound(Sound::Radio(0))]
            } else {
                next == with_timer(fl, t + 1) && fx == Seq::<Effect>::empty()
            },
            FloorAction::Radio2 => next == with_timer(fl, 0) && fx == seq![Effect::PlaySound(Sound::Radio(1))],
            FloorAction::Radio3 => next == with_timer(fl, 0) && fx == seq![Effect::PlaySound(Sound::Radio(2))],
            FloorAction::Radio4 => next == with_timer(fl, 0) && fx == seq![Effect::PlaySound(Sound::Radio(3))],
            FloorAction::Flash => if 1 <= t <= 3 {
                if near(p, flash_point(f, t), FLASH_RADIUS as int) {
                    next == with_timer(fl, 5) && ambush(fx, flash_point(f, t), 0)
                } else {
                    idle(fl, next, fx)
                }
            } else if t + 1 > 30 {
                next == with_timer(fl, 0) && fx == seq![Effect::DespawnEnemy]
            } else {
                next == with_timer(fl, t + 1) && fx == Seq::<Effect>::empty()
            },
            FloorAction::Lights => if t == 1 && near(p, center_point(f), CENTER_RADIUS as int) {
                next == with_timer(fl, 2) && fx == seq![
                    Effect::PlaySound(Sound::Horror(1)),
                    Effect::PlaySound(Sound::FireOff),
                    Effect::SetAmbientBrightness(DIM_BRIGHTNESS),
                ]
            } else {
                idle(fl, next, fx)
            },
            FloorAction::Trick1 => if t == 1 && near(p, trick1_point(f), TRICK_RADIUS as int) {
                next == with_timer(fl, 2) && fx == seq![Effect::PlaySound(Sound::Horror(2))]
            } else {
                idle(fl, next, fx)
            },
            FloorAction::Trick2 => if t == 1 && near(p, trick2_point(f), TRICK_RADIUS as int) {
                next == with_timer(fl, 2) && fx == seq![Effect::PlaySound(Sound::Horror(2))]
            } else {
                idle(fl, next, fx)
            },
            FloorAction::Trap => if t == 1 {
                next == with_timer(fl, 2) && fx == seq![Effect::SpawnObstacle { at: far_block(f) }]
            } else if t == 2 && near(p, center_point(f), CENTER_RADIUS as int) {
                next == with_timer(fl, 3) && ambush(fx, start_point(f), CREEP_SPEED)
            } else {
                idle(fl, next, fx)
            },
            FloorAction::Roar => if t == 1 {
                if near(p, end_point(f), ROAR_RADIUS as int) {
                    next == with_timer(fl, 51) && fx == seq![Effect::PlaySound(Sound::Roar)]
                } else {
                    idle(fl, next, fx)
                }
            } else if t + 1 < 370 {
                next == with_timer(fl, t + 1) && fx.len() == 1 && is_shake(fx[0])
            } else {
                next == with_timer(fl, 0) && fx == Seq::<Effect>::empty()
            },
            FloorAction::Darkness => if t == 1 && near(p, center_point(f), CENTER_RADIUS as int) {
                next == with_timer(fl, 2) && fx == seq![
                    Effect::SpawnObstacle { at: near_block(f) },
                    Effect::SpawnObstacle { at: far_block(f) },
                    Effect::PlaySound(Sound::Stone),
                ]
            } else if t + 1 == 600 {
                next == with_timer(fl, 601) && ambush(fx, center_point(f), CREEP_SPEED)
            } else if t < 600 {
                next == with_timer(fl, t + 1) && fx == Seq::<Effect>::empty()
            } else {
                idle(fl, next, fx)
            },
            _ => idle(fl, next, fx),
        }
    }
}

fn horror_stinger(rng: &mut WyRand) -> (r: Effect)
    ensures
        is_horror(r),
{
    let k = draw_range(rng, 0, 2);
    Effect::PlaySound(Sound::Horror(k as usize))
}

fn point(x: i64, y: i64, z: i64) -> (r: Point)
    ensures
        r == (Point { x, y, z }),
{
    Point { x, y, z }
}

/// Advances one floor by one tick.
pub fn tick_floor(fl: Floor, f: usize, p: Point, rng: &mut WyRand) -> (r: (Floor, Vec<Effect>))
    requires
        f < MAX_FLOORS,
        timer_in_range(fl),
    ensures
        tick_spec(fl, f as int, p, r.0, r.1@),
        timer_in_range(r.0),
{
    let t = fl.timer;
    let mut fx: Vec<Effect> = Vec::new();
    if t == 0 {
        return (fl, fx);
    }
    let fr = frame(f);
    let center = point(4 * UNIT, fr.floor_y, fr.floor_z);
    let start = point(fr.start_x, fr.floor_y, fr.floor_z);
    let end = point(fr.end_x, fr.floor_y, fr.floor_z);
    match fl.action {
        FloorAction::Proceed => {
            if t == 150 {
                fx.push(Effect::PlaySound(Sound::Radio(0)));
                (Floor { action: fl.action, timer: 0 }, fx)
            } else {
                (Floor { action: fl.action, timer: t + 1 }, fx)
            }
        },
        FloorAction::Radio2 => {
            fx.push(Effect::PlaySound(Sound::Radio(1)));
            (Floor { action: fl.action, timer: 0 }, fx)
        },
        FloorAction::Radio3 => {
            fx.push(Effect::PlaySound(Sound::Radio(2)));
            (Floor { action: fl.action, timer: 0 }, fx)
        },
        FloorAction::Radio4 => {
            fx.push(Effect::PlaySound(Sound::Radio(3)));
            (Floor { action: fl.action, timer: 0 }, fx)
        },
        FloorAction::Flash => {
            if t <= 3 {
                let q = if t == 1 {
                    end
                } else if t == 2 {
                    center
                } else {
                    start
                };
                if within(p, q, FLASH_RADIUS) {
                    fx.push(Effect::SpawnEnemy { at: point(q.x, q.y - HALF, q.z), speed: 0 });
                    fx.push(horror_stinger(rng));
                    (Floor { action: fl.action, timer: 5 }, fx)
                } else {
                    (fl, fx)
                }
            } else if t + 1 > 30 {
                fx.push(Effect::DespawnEnemy);
                (Floor { action: fl.action, timer: 0 }, fx)
            } else {
                (Floor { action: fl.action, timer: t + 1 }, fx)
            }
        },
        FloorAction::Lights => {
            if t == 1 && within(p, center, CENTER_RADIUS) {
                fx.push(Effect::PlaySound(Sound::Horror(1)));
                fx.push(Effect::PlaySound(Sound::FireOff));
                fx.push(Effect::SetAmbientBrightness(DIM_BRIGHTNESS));
                assert(fx@ =~= seq![
                    Effect::PlaySound(Sound::Horror(1)),
                    Effect::PlaySound(Sound::FireOff),
                    Effect::SetAmbientBrightness(DIM_BRIGHTNESS),
                ]);
                (Floor { action: fl.action, timer: 2 }, fx)
            } else {
                (fl, fx)
            }
        },
        FloorAction::Trick1 | FloorAction::Trick2 => {
            let q = if fl.action == FloorAction::Trick1 {
                if fr.even {
                    point(fr.start_x - 1_500_000, fr.floor_y - HALF, fr.floor_z - 5 * UNIT)
                } else {
                    point(fr.start_x + 1_500_000, fr.floor_y - HALF, fr.floor_z + 5 * UNIT)
                }
            } else {
                if fr.even {
                    point(fr.start_x + HALF, fr.floor_y - HALF, fr.floor_z - 5 * UNIT)
                } else {
                    point(fr.start_x - HALF, fr.floor_y - HALF, fr.floor_z + 5 * UNIT)
                }
            };
            if t == 1 && within(p, q, TRICK_RADIUS) {
                fx.push(Effect::PlaySound(Sound::Horror(2)));
                (Floor { action: fl.action, timer: 2 }, fx)
            } else {
                (fl, fx)
            }
        },
        FloorAction::Trap => {
            if t == 1 {
                let x = if fr.even {
                    fr.end_x + HALF
                } else {
                    fr.end_x - HALF
                };
                fx.push(Effect::SpawnObstacle { at: point(x, fr.floor_y, fr.floor_z) });
                (Floor { action: fl.action, timer: 2 }, fx)
            } else if t == 2 && within(p, center, CENTER_RADIUS) {
                fx.push(
                    Effect::SpawnEnemy { at: point(start.x, start.y - HALF, start.z), speed: CREEP_SPEED },
                );
                fx.push(horror_stinger(rng));
                (Floor { action: fl.action, timer: 3 }, fx)
            } else {
                (fl, fx)
            }
        },
        FloorAction::Roar => {
            if t == 1 {
                if within(p, end, ROAR_RADIUS) {
                    fx.push(Effect::PlaySound(Sound::Roar));
                    (Floor { action: fl.action, timer: 51 }, fx)
                } else {
                    (fl, fx)
                }
            } else if t + 1 < 370 {
                let vx = draw_signed(rng, -SHAKE_VELOCITY, SHAKE_VELOCITY);
                let vy = draw_signed(rng, -SHAKE_VELOCITY, SHAKE_VELOCITY);
                let vz = draw_signed(rng, -SHAKE_VELOCITY, SHAKE_VELOCITY);
                let rx = draw_signed(rng, -SHAKE_ROTATION, SHAKE_ROTATION);
                let ry = draw_signed(rng, -SHAKE_ROTATION, SHAKE_ROTATION);
                let rz = draw_signed(rng, -SHAKE_ROTATION, SHAKE_ROTATION);
                fx.push(Effect::Shake { velocity: point(vx, vy, vz), rotation: point(rx, ry, rz) });
                (Floor { action: fl.action, timer: t + 1 }, fx)
            } else {
                (Floor { action: fl.action, timer: 0 }, fx)
            }
        },
        FloorAction::Darkness => {
            if t == 1 && within(p, center, CENTER_RADIUS) {
                let (near_x, far_x) = if fr.even {
                    (fr.start_x - HALF, fr.end_x + HALF)
                } else {
                    (fr.start_x + HALF, fr.end_x - HALF)
                };
                let first = Effect::SpawnObstacle { at: point(near_x, fr.floor_y, fr.floor_z) };
                let second = Effect::SpawnObstacle { at: point(far_x, fr.floor_y, fr.floor_z) };
                fx.push(first);
                fx.push(second);
                fx.push(Effect::PlaySound(Sound::Stone));
                assert(fx@ =~= seq![first, second, Effect::PlaySound(Sound::Stone)]);
                (Floor { action: fl.action, timer: 2 }, fx)
            } else if t + 1 == 600 {
                fx.push(
                    Effect::SpawnEnemy { at: point(center.x, center.y - HALF, center.z), speed: CREEP_SPEED },
                );
                fx.push(horror_stinger(rng));
                (Floor { action: fl.action, timer: 601 }, fx)
            } else if t < 600 {
                (Floor { action: fl.action, timer: t + 1 }, fx)
            } else {
                (fl, fx)
            }
        },
        _ => (fl, fx),
    }
}

/// Advances the floor the player stands on by one tick and returns what the
/// host must do. Only that floor changes; every other part of the layout
/// stays as it was.
pub fn update_floors(
    map: &mut LevelLayout,
    player: Point,
    player_floor: usize,
    rng: &mut WyRand,
) -> (r: Vec<Effect>)
    requires
        old(map).wf(),
        player_floor < old(map).floors@.len(),
    ensures
        final(map).wf(),
        final(map).floor_amount == old(map).floor_amount,
        final(map).rooms == old(map).rooms,
        final(map).floors@ == old(map).floors@.update(
            player_floor as int,
            final(map).floors@[player_floor as int],
        ),
        tick_spec(
            old(map).floors@[player_floor as int],
            player_floor as int,
            player,
            final(map).floors@[player_floor as int],
            r@,
        ),
{
    let fl = map.floors[player_floor];
    let (next, fx) = tick_floor(fl, player_floor, player, rng);
    map.floors.set(player_floor, next);
    proof {
        assert forall|i: int| 0 <= i < map.floors@.len() implies timer_in_range(
            #[trigger] map.floors@[i],
        ) by {
            if i != player_floor {
                assert(map.floors@[i] == old(map).floors@[i]);
            }
        }
    }
    fx
}

/// A `Flash` floor that waits at one of its three ambush points does not move
/// while the player keeps away from all three: its marker stays and no effect
/// is requested, however many ticks pass.
pub proof fn lemma_flash_waits(fl: Floor, f: int, p: Point, next: Floor, fx: Seq<Effect>)
    requires
        fl.action == FloorAction::Flash,
        fl.timer <= 3,
        !near(p, end_point(f), FLASH_RADIUS as int),
        !near(p, center_point(f), FLASH_RADIUS as int),
        !near(p, start_point(f), FLASH_RADIUS as int),
        tick_spec(fl, f, p, next, fx),
    ensures
        next == fl,
        fx.len() == 0,
{
}

/// A `Trap` floor does nothing while inactive; armed, it places its block on
/// the next tick and moves to its second sub-state, wherever the player is.
pub proof fn lemma_trap_places_block(fl: Floor, f: int, p: Point, next: Floor, fx: Seq<Effect>)
    requires
        fl.action == FloorAction::Trap,
        fl.timer <= 1,
        tick_spec(fl, f, p, next, fx),
    ensures
        fl.timer == 0 ==> next == fl && fx.len() == 0,
        fl.timer == 1 ==> next.timer == 2 && fx == seq![Effect::SpawnObstacle { at: far_block(f) }],
{
}

/// A `Proceed` floor counts one tick at a time, silently; armed at 1, it
/// plays the first radio call on its 150th tick and goes inactive for good.
pub proof fn lemma_proceed_counts(fl: Floor, f: int, p: Point, next: Floor, fx: Seq<Effect>)
    requires
        fl.action == FloorAction::Proceed,
        0 < fl.timer <= 150,
        tick_spec(fl, f, p, next, fx),
    ensures
        fl.timer < 150 ==> next.timer == fl.timer + 1 && next.action == FloorAction::Proceed && fx.len() == 0,
        fl.timer == 150 ==> next.timer == 0 && fx == seq![Effect::PlaySound(Sound::Radio(0))],
        next.timer == 0 ==> tick_spec(next, f, p, next, Seq::<Effect>::empty()),
{
}

} // verus!
