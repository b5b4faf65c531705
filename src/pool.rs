//! The room pool: scene instances of room shells are kept and reused instead
//! of being built and destroyed as the player moves between floors.
use vstd::prelude::*;
use crate::geometry::{floor_placement, floor_transform, Placement};
use crate::layout::{LevelLayout, RoomType, MAX_FLOORS};

verus! {

/// Number of room shells, one reuse bucket each.
pub const ROOM_KINDS: usize = 9;

/// A scene instance, as the host numbers it.
#[derive(Clone, Copy, Debug, PartialEq, Eq, Structural)]
pub struct InstanceHandle {
    pub id: u64,
}

/// The outcome of asking the pool for the instance of a floor slot.
#[derive(Clone, Copy, Debug, PartialEq, Eq, Structural)]
pub enum Activation {
    /// The slot was active already with this instance; the host moves it.
    Active(InstanceHandle),
    /// A released instance of the right shell now serves the slot; the host
    /// moves it.
    Reused(InstanceHandle),
    /// No instance is free: the host builds one and hands it to
    /// `activate_spawned`.
    Spawn,
}

/// What the host must do for one floor slot of the window around the player.
#[derive(Clone, Copy, Debug, PartialEq, Eq, Structural)]
pub struct RoomRequest {
    pub slot: usize,
    pub kind: RoomType,
    pub placement: Placement,
    pub activation: Activation,
}

/// The slots kept live around the player on `cur`: it and its two neighbours.
pub open spec fn in_window(slot: int, cur: int) -> bool {
    cur - 1 <= slot <= cur + 1
}

/// `req` is a sound request for the pool `pool` over the rooms of `map`:
/// it names the slot's shell and place, and an instance that serves the slot
/// now, or a build for a slot that has none.
pub open spec fn request_ok(req: RoomRequest, pool: ObjectPool, map: LevelLayout) -> bool {
    &&& req.slot < map.rooms@.len()
    &&& req.kind == map.rooms@[req.slot as int].kind
    &&& req.placement == floor_placement(req.slot as int)
    &&& match req.activation {
        Activation::Spawn => !pool.is_active(req.slot),
        Activation::Active(h) => exists|a: int|
            0 <= a < pool.active().len() && #[trigger] pool.active()[a] == (req.slot, h),
        Activation::Reused(h) => exists|a: int|
            0 <= a < pool.active().len() && #[trigger] pool.active()[a] == (req.slot, h),
    }
}

/// Instances by floor slot, and released instances by shell.
///
/// Both maps are vectors on purpose. The active map is walked on every tick to
/// release slots; the walk order of a hash map follows a per-process seed, so
/// the order of releases, and with it which instance a later slot reuses,
/// would change from run to run, while a list keeps activation order and a
/// seeded session replays exactly. Shells form a closed set of nine, so the
/// free lists are one bucket per shell, indexed by `RoomType::index`. What the
/// hash maps gave for free is stated in `wf`: each slot appears once, and each
/// instance sits in exactly one place.
pub struct ObjectPool {
    available_rooms: Vec<Vec<InstanceHandle>>,
    active_rooms: Vec<(usize, InstanceHandle)>,
}

impl ObjectPool {
    /// The active slots and their instances.
    pub closed spec fn active(&self) -> Seq<(usize, InstanceHandle)> {
        self.active_rooms@
    }

    /// The released instances built for shell number `k`, oldest first.
    pub closed spec fn bucket(&self, k: int) -> Seq<InstanceHandle> {
        self.available_rooms@[k]@
    }

    /// Number of reuse buckets.
    pub closed spec fn bucket_count(&self) -> nat {
        self.available_rooms@.len()
    }

    pub open spec fn is_active(&self, slot: usize) -> bool {
        exists|a: int| 0 <= a < self.active().len() && #[trigger] self.active()[a].0 == slot
    }

    pub open spec fn in_active(&self, h: InstanceHandle) -> bool {
        exists|a: int| 0 <= a < self.active().len() && #[trigger] self.active()[a].1 == h
    }

    pub open spec fn in_available(&self, h: InstanceHandle) -> bool {
        exists|k: int, j: int|
            0 <= k < ROOM_KINDS && 0 <= j < self.bucket(k).len() && #[trigger] self.bucket(k)[j] == h
    }

    /// The active list holds entry `e`.
    pub open spec fn has_entry(&self, e: (usize, InstanceHandle)) -> bool {
        exists|b: int| 0 <= b < self.active().len() && #[trigger] self.active()[b] == e
    }

    /// `h` serves a slot of the window around `cur`.
    pub open spec fn serves(&self, h: InstanceHandle, cur: int) -> bool {
        exists|b: int|
            0 <= b < self.active().len() && #[trigger] self.active()[b].1 == h && in_window(self.active()[b].0 as int, cur)
    }

    /// `h` waits in the bucket of shell number `k`.
    pub open spec fn in_bucket(&self, k: int, h: InstanceHandle) -> bool {
        exists|j: int| 0 <= j < self.bucket(k).len() && #[trigger] self.bucket(k)[j] == h
    }

    /// The pool holds `h`, in use or free.
    pub open spec fn holds(&self, h: InstanceHandle) -> bool {
        self.in_active(h) || self.in_available(h)
    }

    /// Each slot is active at most once, and each instance sits in exactly one
    /// place: one active slot, or one position of one bucket.
    pub open spec fn wf(&self) -> bool {
        &&& self.bucket_count() == ROOM_KINDS
        &&& forall|a: int, b: int|
            0 <= a < b < self.active().len() ==> #[trigger] self.active()[a].0 != #[trigger] self.active()[b].0
                && self.active()[a].1 != self.active()[b].1
        &&& forall|k: int, i: int, j: int|
            0 <= k < ROOM_KINDS && 0 <= i < j < self.bucket(k).len() ==> #[trigger] self.bucket(k)[i]
                != #[trigger] self.bucket(k)[j]
        &&& forall|k1: int, k2: int, i: int, j: int|
            0 <= k1 < ROOM_KINDS && 0 <= k2 < ROOM_KINDS && k1 != k2 && 0 <= i < self.bucket(k1).len() && 0
                <= j < self.bucket(k2).len() ==> #[trigger] self.bucket(k1)[i] != #[trigger] self.bucket(k2)[j]
        &&& forall|a: int, k: int, j: int|
            0 <= a < self.active().len() && 0 <= k < ROOM_KINDS && 0 <= j < self.bucket(k).len()
                ==> #[trigger] self.active()[a].1 != #[trigger] self.bucket(k)[j]
    }

    /// Every active slot is below `n`.
    pub open spec fn slots_below(&self, n: nat) -> bool {
        forall|a: int| 0 <= a < self.active().len() ==> #[trigger] self.active()[a].0 < n
    }

    /// An empty pool.
    pub fn new() -> (r: Self)
        ensures
            r.wf(),
            r.active().len() == 0,
            forall|k: int| 0 <= k < ROOM_KINDS ==> #[trigger] r.bucket(k).len() == 0,
    {
        let mut available_rooms: Vec<Vec<InstanceHandle>> = Vec::new();
        let mut k: usize = 0;
        while k < ROOM_KINDS
            invariant
                k <= ROOM_KINDS,
                available_rooms@.len() == k,
                forall|i: int| 0 <= i < k ==> #[trigger] available_rooms@[i]@.len() == 0,
            decreases ROOM_KINDS - k,
        {
            available_rooms.push(Vec::new());
            k += 1;
        }
        ObjectPool { available_rooms, active_rooms: Vec::new() }
    }

    /// Where `slot` is active, its position in the active list.
    fn find(&self, slot: usize) -> (r: Option<usize>)
        ensures
            r matches Some(a) ==> a < self.active().len() && self.active()[a as int].0 == slot,
            r is None ==> !self.is_active(slot),
    {
        let mut a: usize = 0;
        while a < self.active_rooms.len()
            invariant
                a <= self.active().len(),
                forall|b: int| 0 <= b < a ==> #[trigger] self.active()[b].0 != slot,
            decreases self.active().len() - a,
        {
            if self.active_rooms[a].0 == slot {
                return Some(a);
            }
            a += 1;
        }
        None
    }

    /// Whether `slot` is active.
    pub fn is_slot_active(&self, slot: usize) -> (r: bool)
        ensures
            r == self.is_active(slot),
    {
        self.find(slot).is_some()
    }

    /// The instance for floor slot `slot` with shell `kind`: the slot's own
    /// if it is active; else the most recently released instance of that
    /// shell, which becomes the slot's; else none, and the host must build one.
    pub fn get_or_spawn(&mut self, slot: usize, kind: RoomType) -> (r: Activation)
        requires
            old(self).wf(),
        ensures
            final(self).wf(),
            old(self).is_active(slot) ==> *final(self) == *old(self) && (r matches Activation::Active(h)
                && exists|a: int|
                0 <= a < old(self).active().len() && #[trigger] old(self).active()[a] == (slot, h)),
            !old(self).is_active(slot) && old(self).bucket(kind.index_of() as int).len() > 0 ==> {
                let b = old(self).bucket(kind.index_of() as int);
                &&& r == Activation::Reused(b.last())
                &&& final(self).active() == old(self).active().push((slot, b.last()))
                &&& final(self).bucket(kind.index_of() as int) == b.drop_last()
                &&& forall|k: int|
                    0 <= k < ROOM_KINDS && k != kind.index_of() ==> #[trigger] final(self).bucket(k)
                        == old(self).bucket(k)
            },
            !old(self).is_active(slot) && old(self).bucket(kind.index_of() as int).len() == 0 ==> r
                == Activation::Spawn && *final(self) == *old(self),
            forall|h: InstanceHandle| #[trigger] final(self).holds(h) == old(self).holds(h),
    {
        match self.find(slot) {
            Some(a) => {
                return Activation::Active(self.active_rooms[a].1);
            },
            None => {},
        }
        let k = kind.index();
        if self.available_rooms[k].len() == 0 {
            return Activation::Spawn;
        }
        let mut bucket: Vec<InstanceHandle> = Vec::new();
        self.available_rooms.set_and_swap(k, &mut bucket);
        let popped = bucket.pop();
        self.available_rooms.set_and_swap(k, &mut bucket);
        match popped {
            Some(h) => {
                let ghost prev = *old(self);
                self.active_rooms.push((slot, h));
                proof {
                    let b = prev.bucket(k as int);
                    assert(self.active() == prev.active().push((slot, h)));
                    assert(self.bucket(k as int) =~= b.drop_last());
                    assert forall|kk: int| 0 <= kk < ROOM_KINDS && kk != k implies #[trigger] self.bucket(kk)
                        == prev.bucket(kk) by {}
                    assert(prev.bucket(k as int)[b.len() - 1] == h);
                    assert forall|a: int, c: int|
                        0 <= a < c < self.active().len() implies #[trigger] self.active()[a].0
                        != #[trigger] self.active()[c].0 && self.active()[a].1 != self.active()[c].1 by {
                        assert(self.active()[a] == prev.active()[a]);
                        if c == self.active().len() - 1 {
                            assert(self.active()[c] == (slot, h));
                            assert(!prev.is_active(slot));
                            assert(prev.active()[a].0 != slot);
                            assert(prev.active()[a].1 != prev.bucket(k as int)[b.len() - 1]);
                        } else {
                            assert(self.active()[c] == prev.active()[c]);
                            assert(prev.active()[a].0 != prev.active()[c].0);
                        }
                        assert(self.active()[a].0 != self.active()[c].0);
                        assert(self.active()[a].1 != self.active()[c].1);
                    }
                    assert forall|kk: int, i: int, j: int|
                        0 <= kk < ROOM_KINDS && 0 <= i < j < self.bucket(kk).len() implies #[trigger] self.bucket(kk)[i]
                        != #[trigger] self.bucket(kk)[j] by {
                        if kk == k {
                            assert(self.bucket(kk)[i] == prev.bucket(kk)[i]);
                            assert(self.bucket(kk)[j] == prev.bucket(kk)[j]);
                        }
                    }
                    assert forall|k1: int, k2: int, i: int, j: int|
                        0 <= k1 < ROOM_KINDS && 0 <= k2 < ROOM_KINDS && k1 != k2 && 0 <= i < self.bucket(k1).len() && 0
                            <= j < self.bucket(k2).len() implies #[trigger] self.bucket(k1)[i] != #[trigger] self.bucket(k2)[j] by {
                        if k1 == k {
                            assert(self.bucket(k1)[i] == prev.bucket(k1)[i]);
                        }
                        if k2 == k {
                            assert(self.bucket(k2)[j] == prev.bucket(k2)[j]);
                        }
                    }
                    assert forall|a: int, kk: int, j: int|
                        0 <= a < self.active().len() && 0 <= kk < ROOM_KINDS && 0 <= j < self.bucket(kk).len()
                            implies #[trigger] self.active()[a].1 != #[trigger] self.bucket(kk)[j] by {
                        if a < self.active().len() - 1 {
                            assert(self.active()[a] == prev.active()[a]);
                        } else {
                            assert(self.active()[a] == (slot, h));
                        }
                        if kk == k {
                            assert(self.bucket(kk)[j] == prev.bucket(kk)[j]);
                            if a == self.active().len() - 1 {
                                assert(prev.bucket(k as int)[j] != prev.bucket(k as int)[b.len() - 1]);
                            }
                        } else if a == self.active().len() - 1 {
                            assert(prev.bucket(kk)[j] != prev.bucket(k as int)[b.len() - 1]);
                        }
                    }
                    assert(self.bucket_count() == ROOM_KINDS);
                    assert forall|g: InstanceHandle| #[trigger] self.holds(g) == prev.holds(g) by {
                        if prev.in_available(g) {
                            let (kk, j) = choose|kk: int, j: int|
                                0 <= kk < ROOM_KINDS && 0 <= j < prev.bucket(kk).len() && #[trigger] prev.bucket(kk)[j] == g;
                            if kk == k && j == b.len() - 1 {
                                assert(self.active()[self.active().len() - 1].1 == g);
                            } else {
                                assert(self.bucket(kk)[j] == g);
                            }
                        }
                        if prev.in_active(g) {
                            let a = choose|a: int| 0 <= a < prev.active().len() && #[trigger] prev.active()[a].1 == g;
                            assert(self.active()[a].1 == g);
                        }
                        if self.in_available(g) {
                            let (kk, j) = choose|kk: int, j: int|
                                0 <= kk < ROOM_KINDS && 0 <= j < self.bucket(kk).len() && #[trigger] self.bucket(kk)[j] == g;
                            assert(prev.bucket(kk)[j] == g);
                        }
                        if self.in_active(g) {
                            let a = choose|a: int| 0 <= a < self.active().len() && #[trigger] self.active()[a].1 == g;
                            if a == self.active().len() - 1 {
                                assert(prev.bucket(k as int)[b.len() - 1] == g);
                            } else {
                                assert(prev.active()[a].1 == g);
                            }
                        }
                    }
                }
                Activation::Reused(h)
            },
            None => Activation::Spawn,
        }
    }

    /// Hands the instance of `slot` back: it leaves the active slots and joins
    /// the bucket of shell `kind`. Nothing happens if `slot` is not active.
    pub fn release(&mut self, slot: usize, kind: RoomType)
        requires
            old(self).wf(),
        ensures
            final(self).wf(),
            !old(self).is_active(slot) ==> *final(self) == *old(self),
            old(self).is_active(slot) ==> exists|a: int|
                0 <= a < old(self).active().len() && #[trigger] old(self).active()[a].0 == slot
                    && final(self).active() == old(self).active().remove(a) && final(self).bucket(
                    kind.index_of() as int,
                ) == old(self).bucket(kind.index_of() as int).push(old(self).active()[a].1),
            forall|k: int|
                0 <= k < ROOM_KINDS && k != kind.index_of() ==> #[trigger] final(self).bucket(k)
                    == old(self).bucket(k),
            forall|h: InstanceHandle| #[trigger] final(self).holds(h) == old(self).holds(h),
    {
        let a = match self.find(slot) {
            Some(a) => a,
            None => {
                return;
            },
        };
        let ghost prev = *old(self);
        let (_, h) = self.active_rooms.remove(a);
        let k = kind.index();
        let mut bucket: Vec<InstanceHandle> = Vec::new();
        self.available_rooms.set_and_swap(k, &mut bucket);
        bucket.push(h);
        self.available_rooms.set_and_swap(k, &mut bucket);
        proof {
            let b = prev.bucket(k as int);
            assert(h == prev.active()[a as int].1);
            assert(self.bucket(k as int) == b.push(h));
            assert forall|kk: int| 0 <= kk < ROOM_KINDS && kk != k implies #[trigger] self.bucket(kk)
                == prev.bucket(kk) by {}
            assert(self.bucket_count() == ROOM_KINDS);
            assert forall|x: int, c: int|
                0 <= x < c < self.active().len() implies #[trigger] self.active()[x].0
                != #[trigger] self.active()[c].0 && self.active()[x].1 != self.active()[c].1 by {
                let px = if x < a { x } else { x + 1 };
                let pc = if c < a { c } else { c + 1 };
                assert(self.active()[x] == prev.active()[px]);
                assert(self.active()[c] == prev.active()[pc]);
                assert(prev.active()[px].0 != prev.active()[pc].0);
                assert(self.active()[x].0 != self.active()[c].0);
                assert(self.active()[x].1 != self.active()[c].1);
            }
            assert forall|kk: int, i: int, j: int|
                0 <= kk < ROOM_KINDS && 0 <= i < j < self.bucket(kk).len() implies #[trigger] self.bucket(kk)[i]
                != #[trigger] self.bucket(kk)[j] by {
                if kk == k && j == b.len() {
                    assert(self.bucket(kk)[i] == prev.bucket(kk)[i]);
                    assert(prev.active()[a as int].1 != prev.bucket(kk)[i]);
                }
            }
            assert forall|k1: int, k2: int, i: int, j: int|
                0 <= k1 < ROOM_KINDS && 0 <= k2 < ROOM_KINDS && k1 != k2 && 0 <= i < self.bucket(k1).len() && 0
                    <= j < self.bucket(k2).len() implies #[trigger] self.bucket(k1)[i] != #[trigger] self.bucket(k2)[j] by {
                if k1 == k && i == b.len() {
                    assert(prev.active()[a as int].1 != prev.bucket(k2)[j]);
                } else if k2 == k && j == b.len() {
                    assert(prev.active()[a as int].1 != prev.bucket(k1)[i]);
                }
            }
            assert forall|x: int, kk: int, j: int|
                0 <= x < self.active().len() && 0 <= kk < ROOM_KINDS && 0 <= j < self.bucket(kk).len()
                    implies #[trigger] self.active()[x].1 != #[trigger] self.bucket(kk)[j] by {
                let px = if x < a { x } else { x + 1 };
                assert(self.active()[x] == prev.active()[px]);
                if kk == k && j == b.len() {
                    assert(px != a);
                    if px < a {
                        assert(prev.active()[px].0 != prev.active()[a as int].0);
                    } else {
                        assert(prev.active()[a as int].0 != prev.active()[px].0);
                    }
                    assert(prev.active()[px].1 != prev.active()[a as int].1);
                }
            }
            assert forall|g: InstanceHandle| #[trigger] self.holds(g) == prev.holds(g) by {
                if prev.in_available(g) {
                    let (kk, j) = choose|kk: int, j: int|
                        0 <= kk < ROOM_KINDS && 0 <= j < prev.bucket(kk).len() && #[trigger] prev.bucket(kk)[j] == g;
                    assert(self.bucket(kk)[j] == g);
                }
                if prev.in_active(g) {
                    let x = choose|x: int| 0 <= x < prev.active().len() && #[trigger] prev.active()[x].1 == g;
                    if x == a {
                        assert(self.bucket(k as int)[b.len() as int] == g);
                    } else {
                        let nx = if x < a { x } else { x - 1 };
                        assert(self.active()[nx].1 == g);
                    }
                }
                if self.in_available(g) {
                    let (kk, j) = choose|kk: int, j: int|
                        0 <= kk < ROOM_KINDS && 0 <= j < self.bucket(kk).len() && #[trigger] self.bucket(kk)[j] == g;
                    if kk == k && j == b.len() {
                        assert(prev.active()[a as int].1 == g);
                    } else {
                        assert(prev.bucket(kk)[j] == g);
                    }
                }
                if self.in_active(g) {
                    let x = choose|x: int| 0 <= x < self.active().len() && #[trigger] self.active()[x].1 == g;
                    let px = if x < a { x } else { x + 1 };
                    assert(prev.active()[px].1 == g);
                }
            }
        }
    }

    /// Makes `slot` active with `h`, an instance the host has just built for
    /// it.
    pub fn activate_spawned(&mut self, slot: usize, h: InstanceHandle)
        requires
            old(self).wf(),
            !old(self).is_active(slot),
            !old(self).holds(h),
        ensures
            final(self).wf(),
            final(self).active() == old(self).active().push((slot, h)),
            forall|k: int| 0 <= k < ROOM_KINDS ==> #[trigger] final(self).bucket(k) == old(self).bucket(k),
            final(self).bucket_count() == old(self).bucket_count(),
    {
        let ghost prev = *old(self);
        self.active_rooms.push((slot, h));
        proof {
            assert forall|x: int, c: int|
                0 <= x < c < self.active().len() implies #[trigger] self.active()[x].0
                != #[trigger] self.active()[c].0 && self.active()[x].1 != self.active()[c].1 by {
                assert(self.active()[x] == prev.active()[x]);
                if c == self.active().len() - 1 {
                    assert(prev.active()[x].0 != slot);
                    assert(prev.active()[x].1 != h);
                } else {
                    assert(self.active()[c] == prev.active()[c]);
                    assert(prev.active()[x].0 != prev.active()[c].0);
                }
                assert(self.active()[x].0 != self.active()[c].0);
                assert(self.active()[x].1 != self.active()[c].1);
            }
            assert forall|x: int, kk: int, j: int|
                0 <= x < self.active().len() && 0 <= kk < ROOM_KINDS && 0 <= j < self.bucket(kk).len()
                    implies #[trigger] self.active()[x].1 != #[trigger] self.bucket(kk)[j] by {
                if x == self.active().len() - 1 {
                    assert(prev.bucket(kk)[j] != h);
                } else {
                    assert(self.active()[x] == prev.active()[x]);
                }
            }
            assert forall|kk: int, i: int, j: int|
                0 <= kk < ROOM_KINDS && 0 <= i < j < self.bucket(kk).len() implies #[trigger] self.bucket(kk)[i]
                != #[trigger] self.bucket(kk)[j] by {
                assert(self.bucket(kk) == prev.bucket(kk));
            }
            assert forall|k1: int, k2: int, i: int, j: int|
                0 <= k1 < ROOM_KINDS && 0 <= k2 < ROOM_KINDS && k1 != k2 && 0 <= i < self.bucket(k1).len() && 0
                    <= j < self.bucket(k2).len() implies #[trigger] self.bucket(k1)[i] != #[trigger] self.bucket(k2)[j] by {
                assert(self.bucket(k1) == prev.bucket(k1));
                assert(self.bucket(k2) == prev.bucket(k2));
            }
        }
    }

    /// Whether the pool holds `h` anywhere, for callers that Verus does not
    /// check.
    pub fn holds_handle(&self, h: InstanceHandle) -> (r: bool)
        requires
            self.wf(),
        ensures
            r == self.holds(h),
    {
        let mut a: usize = 0;
        while a < self.active_rooms.len()
            invariant
                a <= self.active().len(),
                forall|x: int| 0 <= x < a ==> #[trigger] self.active()[x].1 != h,
            decreases self.active().len() - a,
        {
            if self.active_rooms[a].1 == h {
                return true;
            }
            a += 1;
        }
        let mut k: usize = 0;
        while k < ROOM_KINDS
            invariant
                k <= ROOM_KINDS,
                self.wf(),
                forall|x: int| 0 <= x < self.active().len() ==> #[trigger] self.active()[x].1 != h,
                forall|kk: int, j: int|
                    0 <= kk < k && 0 <= j < self.bucket(kk).len() ==> #[trigger] self.bucket(kk)[j] != h,
            decreases ROOM_KINDS - k,
        {
            let mut j: usize = 0;
            while j < self.available_rooms[k].len()
                invariant
                    k < ROOM_KINDS,
                    self.wf(),
                    j <= self.bucket(k as int).len(),
                    forall|jj: int| 0 <= jj < j ==> #[trigger] self.bucket(k as int)[jj] != h,
                decreases self.bucket(k as int).len() - j,
            {
                if self.available_rooms[k][j] == h {
                    return true;
                }
                j += 1;
            }
            k += 1;
        }
        false
    }
}

impl ObjectPool {
    /// The active slots, in the pool's order.
    pub fn active_slots(&self) -> (r: Vec<usize>)
        ensures
            r@.len() == self.active().len(),
            forall|a: int| 0 <= a < r@.len() ==> #[trigger] r@[a] == self.active()[a].0,
    {
        let mut r: Vec<usize> = Vec::new();
        let mut a: usize = 0;
        while a < self.active_rooms.len()
            invariant
                a <= self.active().len(),
                r@.len() == a,
                forall|b: int| 0 <= b < a ==> #[trigger] r@[b] == self.active()[b].0,
            decreases self.active().len() - a,
        {
            r.push(self.active_rooms[a].0);
            a += 1;
        }
        r
    }

    /// Number of released instances of shell `kind` waiting for reuse.
    pub fn available_count(&self, kind: RoomType) -> (r: usize)
        requires
            self.wf(),
        ensures
            r == self.bucket(kind.index_of() as int).len(),
    {
        self.available_rooms[kind.index()].len()
    }

    /// Whether every active slot is below `n`, for callers that Verus does not
    /// check.
    pub fn all_slots_below(&self, n: usize) -> (r: bool)
        ensures
            r == self.slots_below(n as nat),
    {
        let mut a: usize = 0;
        while a < self.active_rooms.len()
            invariant
                a <= self.active().len(),
                forall|b: int| 0 <= b < a ==> #[trigger] self.active()[b].0 < n,
            decreases self.active().len() - a,
        {
            if self.active_rooms[a].0 >= n {
                return false;
            }
            a += 1;
        }
        true
    }
}

/// Serves `slot` from the pool and records what the host must do for it.
fn place_slot(pool: &mut ObjectPool, map: &LevelLayout, slot: usize, requests: &mut Vec<RoomRequest>)
    requires
        old(pool).wf(),
        old(pool).slots_below(map.rooms@.len()),
        map.rooms@.len() <= MAX_FLOORS,
        slot < map.rooms@.len(),
        forall|j: int| 0 <= j < old(requests)@.len() ==> #[trigger] old(requests)@[j].slot < slot,
        forall|j: int| 0 <= j < old(requests)@.len() ==> request_ok(#[trigger] old(requests)@[j], *old(pool), *map),
    ensures
        final(pool).wf(),
        final(pool).slots_below(map.rooms@.len()),
        forall|h: InstanceHandle| #[trigger] final(pool).holds(h) == old(pool).holds(h),
        final(requests)@.len() == old(requests)@.len() + 1,
        final(requests)@.last().slot == slot,
        forall|j: int| 0 <= j < old(requests)@.len() ==> #[trigger] final(requests)@[j] == old(requests)@[j],
        forall|j: int| 0 <= j < final(requests)@.len() ==> request_ok(#[trigger] final(requests)@[j], *final(pool), *map),
        forall|s: usize| s != slot ==> #[trigger] final(pool).is_active(s) == old(pool).is_active(s),
        final(pool).active().len() >= old(pool).active().len(),
        forall|a: int| 0 <= a < old(pool).active().len() ==> #[trigger] final(pool).active()[a] == old(pool).active()[a],
        ({
            let req = final(requests)@.last();
            let k = req.kind.index_of() as int;
            &&& req.activation is Spawn ==> old(pool).bucket(k).len() == 0
            &&& !(req.activation is Reused) ==> *final(pool) == *old(pool)
            &&& req.activation matches Activation::Reused(h) ==> {
                &&& old(pool).bucket(k).len() > 0
                &&& h == old(pool).bucket(k).last()
                &&& final(pool).bucket(k) == old(pool).bucket(k).drop_last()
                &&& final(pool).active() == old(pool).active().push((slot, h))
                &&& forall|kk: int|
                    0 <= kk < ROOM_KINDS && kk != k ==> #[trigger] final(pool).bucket(kk) == old(pool).bucket(kk)
            }
        }),
{
    let ghost prev = *pool;
    let kind = map.rooms[slot].kind;
    let activation = pool.get_or_spawn(slot, kind);
    let req = RoomRequest { slot, kind, placement: floor_transform(slot), activation };
    requests.push(req);
    proof {
        let kk = kind.index_of() as int;
        if !prev.is_active(slot) && prev.bucket(kk).len() > 0 {
            assert(pool.active() == prev.active().push((slot, prev.bucket(kk).last())));
            assert(pool.active()[prev.active().len() as int] == (slot, prev.bucket(kk).last()));
            assert forall|s: usize| s != slot implies #[trigger] pool.is_active(s) == prev.is_active(s) by {
                if pool.is_active(s) {
                    let a = choose|a: int| 0 <= a < pool.active().len() && #[trigger] pool.active()[a].0 == s;
                    assert(prev.active()[a].0 == s);
                }
                if prev.is_active(s) {
                    let a = choose|a: int| 0 <= a < prev.active().len() && #[trigger] prev.active()[a].0 == s;
                    assert(pool.active()[a].0 == s);
                }
            }
            assert forall|j: int| 0 <= j < requests@.len() implies request_ok(#[trigger] requests@[j], *pool, *map) by {
                if j < requests@.len() - 1 {
                    let r = requests@[j];
                    assert(r == old(requests)@[j]);
                    assert(request_ok(r, prev, *map));
                    match r.activation {
                        Activation::Spawn => {
                            assert(pool.is_active(r.slot) == prev.is_active(r.slot));
                        },
                        Activation::Active(h) => {
                            let a = choose|a: int| 0 <= a < prev.active().len() && #[trigger] prev.active()[a] == (r.slot, h);
                            assert(pool.active()[a] == (r.slot, h));
                        },
                        Activation::Reused(h) => {
                            let a = choose|a: int| 0 <= a < prev.active().len() && #[trigger] prev.active()[a] == (r.slot, h);
                            assert(pool.active()[a] == (r.slot, h));
                        },
                    }
                } else {
                    assert(requests@[j] == req);
                }
            }
            assert forall|a: int| 0 <= a < pool.active().len() implies #[trigger] pool.active()[a].0 < map.rooms@.len() by {
                if a < prev.active().len() {
                    assert(pool.active()[a] == prev.active()[a]);
                }
            }
        } else {
            assert forall|j: int| 0 <= j < requests@.len() implies request_ok(#[trigger] requests@[j], *pool, *map) by {
                if j < requests@.len() - 1 {
                    assert(requests@[j] == old(requests)@[j]);
                } else {
                    assert(requests@[j] == req);
                }
            }
        }
    }
}

/// Releases every active slot outside the window around `cur_floor`, each
/// into the bucket of its room's shell.
fn release_outside_window(pool: &mut ObjectPool, map: &LevelLayout, cur_floor: usize)
    requires
        old(pool).wf(),
        old(pool).slots_below(map.rooms@.len()),
        map.rooms@.len() <= MAX_FLOORS,
    ensures
        final(pool).wf(),
        final(pool).slots_below(map.rooms@.len()),
        forall|h: InstanceHandle| #[trigger] final(pool).holds(h) == old(pool).holds(h),
        forall|a: int|
            0 <= a < final(pool).active().len() ==> in_window(#[trigger] final(pool).active()[a].0 as int, cur_floor as int),
        forall|a: int|
            0 <= a < old(pool).active().len() && in_window(old(pool).active()[a].0 as int, cur_floor as int)
                ==> final(pool).has_entry(#[trigger] old(pool).active()[a]),
        forall|a: int|
            0 <= a < old(pool).active().len() && !in_window(#[trigger] old(pool).active()[a].0 as int, cur_floor as int)
                ==> !final(pool).is_active(old(pool).active()[a].0) && final(pool).in_bucket(
                map.rooms@[old(pool).active()[a].0 as int].kind.index_of() as int,
                old(pool).active()[a].1,
            ),
        forall|b: int| 0 <= b < final(pool).active().len() ==> old(pool).has_entry(#[trigger] final(pool).active()[b]),
        forall|k: int, h: InstanceHandle|
            0 <= k < ROOM_KINDS && old(pool).in_bucket(k, h) ==> #[trigger] final(pool).in_bucket(k, h),
{
    let slots = pool.active_slots();
    let ghost act1 = pool.active();
    proof {
        assert forall|a: int| 0 <= a < act1.len() implies pool.has_entry(#[trigger] act1[a]) by {
            assert(pool.active()[a] == act1[a]);
        }
        assert forall|a: int, b: int| 0 <= a < b < act1.len() implies #[trigger] act1[a].0 != #[trigger] act1[b].0 by {
            assert(pool.active()[a].0 != pool.active()[b].0);
        }
        assert forall|a: int|
            0 <= a < pool.active().len() implies in_window(#[trigger] pool.active()[a].0 as int, cur_floor as int)
                || exists|jj: int| 0 <= jj < slots@.len() && #[trigger] slots@[jj] == pool.active()[a].0 by {
            assert(slots@[a] == pool.active()[a].0);
        }
    }
    let mut j: usize = 0;
    while j < slots.len()
        invariant
            j <= slots@.len(),
            pool.wf(),
            pool.slots_below(map.rooms@.len()),
            forall|h: InstanceHandle| #[trigger] pool.holds(h) == old(pool).holds(h),
            forall|b: int| 0 <= b < pool.active().len() ==> old(pool).has_entry(#[trigger] pool.active()[b]),
            forall|k: int, h: InstanceHandle|
                0 <= k < ROOM_KINDS && old(pool).in_bucket(k, h) ==> #[trigger] pool.in_bucket(k, h),
            forall|a: int|
                0 <= a < pool.active().len() ==> in_window(#[trigger] pool.active()[a].0 as int, cur_floor as int)
                    || exists|jj: int| j <= jj < slots@.len() && #[trigger] slots@[jj] == pool.active()[a].0,
            act1.len() == slots@.len(),
            act1.len() >= old(pool).active().len(),
            forall|a: int| 0 <= a < old(pool).active().len() ==> #[trigger] act1[a] == old(pool).active()[a],
            forall|a: int| 0 <= a < act1.len() ==> #[trigger] slots@[a] == act1[a].0,
            forall|a: int, b: int| 0 <= a < b < act1.len() ==> #[trigger] act1[a].0 != #[trigger] act1[b].0,
            forall|a: int|
                0 <= a < act1.len() && (j <= a || in_window(act1[a].0 as int, cur_floor as int)) ==> pool.has_entry(
                    #[trigger] act1[a],
                ),
            forall|a: int|
                0 <= a < j && !in_window(#[trigger] act1[a].0 as int, cur_floor as int) ==> !pool.is_active(act1[a].0)
                    && pool.in_bucket(map.rooms@[act1[a].0 as int].kind.index_of() as int, act1[a].1),
        decreases slots@.len() - j,
    {
        let s = slots[j];
        let inside = (s >= cur_floor || cur_floor - s <= 1) && (s <= cur_floor || s - cur_floor <= 1);
        proof {
            assert(inside == in_window(s as int, cur_floor as int));
            assert(s == act1[j as int].0);
            assert(pool.has_entry(act1[j as int]));
            let b0 = choose|b: int| 0 <= b < pool.active().len() && #[trigger] pool.active()[b] == act1[j as int];
            assert(pool.active()[b0].0 < map.rooms@.len());
            assert(pool.is_active(s));
        }
        if !inside && s < map.rooms.len() {
            let ghost prev = *pool;
            pool.release(s, map.rooms[s].kind);
            proof {
                if prev.is_active(s) {
                    let a0 = choose|a: int|
                        0 <= a < prev.active().len() && #[trigger] prev.active()[a].0 == s && pool.active()
                            == prev.active().remove(a) && pool.bucket(map.rooms@[s as int].kind.index_of() as int)
                            == prev.bucket(map.rooms@[s as int].kind.index_of() as int).push(prev.active()[a].1);
                    let kk = map.rooms@[s as int].kind.index_of() as int;
                    let b0 = choose|b: int| 0 <= b < prev.active().len() && #[trigger] prev.active()[b] == act1[j as int];
                    if a0 < b0 {
                        assert(prev.active()[a0].0 != prev.active()[b0].0);
                    } else if b0 < a0 {
                        assert(prev.active()[b0].0 != prev.active()[a0].0);
                    }
                    assert(prev.active()[a0] == act1[j as int]);
                    assert(pool.bucket(kk)[prev.bucket(kk).len() as int] == act1[j as int].1);
                    assert(pool.in_bucket(kk, act1[j as int].1));
                    assert forall|x: usize| #[trigger] pool.is_active(x) implies prev.is_active(x) && x != s by {
                        let b = choose|b: int| 0 <= b < pool.active().len() && #[trigger] pool.active()[b].0 == x;
                        let pb = if b < a0 { b } else { b + 1 };
                        assert(pool.active()[b] == prev.active()[pb]);
                        if pb < a0 {
                            assert(prev.active()[pb].0 != prev.active()[a0].0);
                        } else {
                            assert(prev.active()[a0].0 != prev.active()[pb].0);
                        }
                    }
                    assert forall|a: int|
                        0 <= a < act1.len() && (j + 1 <= a || in_window(act1[a].0 as int, cur_floor as int)) implies pool.has_entry(
                        #[trigger] act1[a],
                    ) by {
                        assert(prev.has_entry(act1[a]));
                        let b = choose|b: int| 0 <= b < prev.active().len() && #[trigger] prev.active()[b] == act1[a];
                        assert(a != j);
                        if a < j {
                            assert(act1[a].0 != act1[j as int].0);
                        } else {
                            assert(act1[j as int].0 != act1[a].0);
                        }
                        assert(b != a0);
                        let nb = if b < a0 { b } else { b - 1 };
                        assert(pool.active()[nb] == act1[a]);
                    }
                    assert forall|a: int|
                        0 <= a < j + 1 && !in_window(#[trigger] act1[a].0 as int, cur_floor as int) implies !pool.is_active(act1[a].0)
                            && pool.in_bucket(map.rooms@[act1[a].0 as int].kind.index_of() as int, act1[a].1) by {
                        if a < j {
                            let ka = map.rooms@[act1[a].0 as int].kind.index_of() as int;
                            assert(prev.in_bucket(ka, act1[a].1));
                            let jb = choose|jb: int| 0 <= jb < prev.bucket(ka).len() && #[trigger] prev.bucket(ka)[jb] == act1[a].1;
                            if ka == kk {
                                assert(pool.bucket(ka)[jb] == act1[a].1);
                            } else {
                                assert(pool.bucket(ka) == prev.bucket(ka));
                            }
                        }
                    }
                    assert forall|a: int| 0 <= a < pool.active().len() implies #[trigger] pool.active()[a].0 < map.rooms@.len() by {
                        let pa = if a < a0 { a } else { a + 1 };
                        assert(pool.active()[a] == prev.active()[pa]);
                    }
                    assert forall|a: int|
                        0 <= a < pool.active().len() implies in_window(#[trigger] pool.active()[a].0 as int, cur_floor as int)
                            || exists|jj: int| j + 1 <= jj < slots@.len() && #[trigger] slots@[jj] == pool.active()[a].0 by {
                        let pa = if a < a0 { a } else { a + 1 };
                        assert(pool.active()[a] == prev.active()[pa]);
                        if pa < a0 {
                            assert(prev.active()[pa].0 != prev.active()[a0].0);
                        } else {
                            assert(prev.active()[a0].0 != prev.active()[pa].0);
                        }
                        if !in_window(pool.active()[a].0 as int, cur_floor as int) {
                            let jj = choose|jj: int| j <= jj < slots@.len() && #[trigger] slots@[jj] == prev.active()[pa].0;
                            assert(jj != j);
                        }
                    }
                    assert forall|x: int| 0 <= x < pool.active().len() implies old(pool).has_entry(
                        #[trigger] pool.active()[x],
                    ) by {
                        let px = if x < a0 { x } else { x + 1 };
                        assert(pool.active()[x] == prev.active()[px]);
                    }
                    assert forall|k: int, h: InstanceHandle|
                        0 <= k < ROOM_KINDS && old(pool).in_bucket(k, h) implies #[trigger] pool.in_bucket(k, h) by {
                        assert(prev.in_bucket(k, h));
                        let jb = choose|jb: int| 0 <= jb < prev.bucket(k).len() && #[trigger] prev.bucket(k)[jb] == h;
                        if k == kk {
                            assert(pool.bucket(k)[jb] == h);
                        } else {
                            assert(pool.bucket(k) == prev.bucket(k));
                        }
                    }
                }
            }
        } else {
            proof {
                assert(in_window(act1[j as int].0 as int, cur_floor as int));
                assert forall|a: int|
                    0 <= a < pool.active().len() implies in_window(#[trigger] pool.active()[a].0 as int, cur_floor as int)
                        || exists|jj: int| j + 1 <= jj < slots@.len() && #[trigger] slots@[jj] == pool.active()[a].0 by {
                    if !in_window(pool.active()[a].0 as int, cur_floor as int) {
                        let jj = choose|jj: int| j <= jj < slots@.len() && #[trigger] slots@[jj] == pool.active()[a].0;
                        assert(jj != j);
                    }
                }
            }
        }
        j += 1;
    }
    proof {
        assert forall|a: int|
            0 <= a < old(pool).active().len() && in_window(old(pool).active()[a].0 as int, cur_floor as int)
                implies pool.has_entry(#[trigger] old(pool).active()[a]) by {
            assert(act1[a] == old(pool).active()[a]);
        }
        assert forall|a: int|
            0 <= a < old(pool).active().len() && !in_window(#[trigger] old(pool).active()[a].0 as int, cur_floor as int)
                implies !pool.is_active(old(pool).active()[a].0) && pool.in_bucket(
                map.rooms@[old(pool).active()[a].0 as int].kind.index_of() as int,
                old(pool).active()[a].1,
            ) by {
            assert(act1[a] == old(pool).active()[a]);
        }
    }
}

/// One pooling tick for a player on floor slot `cur_floor`: every slot of
/// the window around it (`cur_floor` and its neighbours, where rooms exist)
/// is served, in slot order, and then every active slot outside the window is
/// released. Returns what the host must do for each served slot.
pub fn player_cull_floor(pool: &mut ObjectPool, map: &LevelLayout, cur_floor: usize) -> (r: Vec<
    RoomRequest,
>)
    requires
        old(pool).wf(),
        old(pool).slots_below(map.rooms@.len()),
        map.rooms@.len() <= MAX_FLOORS,
    ensures
        final(pool).wf(),
        final(pool).slots_below(map.rooms@.len()),
        forall|h: InstanceHandle| #[trigger] final(pool).holds(h) == old(pool).holds(h),
        forall|a: int|
            0 <= a < final(pool).active().len() ==> in_window(#[trigger] final(pool).active()[a].0 as int, cur_floor as int),
        forall|j: int|
            0 <= j < r@.len() ==> in_window(#[trigger] r@[j].slot as int, cur_floor as int) && request_ok(
                r@[j],
                *final(pool),
                *map,
            ),
        forall|s: int|
            0 <= s < map.rooms@.len() && in_window(s, cur_floor as int) ==> exists|j: int|
                0 <= j < r@.len() && #[trigger] r@[j].slot == s,
        forall|a: int|
            0 <= a < old(pool).active().len() && in_window(old(pool).active()[a].0 as int, cur_floor as int)
                ==> final(pool).has_entry(#[trigger] old(pool).active()[a]),
        forall|j: int|
            0 <= j < r@.len() ==> (#[trigger] r@[j].activation matches Activation::Reused(h) ==> old(pool).in_bucket(
                r@[j].kind.index_of() as int,
                h,
            )),
        forall|j: int|
            0 <= j < r@.len() && #[trigger] r@[j].activation is Spawn ==> forall|jj: int|
                0 <= jj < old(pool).bucket(r@[j].kind.index_of() as int).len() ==> final(pool).serves(
                    #[trigger] old(pool).bucket(r@[j].kind.index_of() as int)[jj],
                    cur_floor as int,
                ),
        forall|s: usize|
            s < map.rooms@.len() && in_window(s as int, cur_floor as int) ==> #[trigger] final(pool).is_active(s)
                || exists|j: int| 0 <= j < r@.len() && #[trigger] r@[j].slot == s && r@[j].activation is Spawn,
        forall|a: int|
            0 <= a < old(pool).active().len() && !in_window(#[trigger] old(pool).active()[a].0 as int, cur_floor as int)
                ==> !final(pool).is_active(old(pool).active()[a].0) && final(pool).in_bucket(
                map.rooms@[old(pool).active()[a].0 as int].kind.index_of() as int,
                old(pool).active()[a].1,
            ),
{
    let mut requests: Vec<RoomRequest> = Vec::new();
    let mut w: usize = 0;
    while w < 3
        invariant
            w <= 3,
            pool.wf(),
            pool.slots_below(map.rooms@.len()),
            map.rooms@.len() <= MAX_FLOORS,
            forall|h: InstanceHandle| #[trigger] pool.holds(h) == old(pool).holds(h),
            pool.active().len() >= old(pool).active().len(),
            forall|a: int| 0 <= a < old(pool).active().len() ==> #[trigger] pool.active()[a] == old(pool).active()[a],
            forall|k: int|
                0 <= k < ROOM_KINDS ==> #[trigger] pool.bucket(k).len() <= old(pool).bucket(k).len(),
            forall|k: int, jj: int|
                0 <= k < ROOM_KINDS && 0 <= jj < pool.bucket(k).len() ==> #[trigger] pool.bucket(k)[jj] == old(
                    pool,
                ).bucket(k)[jj],
            forall|k: int, jj: int|
                0 <= k < ROOM_KINDS && pool.bucket(k).len() <= jj < old(pool).bucket(k).len() ==> pool.serves(
                    #[trigger] old(pool).bucket(k)[jj],
                    cur_floor as int,
                ),
            forall|j: int|
                0 <= j < requests@.len() ==> (#[trigger] requests@[j].activation matches Activation::Reused(h)
                    ==> old(pool).in_bucket(requests@[j].kind.index_of() as int, h)),
            forall|j: int|
                0 <= j < requests@.len() && #[trigger] requests@[j].activation is Spawn ==> pool.bucket(
                    requests@[j].kind.index_of() as int,
                ).len() == 0,
            forall|j: int|
                0 <= j < requests@.len() ==> (#[trigger] requests@[j].slot) + 1 < cur_floor + w
                    && in_window(requests@[j].slot as int, cur_floor as int),
            forall|j: int| 0 <= j < requests@.len() ==> request_ok(#[trigger] requests@[j], *pool, *map),
            forall|s: int|
                0 <= s < map.rooms@.len() && in_window(s, cur_floor as int) && s + 1 < cur_floor + w ==> exists|j: int|
                    0 <= j < requests@.len() && #[trigger] requests@[j].slot == s,
        decreases 3 - w,
    {
        let ghost before = requests@;
        let candidate = if w == 0 {
            if cur_floor >= 1 {
                Some(cur_floor - 1)
            } else {
                None
            }
        } else if w == 1 {
            Some(cur_floor)
        } else if cur_floor < usize::MAX {
            Some(cur_floor + 1)
        } else {
            None
        };
        match candidate {
            Some(s) => {
                if s < map.rooms.len() {
                    let ghost bp = *pool;
                    place_slot(pool, map, s, &mut requests);
                    proof {
                        assert(requests@[requests@.len() - 1].slot == s);
                        assert(in_window(s as int, cur_floor as int));
                        let req = requests@.last();
                        let rk = req.kind.index_of() as int;
                        assert forall|k: int, jj: int|
                            0 <= k < ROOM_KINDS && pool.bucket(k).len() <= jj < old(pool).bucket(k).len() implies pool.serves(
                            #[trigger] old(pool).bucket(k)[jj],
                            cur_floor as int,
                        ) by {
                            let h = old(pool).bucket(k)[jj];
                            if k == rk && req.activation is Reused && jj == bp.bucket(k).len() - 1 {
                                let n = bp.active().len() as int;
                                assert(bp.bucket(k)[jj] == old(pool).bucket(k)[jj]);
                                assert(pool.active() == bp.active().push((s, bp.bucket(k).last())));
                                assert(pool.active()[n] == (s, h));
                                assert(pool.active()[n].1 == h && in_window(pool.active()[n].0 as int, cur_floor as int));
                            } else {
                                if !(req.activation is Reused) || k != rk {
                                    assert(pool.bucket(k) == bp.bucket(k));
                                } else {
                                    assert(pool.bucket(k).len() == bp.bucket(k).len() - 1);
                                }
                                assert(bp.bucket(k).len() <= jj);
                                assert(bp.serves(h, cur_floor as int));
                                let b = choose|b: int|
                                    0 <= b < bp.active().len() && #[trigger] bp.active()[b].1 == h && in_window(
                                        bp.active()[b].0 as int,
                                        cur_floor as int,
                                    );
                                assert(pool.active()[b] == bp.active()[b]);
                                assert(pool.active()[b].1 == h);
                            }
                        }
                        assert forall|t: int|
                            0 <= t < map.rooms@.len() && in_window(t, cur_floor as int) && t + 1 < cur_floor + w
                                + 1 implies exists|j: int| 0 <= j < requests@.len() && #[trigger] requests@[j].slot == t by {
                            if t + 1 < cur_floor + w {
                                let j = choose|j: int| 0 <= j < before.len() && #[trigger] before[j].slot == t;
                                assert(requests@[j].slot == t);
                            } else {
                                assert(requests@[requests@.len() - 1].slot == t);
                            }
                        }
                    }
                }
            },
            None => {},
        }
        w += 1;
    }
    let ghost mid = *pool;
    release_outside_window(pool, map, cur_floor);
    proof {
        assert forall|i: int| 0 <= i < requests@.len() implies request_ok(#[trigger] requests@[i], *pool, *map) by {
            let r = requests@[i];
            assert(request_ok(r, mid, *map));
            match r.activation {
                Activation::Spawn => {
                    if pool.is_active(r.slot) {
                        let a = choose|a: int| 0 <= a < pool.active().len() && #[trigger] pool.active()[a].0 == r.slot;
                        assert(mid.has_entry(pool.active()[a]));
                        let b = choose|b: int| 0 <= b < mid.active().len() && #[trigger] mid.active()[b] == pool.active()[a];
                        assert(mid.active()[b].0 == r.slot);
                    }
                },
                Activation::Active(h) => {
                    let a = choose|a: int| 0 <= a < mid.active().len() && #[trigger] mid.active()[a] == (r.slot, h);
                    assert(pool.has_entry(mid.active()[a]));
                },
                Activation::Reused(h) => {
                    let a = choose|a: int| 0 <= a < mid.active().len() && #[trigger] mid.active()[a] == (r.slot, h);
                    assert(pool.has_entry(mid.active()[a]));
                },
            }
        }
        assert forall|a: int|
            0 <= a < old(pool).active().len() && in_window(old(pool).active()[a].0 as int, cur_floor as int)
                implies pool.has_entry(#[trigger] old(pool).active()[a]) by {
            assert(mid.active()[a] == old(pool).active()[a]);
        }
        assert forall|a: int|
            0 <= a < old(pool).active().len() && !in_window(#[trigger] old(pool).active()[a].0 as int, cur_floor as int)
                implies !pool.is_active(old(pool).active()[a].0) && pool.in_bucket(
                map.rooms@[old(pool).active()[a].0 as int].kind.index_of() as int,
                old(pool).active()[a].1,
            ) by {
            assert(mid.active()[a] == old(pool).active()[a]);
        }
        assert forall|j: int|
            0 <= j < requests@.len() && #[trigger] requests@[j].activation is Spawn implies forall|jj: int|
                0 <= jj < old(pool).bucket(requests@[j].kind.index_of() as int).len() ==> pool.serves(
                    #[trigger] old(pool).bucket(requests@[j].kind.index_of() as int)[jj],
                    cur_floor as int,
                ) by {
            let k = requests@[j].kind.index_of() as int;
            assert forall|jj: int| 0 <= jj < old(pool).bucket(k).len() implies pool.serves(
                #[trigger] old(pool).bucket(k)[jj],
                cur_floor as int,
            ) by {
                assert(mid.serves(old(pool).bucket(k)[jj], cur_floor as int));
                let b = choose|b: int|
                    0 <= b < mid.active().len() && #[trigger] mid.active()[b].1 == old(pool).bucket(k)[jj] && in_window(
                        mid.active()[b].0 as int,
                        cur_floor as int,
                    );
                assert(pool.has_entry(mid.active()[b]));
                let c = choose|c: int| 0 <= c < pool.active().len() && #[trigger] pool.active()[c] == mid.active()[b];
                assert(pool.active()[c].1 == old(pool).bucket(k)[jj]);
            }
        }
        assert forall|s: usize|
            s < map.rooms@.len() && in_window(s as int, cur_floor as int) implies #[trigger] pool.is_active(s)
                || exists|j: int| 0 <= j < requests@.len() && #[trigger] requests@[j].slot == s && requests@[j].activation is Spawn by {
            let j = choose|j: int| 0 <= j < requests@.len() && #[trigger] requests@[j].slot == s as int;
            let r = requests@[j];
            assert(request_ok(r, *pool, *map));
            match r.activation {
                Activation::Spawn => {},
                Activation::Active(h) => {
                    let a = choose|a: int| 0 <= a < pool.active().len() && #[trigger] pool.active()[a] == (r.slot, h);
                    assert(pool.active()[a].0 == s);
                },
                Activation::Reused(h) => {
                    let a = choose|a: int| 0 <= a < pool.active().len() && #[trigger] pool.active()[a] == (r.slot, h);
                    assert(pool.active()[a].0 == s);
                },
            }
        }
    }
    requests}

/// No instance is ever both in use and free: whatever sequence of pool
/// operations led here, each keeps the pool well formed.
pub proof fn lemma_pool_exclusive(pool: ObjectPool, h: InstanceHandle)
    requires
        pool.wf(),
    ensures
        !(pool.in_active(h) && pool.in_available(h)),
{
    if pool.in_active(h) && pool.in_available(h) {
        let a = choose|a: int| 0 <= a < pool.active().len() && #[trigger] pool.active()[a].1 == h;
        let (k, j) = choose|k: int, j: int|
            0 <= k < ROOM_KINDS && 0 <= j < pool.bucket(k).len() && #[trigger] pool.bucket(k)[j] == h;
        assert(pool.active()[a].1 != pool.bucket(k)[j]);
    }
}

/// After a pooling tick no more than three slots are active: the slots are
/// distinct and all lie in the window around the player.
pub proof fn lemma_window_bound(pool: ObjectPool, cur: int)
    requires
        pool.wf(),
        forall|a: int| 0 <= a < pool.active().len() ==> in_window(#[trigger] pool.active()[a].0 as int, cur),
    ensures
        pool.active().len() <= 3,
{
    if pool.active().len() > 3 {
        let s = pool.active();
        assert(in_window(s[0].0 as int, cur));
        assert(in_window(s[1].0 as int, cur));
        assert(in_window(s[2].0 as int, cur));
        assert(in_window(s[3].0 as int, cur));
        assert(s[0].0 != s[1].0 && s[0].0 != s[2].0 && s[0].0 != s[3].0);
        assert(s[1].0 != s[2].0 && s[1].0 != s[3].0);
        assert(s[2].0 != s[3].0);
    }
}

} // verus!
