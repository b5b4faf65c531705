//! The level generator: assigns a behaviour to every floor and derives a room
//! shell and a sign for every floor slot, all from one random stream.
use vstd::prelude::*;
use bevy_rand::prelude::WyRand;
use crate::dice::{draw_range, draw_ratio};
use crate::layout::{blank_floor, timer_in_range, Floor, FloorAction, LevelLayout, Room, RoomType, MAX_FLOORS};

verus! {

/// Draws made for one scatter pick before the pick falls back to the first
/// idle floor of its range.
pub const MAX_DRAWS_PER_PICK: u32 = 1000;

/// The behaviour a scatter roll in `1..10` gives in the shallow pass.
pub open spec fn shallow_pick(roll: int) -> FloorAction {
    if roll == 2 {
        FloorAction::Flash
    } else if roll == 3 {
        FloorAction::Trick1
    } else if roll == 4 {
        FloorAction::Trick2
    } else if roll == 5 {
        FloorAction::Breath
    } else if roll == 6 {
        FloorAction::Steps
    } else if roll == 7 {
        FloorAction::Trap
    } else if roll == 8 {
        FloorAction::Roar
    } else {
        FloorAction::Cell
    }
}

/// The behaviour a scatter roll in `1..10` gives in the deep pass.
pub open spec fn deep_pick(roll: int) -> FloorAction {
    if roll == 2 {
        FloorAction::Lights
    } else if roll == 3 {
        FloorAction::Run
    } else if roll == 4 {
        FloorAction::Trick2
    } else if roll == 5 {
        FloorAction::Breath
    } else if roll == 6 {
        FloorAction::Steps
    } else if roll == 7 {
        FloorAction::Trap
    } else if roll == 8 {
        FloorAction::Roar
    } else {
        FloorAction::Cell
    }
}

pub open spec fn scatter_pick(deep: bool, roll: int) -> FloorAction {
    if deep {
        deep_pick(roll)
    } else {
        shallow_pick(roll)
    }
}

/// The behaviours the shallow pass can hand out.
pub open spec fn in_shallow_table(a: FloorAction) -> bool {
    a == FloorAction::Flash || a == FloorAction::Trick1 || a == FloorAction::Trick2 || a
        == FloorAction::Breath || a == FloorAction::Steps || a == FloorAction::Trap || a
        == FloorAction::Roar || a == FloorAction::Cell
}

/// The behaviours the deep pass can hand out.
pub open spec fn in_deep_table(a: FloorAction) -> bool {
    a == FloorAction::Lights || a == FloorAction::Run || a == FloorAction::Trick2 || a
        == FloorAction::Breath || a == FloorAction::Steps || a == FloorAction::Trap || a
        == FloorAction::Roar || a == FloorAction::Cell
}

pub open spec fn in_table(deep: bool, a: FloorAction) -> bool {
    if deep {
        in_deep_table(a)
    } else {
        in_shallow_table(a)
    }
}

/// The behaviour of a scatter roll.
pub fn scatter_action(deep: bool, roll: u64) -> (r: FloorAction)
    ensures
        r == scatter_pick(deep, roll as int),
        in_table(deep, r),
{
    if roll == 2 {
        if deep {
            FloorAction::Lights
        } else {
            FloorAction::Flash
        }
    } else if roll == 3 {
        if deep {
            FloorAction::Run
        } else {
            FloorAction::Trick1
        }
    } else if roll == 4 {
        FloorAction::Trick2
    } else if roll == 5 {
        FloorAction::Breath
    } else if roll == 6 {
        FloorAction::Steps
    } else if roll == 7 {
        FloorAction::Trap
    } else if roll == 8 {
        FloorAction::Roar
    } else {
        FloorAction::Cell
    }
}

/// Why a scatter pass stopped short.
#[derive(Clone, Copy, Debug, PartialEq, Eq, Structural)]
pub enum ScatterError {
    /// Every floor of the range already had a behaviour of its own.
    RangeFull,
}

/// What one scatter pass over `lo..hi` may have done to `old`, giving `new`,
/// when it made the picks `picks` (index and behaviour, in order): it touched
/// only idle floors of the range, changed only their behaviour, and never
/// changed a floor that already had a behaviour of its own.
pub open spec fn scatter_result(
    old: Seq<Floor>,
    new: Seq<Floor>,
    lo: int,
    hi: int,
    deep: bool,
    picks: Seq<(usize, FloorAction)>,
) -> bool {
    &&& new.len() == old.len()
    &&& forall|i: int| 0 <= i < old.len() && !(lo <= i < hi) ==> #[trigger] new[i] == old[i]
    &&& forall|i: int|
        0 <= i < old.len() && old[i].action != FloorAction::Steps ==> #[trigger] new[i] == old[i]
    &&& forall|i: int|
        #![trigger new[i]]
        0 <= i < old.len() && new[i] != old[i] ==> {
            &&& new[i].timer == old[i].timer
            &&& new[i].action != FloorAction::Steps
            &&& in_table(deep, new[i].action)
            &&& exists|j: int| 0 <= j < picks.len() && #[trigger] picks[j] == (i as usize, new[i].action)
        }
    &&& forall|j: int|
        #![trigger picks[j]]
        0 <= j < picks.len() ==> {
            &&& lo <= picks[j].0 < hi
            &&& in_table(deep, picks[j].1)
            &&& picks[j].1 != FloorAction::Steps ==> new[picks[j].0 as int].action == picks[j].1
        }
}

/// Number of idle (`Steps`) floors in `lo..hi`.
pub open spec fn idle_count(fl: Seq<Floor>, lo: int, hi: int) -> nat
    decreases hi - lo,
{
    if lo >= hi {
        0
    } else {
        (if fl[lo].action == FloorAction::Steps { 1nat } else { 0nat }) + idle_count(fl, lo + 1, hi)
    }
}

/// A range without idle floors counts none.
proof fn lemma_no_idle(fl: Seq<Floor>, lo: int, hi: int)
    requires
        forall|i: int| lo <= i < hi ==> #[trigger] fl[i].action != FloorAction::Steps,
    ensures
        idle_count(fl, lo, hi) == 0,
    decreases hi - lo,
{
    if lo < hi {
        lemma_no_idle(fl, lo + 1, hi);
    }
}

/// Giving an idle floor of the range a behaviour other than `Steps` removes
/// one idle floor from the count; giving it `Steps` again changes nothing.
proof fn lemma_idle_update(fl: Seq<Floor>, lo: int, hi: int, k: int, f: Floor)
    requires
        0 <= lo <= k < hi <= fl.len(),
        fl[k].action == FloorAction::Steps,
    ensures
        idle_count(fl.update(k, f), lo, hi) + (if f.action == FloorAction::Steps { 0int } else { 1int })
            == idle_count(fl, lo, hi),
    decreases hi - lo,
{
    if lo < k {
        lemma_idle_update(fl, lo + 1, hi, k, f);
    } else {
        lemma_idle_same(fl, fl.update(k, f), lo + 1, hi);
    }
}

/// The count depends on the floors of the range only.
proof fn lemma_idle_same(a: Seq<Floor>, b: Seq<Floor>, lo: int, hi: int)
    requires
        forall|i: int| lo <= i < hi ==> #[trigger] a[i] == b[i],
    ensures
        idle_count(a, lo, hi) == idle_count(b, lo, hi),
    decreases hi - lo,
{
    if lo < hi {
        lemma_idle_same(a, b, lo + 1, hi);
    }
}

/// A range of blank floors is idle throughout.
proof fn lemma_idle_all(fl: Seq<Floor>, lo: int, hi: int)
    requires
        lo <= hi,
        forall|i: int| lo <= i < hi ==> #[trigger] fl[i] == blank_floor(),
    ensures
        idle_count(fl, lo, hi) == hi - lo,
    decreases hi - lo,
{
    if lo < hi {
        lemma_idle_all(fl, lo + 1, hi);
    }
}

/// Widening a range downwards never lowers its idle count.
proof fn lemma_idle_widen(fl: Seq<Floor>, lo: int, mid: int, hi: int)
    requires
        lo <= mid <= hi,
    ensures
        idle_count(fl, lo, hi) >= idle_count(fl, mid, hi),
    decreases mid - lo,
{
    if lo < mid {
        lemma_idle_widen(fl, lo + 1, mid, hi);
    }
}

impl LevelLayout {
    /// Gives floor `index` the behaviour `action` with marker `duration`; an
    /// index past the last floor is ignored.
    fn assign_floor_action(&mut self, index: usize, action: FloorAction, duration: u32)
        ensures
            final(self).floor_amount == old(self).floor_amount,
            final(self).rooms == old(self).rooms,
            final(self).floors@ == (if index < old(self).floors@.len() {
                old(self).floors@.update(index as int, Floor { action, timer: duration })
            } else {
                old(self).floors@
            }),
    {
        if index < self.floors.len() {
            self.floors.set(index, Floor { action, timer: duration });
        }
    }

    /// Gives a floor drawn from `lo..hi` the behaviour `action` with marker
    /// `duration`, and returns the floor drawn.
    fn assign_random_floor_action(
        &mut self,
        rng: &mut WyRand,
        lo: usize,
        hi: usize,
        action: FloorAction,
        duration: u32,
    ) -> (k: usize)
        requires
            lo < hi <= old(self).floors@.len(),
        ensures
            lo <= k < hi,
            final(self).floor_amount == old(self).floor_amount,
            final(self).rooms == old(self).rooms,
            final(self).floors@ == old(self).floors@.update(k as int, Floor { action, timer: duration }),
    {
        let k = draw_range(rng, lo as u64, hi as u64) as usize;
        self.assign_floor_action(k, action, duration);
        k
    }

    /// Makes `count` picks over `lo..hi`. Each pick rolls a behaviour from the
    /// pass's table and draws floors of the range until it lands on one that
    /// is still idle (`Steps`), which then takes the behaviour. After
    /// `MAX_DRAWS_PER_PICK` misses the pick takes the first idle floor of the
    /// range instead; when the range has no idle floor left the pass stops
    /// with `RangeFull`, which happens only if the range held fewer idle
    /// floors than picks.
    pub fn scatter_fill(
        &mut self,
        rng: &mut WyRand,
        count: usize,
        lo: usize,
        hi: usize,
        deep: bool,
    ) -> (r: Result<Vec<(usize, FloorAction)>, ScatterError>)
        requires
            lo < hi <= old(self).floors@.len(),
        ensures
            final(self).floor_amount == old(self).floor_amount,
            final(self).rooms == old(self).rooms,
            r matches Ok(picks) ==> picks@.len() == count && scatter_result(
                old(self).floors@,
                final(self).floors@,
                lo as int,
                hi as int,
                deep,
                picks@,
            ),
            r is Err ==> forall|i: int|
                lo <= i < hi ==> #[trigger] final(self).floors@[i].action != FloorAction::Steps,
            idle_count(old(self).floors@, lo as int, hi as int) >= count ==> r is Ok,
    {
        let mut picks: Vec<(usize, FloorAction)> = Vec::new();
        let mut n: usize = 0;
        while n < count
            invariant
                lo < hi <= self.floors@.len(),
                n <= count,
                picks@.len() <= n,
                self.floor_amount == old(self).floor_amount,
                self.rooms == old(self).rooms,
                scatter_result(old(self).floors@, self.floors@, lo as int, hi as int, deep, picks@),
                picks@.len() == n,
                idle_count(self.floors@, lo as int, hi as int) + picks@.len() >= idle_count(
                    old(self).floors@,
                    lo as int,
                    hi as int,
                ),
            decreases count - n,
        {
            let roll = draw_range(rng, 1, 10);
            let action = scatter_action(deep, roll);
            let mut target: Option<usize> = None;
            let mut tries: u32 = 0;
            while tries < MAX_DRAWS_PER_PICK
                invariant
                    lo < hi <= self.floors@.len(),
                    target matches Some(k) ==> lo <= k < hi && self.floors@[k as int].action
                        == FloorAction::Steps,
                decreases MAX_DRAWS_PER_PICK - tries,
            {
                let k = draw_range(rng, lo as u64, hi as u64) as usize;
                if self.floors[k].action == FloorAction::Steps {
                    target = Some(k);
                    break;
                }
                tries += 1;
            }
            if target.is_none() {
                let mut k: usize = lo;
                while k < hi
                    invariant
                        lo <= k <= hi <= self.floors@.len(),
                        target matches Some(t) ==> lo <= t < hi && self.floors@[t as int].action
                            == FloorAction::Steps,
                        target is None ==> forall|i: int|
                            lo <= i < k ==> #[trigger] self.floors@[i].action != FloorAction::Steps,
                    ensures
                        target matches Some(t) ==> lo <= t < hi && self.floors@[t as int].action
                            == FloorAction::Steps,
                        target is None ==> forall|i: int|
                            lo <= i < hi ==> #[trigger] self.floors@[i].action != FloorAction::Steps,
                    decreases hi - k,
                {
                    if self.floors[k].action == FloorAction::Steps {
                        target = Some(k);
                        break;
                    }
                    k += 1;
                }
            }
            match target {
                Some(k) => {
                    let ghost before = self.floors@;
                    let ghost prev = picks@;
                    let timer = self.floors[k].timer;
                    self.floors.set(k, Floor { action, timer });
                    picks.push((k, action));
                    proof {
                        lemma_idle_update(before, lo as int, hi as int, k as int, Floor { action, timer });
                        let new = self.floors@;
                        let oldf = old(self).floors@;
                        let last = picks@.len() - 1;
                        assert(picks@[last] == (k, action));
                        assert forall|i: int|
                            #![trigger new[i]]
                            0 <= i < oldf.len() && new[i] != oldf[i] implies {
                            &&& new[i].timer == oldf[i].timer
                            &&& new[i].action != FloorAction::Steps
                            &&& in_table(deep, new[i].action)
                            &&& exists|j: int|
                                0 <= j < picks@.len() && #[trigger] picks@[j] == (i as usize, new[i].action)
                        } by {
                            if i == k {
                                assert(before[i] == oldf[i]);
                                assert(picks@[last] == (i as usize, new[i].action));
                            } else {
                                assert(new[i] == before[i]);
                                assert(before[i] != oldf[i]);
                                let j = choose|j: int|
                                    0 <= j < prev.len() && #[trigger] prev[j] == (
                                        i as usize,
                                        before[i].action,
                                    );
                                assert(picks@[j] == prev[j]);
                            }
                        }
                        assert forall|j: int|
                            #![trigger picks@[j]]
                            0 <= j < picks@.len() implies {
                            &&& lo <= picks@[j].0 < hi
                            &&& in_table(deep, picks@[j].1)
                            &&& picks@[j].1 != FloorAction::Steps ==> new[picks@[j].0 as int].action
                                == picks@[j].1
                        } by {
                            if j < last {
                                assert(picks@[j] == prev[j]);
                            }
                        }
                    }
                },
                None => {
                    proof {
                        lemma_no_idle(self.floors@, lo as int, hi as int);
                    }
                    return Err(ScatterError::RangeFull);
                },
            }
            n += 1;
        }
        Ok(picks)
    }
}

/// The shell a room at slot `i` gets when the floor below it has `action`
/// and the kind roll (used only for idle floors) is `roll`.
pub open spec fn room_kind_of(i: int, action: FloorAction, roll: int) -> RoomType {
    if i == 0 {
        RoomType::Map0
    } else {
        match action {
            FloorAction::Scp173 => RoomType::Map2,
            FloorAction::Cell => RoomType::Map1,
            FloorAction::Trick1 => RoomType::Map4,
            FloorAction::Trick2 => RoomType::Map5,
            FloorAction::Steps => if roll == 1 || roll == 2 {
                RoomType::Map1
            } else if roll == 3 || roll == 4 {
                RoomType::Map2
            } else if roll == 5 || roll == 6 {
                RoomType::Map3
            } else if roll == 7 {
                RoomType::Map4
            } else if roll == 8 {
                RoomType::Map5
            } else if roll == 9 {
                RoomType::Map6
            } else if roll == 10 && i > 40 {
                RoomType::Maze
            } else {
                RoomType::Neutral
            },
            _ => RoomType::Neutral,
        }
    }
}

/// The shells a room at slot `i` may get when the floor below it has
/// `action`, over every kind roll: a fixed shell for a scripted floor, and for
/// an idle one any shell but the entry shell, the maze only deep down.
pub open spec fn room_kind_allowed(i: int, action: FloorAction, kind: RoomType) -> bool {
    if i == 0 {
        kind == RoomType::Map0
    } else if action == FloorAction::Steps {
        kind != RoomType::Map0 && (kind == RoomType::Maze ==> i > 40)
    } else {
        kind == room_kind_of(i, action, 0)
    }
}

/// The shell of the room at slot `i`, from the behaviour of the floor below
/// it and a kind roll in `0..20`.
pub fn room_kind(i: usize, action: FloorAction, roll: u64) -> (r: RoomType)
    ensures
        r == room_kind_of(i as int, action, roll as int),
        room_kind_allowed(i as int, action, r),
{
    if i == 0 {
        return RoomType::Map0;
    }
    match action {
        FloorAction::Scp173 => RoomType::Map2,
        FloorAction::Cell => RoomType::Map1,
        FloorAction::Trick1 => RoomType::Map4,
        FloorAction::Trick2 => RoomType::Map5,
        FloorAction::Steps => {
            if roll == 1 || roll == 2 {
                RoomType::Map1
            } else if roll == 3 || roll == 4 {
                RoomType::Map2
            } else if roll == 5 || roll == 6 {
                RoomType::Map3
            } else if roll == 7 {
                RoomType::Map4
            } else if roll == 8 {
                RoomType::Map5
            } else if roll == 9 {
                RoomType::Map6
            } else if roll == 10 && i > 40 {
                RoomType::Maze
            } else {
                RoomType::Neutral
            }
        },
        _ => RoomType::Neutral,
    }
}

/// A sign character: printable ASCII from `!` to `y`.
pub open spec fn is_sign_char(c: char) -> bool {
    33 <= c as u32 <= 121
}

pub open spec fn digit_char(d: nat) -> char {
    (48 + d) as char
}

/// The decimal digits of `n`, most significant first.
pub open spec fn decimal(n: nat) -> Seq<char>
    decreases n,
{
    if n < 10 {
        seq![digit_char(n)]
    } else {
        decimal(n / 10).push(digit_char(n % 10))
    }
}

/// The texts a sign at slot `i` (floor `i + 1`) may carry. Slot 0 has none;
/// deep slots carry one to three random characters; the others carry the
/// floor number or, rarely, an empty sign, one random character, `NIL`, `?`,
/// `NO` or `stop`.
pub open spec fn label_allowed(i: int, label: Option<String>) -> bool {
    if i == 0 {
        label is None
    } else {
        &&& label is Some
        &&& {
            let s = label->0@;
            if i > 140 {
                1 <= s.len() <= 3 && forall|j: int| 0 <= j < s.len() ==> is_sign_char(#[trigger] s[j])
            } else {
                ||| s == decimal((i + 1) as nat)
                ||| s.len() == 0
                ||| (s.len() == 1 && is_sign_char(s[0]))
                ||| s == seq!['N', 'I', 'L']
                ||| s == seq!['?']
                ||| s == seq!['N', 'O']
                ||| s == seq!['s', 't', 'o', 'p']
            }
        }
    }
}

/// Relies on `String::push`: appends one character.
#[verifier::external_body]
fn push_char(s: &mut String, c: char)
    ensures
        final(s)@ == old(s)@.push(c),
{
    s.push(c);
}

/// Appends the decimal digits of `n` to `s`.
pub fn push_decimal(s: &mut String, n: u64)
    ensures
        final(s)@ == old(s)@ + decimal(n as nat),
    decreases n,
{
    if n >= 10 {
        push_decimal(s, n / 10);
    }
    let d = (n % 10) as u8;
    let c = (48u8 + d) as char;
    assert(c == digit_char((n % 10) as nat));
    push_char(s, c);
    proof {
        if n < 10 {
            assert(old(s)@ + decimal(n as nat) =~= old(s)@.push(c));
        } else {
            assert((old(s)@ + decimal((n / 10) as nat)).push(c) =~= old(s)@ + decimal(n as nat));
        }
    }
}

/// A sign character from its code.
fn sign_char(code: u64) -> (c: char)
    requires
        33 <= code < 122,
    ensures
        is_sign_char(c),
{
    (code as u8) as char
}

/// The sign of slot `i` for a sign roll `choice` in `0..600`, with `c` the
/// character drawn when the roll asks for one.
pub open spec fn sign_of(i: int, choice: int, c: char) -> Seq<char> {
    if choice == 1 {
        Seq::<char>::empty()
    } else if choice == 2 {
        seq![c]
    } else if choice == 3 {
        seq!['N', 'I', 'L']
    } else if choice == 4 {
        seq!['?']
    } else if choice == 5 {
        seq!['N', 'O']
    } else if choice == 6 {
        seq!['s', 't', 'o', 'p']
    } else {
        decimal((i + 1) as nat)
    }
}

/// The sign of slot `i` for a sign roll `choice`, with `c` the character
/// drawn when the roll asks for one.
pub fn sign_text(i: usize, choice: u64, c: char) -> (r: String)
    requires
        i < MAX_FLOORS,
    ensures
        r@ == sign_of(i as int, choice as int, c),
{
    let mut s = String::new();
    if choice == 1 {
    } else if choice == 2 {
        push_char(&mut s, c);
    } else if choice == 3 {
        push_char(&mut s, 'N');
        push_char(&mut s, 'I');
        push_char(&mut s, 'L');
    } else if choice == 4 {
        push_char(&mut s, '?');
    } else if choice == 5 {
        push_char(&mut s, 'N');
        push_char(&mut s, 'O');
    } else if choice == 6 {
        push_char(&mut s, 's');
        push_char(&mut s, 't');
        push_char(&mut s, 'o');
        push_char(&mut s, 'p');
    } else {
        push_decimal(&mut s, (i + 1) as u64);
    }
    assert(s@ =~= sign_of(i as int, choice as int, c));
    s
}

/// Draws the sign of slot `i`: none on slot 0; past slot 140 one to three
/// random characters; elsewhere the text of a sign roll.
fn room_label(i: usize, rng: &mut WyRand) -> (r: Option<String>)
    requires
        i < MAX_FLOORS,
    ensures
        label_allowed(i as int, r),
{
    if i == 0 {
        return None;
    }
    let choice = draw_range(rng, 0, 600);
    let c = if choice == 2 {
        sign_char(draw_range(rng, 33, 122))
    } else {
        '!'
    };
    let mut label = sign_text(i, choice, c);
    if i > 140 {
        label = String::new();
        let count = draw_range(rng, 1, 4);
        let mut k: u64 = 0;
        while k < count
            invariant
                k <= count < 4,
                label@.len() == k,
                forall|j: int| 0 <= j < k ==> is_sign_char(#[trigger] label@[j]),
            decreases count - k,
        {
            let c = sign_char(draw_range(rng, 33, 122));
            push_char(&mut label, c);
            k += 1;
        }
    } else {
        proof {
            if choice == 2 {
                assert(is_sign_char(label@[0]));
            }
        }
    }
    Some(label)
}

impl LevelLayout {
    /// Derives the room shell and the sign of every floor slot but the last,
    /// in slot order.
    fn gen_rooms(&mut self, rng: &mut WyRand)
        requires
            old(self).floors@.len() == old(self).floor_amount,
            1 <= old(self).floor_amount <= MAX_FLOORS,
            old(self).rooms@.len() == 0,
        ensures
            final(self).floor_amount == old(self).floor_amount,
            final(self).floors == old(self).floors,
            final(self).rooms@.len() == old(self).floor_amount - 1,
            forall|i: int|
                #![trigger final(self).rooms@[i]]
                0 <= i < final(self).rooms@.len() ==> room_kind_allowed(
                    i,
                    final(self).floors@[i + 1].action,
                    final(self).rooms@[i].kind,
                ) && label_allowed(i, final(self).rooms@[i].label),
    {
        let mut i: usize = 0;
        while i < self.floor_amount - 1
            invariant
                self.floor_amount == old(self).floor_amount,
                self.floors == old(self).floors,
                self.floors@.len() == self.floor_amount,
                1 <= self.floor_amount <= MAX_FLOORS,
                i <= self.floor_amount - 1,
                self.rooms@.len() == i,
                forall|j: int|
                    #![trigger self.rooms@[j]]
                    0 <= j < i ==> room_kind_allowed(
                        j,
                        self.floors@[j + 1].action,
                        self.rooms@[j].kind,
                    ) && label_allowed(j, self.rooms@[j].label),
            decreases self.floor_amount - 1 - i,
        {
            let action = self.floors[i + 1].action;
            let roll = if i != 0 && action == FloorAction::Steps {
                draw_range(rng, 0, 20)
            } else {
                0
            };
            let kind = room_kind(i, action, roll);
            let label = room_label(i, rng);
            self.rooms.push(Room { kind, label });
            i += 1;
        }
    }
}

/// A floor given `action` by the fixed or ranged assignments: armed.
pub open spec fn armed(action: FloorAction) -> Floor {
    Floor { action, timer: 1 }
}

/// Floors `10..19` other than the `Flash` floor.
pub open spec fn early_floor(i: int) -> Floor {
    if i == 10 {
        armed(FloorAction::Breath)
    } else if i == 12 {
        armed(FloorAction::Steps)
    } else {
        blank_floor()
    }
}

/// What a floor of `25..69` other than the `Run` and `Scp173` floors may hold:
/// an inert behaviour of the shallow table, or the armed trick of `25..28`.
pub open spec fn shallow_slot(i: int, fl: Floor) -> bool {
    ||| fl.timer == 0 && in_shallow_table(fl.action)
    ||| 25 <= i < 28 && (fl == armed(FloorAction::Trick1) || fl == armed(FloorAction::Trick2))
}

/// Every outcome of generation over `fl`, whatever the random stream gave.
pub open spec fn generated_floors(fl: Seq<Floor>) -> bool {
    &&& fl.len() >= 200
    &&& fl[0] == blank_floor()
    &&& fl[1] == armed(FloorAction::Proceed)
    &&& fl[2] == blank_floor()
    &&& (fl[3] == blank_floor() || fl[3] == armed(FloorAction::Radio2))
    &&& fl[4] == blank_floor()
    &&& (fl[5] == blank_floor() || fl[5] == armed(FloorAction::Radio3))
    &&& fl[6] == blank_floor()
    &&& fl[7] == armed(FloorAction::Lock)
    &&& (fl[8] == blank_floor() || fl[8] == armed(FloorAction::Radio4))
    &&& fl[9] == blank_floor()
    &&& exists|k: int|
        10 <= k < 19 && fl[k] == armed(FloorAction::Flash) && forall|i: int|
            10 <= i < 19 && i != k ==> #[trigger] fl[i] == early_floor(i)
    &&& exists|k: int|
        20 <= k < 22 && fl[k] == armed(FloorAction::Lights) && forall|i: int|
            19 <= i < 25 && i != k ==> #[trigger] fl[i] == blank_floor()
    &&& exists|r: int, s: int|
        29 <= r < 33 && 34 <= s < 37 && fl[r] == armed(FloorAction::Run) && fl[s] == armed(
            FloorAction::Scp173,
        ) && forall|i: int| 25 <= i < 69 && i != r && i != s ==> shallow_slot(i, #[trigger] fl[i])
    &&& forall|i: int, j: int|
        25 <= i < 28 && 25 <= j < 28 && #[trigger] fl[i].timer == 1 && #[trigger] fl[j].timer == 1
            ==> i == j
    &&& forall|i: int| 69 <= i < 75 ==> #[trigger] fl[i] == blank_floor()
    &&& exists|d: int|
        150 <= d < 200 && fl[d] == armed(FloorAction::Darkness) && forall|i: int|
            75 <= i < 200 && i != d ==> #[trigger] fl[i].timer == 0 && in_deep_table(fl[i].action)
    &&& forall|i: int| 200 <= i < fl.len() ==> #[trigger] fl[i] == blank_floor()
}

/// The floors after the fixed and ranged assignments, before the scatter
/// passes, with `kf`, `kl`, `kr` and `ks` the floors drawn for `Flash`,
/// `Lights`, `Run` and `Scp173`.
pub open spec fn scripted_floors(fl: Seq<Floor>, kf: int, kl: int, kr: int, ks: int) -> bool {
    &&& fl.len() >= 200
    &&& forall|i: int| 0 <= i < fl.len() ==> #[trigger] fl[i].timer <= 1
    &&& fl[0] == blank_floor()
    &&& fl[1] == armed(FloorAction::Proceed)
    &&& fl[2] == blank_floor()
    &&& (fl[3] == blank_floor() || fl[3] == armed(FloorAction::Radio2))
    &&& fl[4] == blank_floor()
    &&& (fl[5] == blank_floor() || fl[5] == armed(FloorAction::Radio3))
    &&& fl[6] == blank_floor()
    &&& fl[7] == armed(FloorAction::Lock)
    &&& (fl[8] == blank_floor() || fl[8] == armed(FloorAction::Radio4))
    &&& fl[9] == blank_floor()
    &&& 10 <= kf < 19 && fl[kf] == armed(FloorAction::Flash)
    &&& forall|i: int| 10 <= i < 19 && i != kf ==> #[trigger] fl[i] == early_floor(i)
    &&& 20 <= kl < 22 && fl[kl] == armed(FloorAction::Lights)
    &&& forall|i: int| 19 <= i < 25 && i != kl ==> #[trigger] fl[i] == blank_floor()
    &&& 29 <= kr < 33 && fl[kr] == armed(FloorAction::Run)
    &&& 34 <= ks < 37 && fl[ks] == armed(FloorAction::Scp173)
    &&& forall|i: int|
        25 <= i < 37 && i != kr && i != ks ==> #[trigger] fl[i] == blank_floor() || (25 <= i < 28 && (
        fl[i] == armed(FloorAction::Trick1) || fl[i] == armed(FloorAction::Trick2)))
    &&& forall|i: int, j: int|
        25 <= i < 28 && 25 <= j < 28 && #[trigger] fl[i].timer == 1 && #[trigger] fl[j].timer == 1
            ==> i == j
    &&& forall|i: int| 37 <= i < fl.len() ==> #[trigger] fl[i] == blank_floor()
}

/// The two scatter passes and the `Darkness` floor, applied to scripted
/// floors, give a generated level whose markers are all 0 or 1.
proof fn lemma_generated(
    pre: Seq<Floor>,
    mid: Seq<Floor>,
    late: Seq<Floor>,
    fin: Seq<Floor>,
    kf: int,
    kl: int,
    kr: int,
    ks: int,
    kd: int,
    shallow: Seq<(usize, FloorAction)>,
    deep: Seq<(usize, FloorAction)>,
)
    requires
        scripted_floors(pre, kf, kl, kr, ks),
        scatter_result(pre, mid, 25, 69, false, shallow),
        scatter_result(mid, late, 75, 200, true, deep),
        150 <= kd < 200,
        fin == late.update(kd, armed(FloorAction::Darkness)),
    ensures
        generated_floors(fin),
        forall|i: int| 0 <= i < fin.len() ==> #[trigger] fin[i].timer <= 1,
{
    assert forall|i: int| 0 <= i < fin.len() implies #[trigger] fin[i].timer <= 1 by {
        assert(pre[i].timer <= 1);
        if mid[i] != pre[i] {
        }
        if late[i] != mid[i] {
        }
    }
    assert forall|i: int| 0 <= i < 25 implies #[trigger] fin[i] == pre[i] by {
        assert(mid[i] == pre[i]);
        assert(late[i] == mid[i]);
    }
    assert(fin[kf] == pre[kf]);
    assert(fin[kl] == pre[kl]);
    assert forall|i: int| 10 <= i < 19 && i != kf implies #[trigger] fin[i] == early_floor(i) by {
        assert(fin[i] == pre[i]);
    }
    assert forall|i: int| 19 <= i < 25 && i != kl implies #[trigger] fin[i] == blank_floor() by {
        assert(fin[i] == pre[i]);
    }
    assert(fin[kr] == armed(FloorAction::Run)) by {
        assert(mid[kr] == pre[kr]);
        assert(late[kr] == mid[kr]);
    }
    assert(fin[ks] == armed(FloorAction::Scp173)) by {
        assert(mid[ks] == pre[ks]);
        assert(late[ks] == mid[ks]);
    }
    assert forall|i: int| 25 <= i < 69 && i != kr && i != ks implies shallow_slot(i, #[trigger] fin[i]) by {
        assert(late[i] == mid[i]);
        assert(fin[i] == mid[i]);
        if i >= 37 {
            assert(pre[i] == blank_floor());
        }
        if mid[i] != pre[i] {
            assert(in_table(false, mid[i].action));
        }
    }
    assert forall|i: int, j: int|
        25 <= i < 28 && 25 <= j < 28 && #[trigger] fin[i].timer == 1 && #[trigger] fin[j].timer == 1
        implies i == j by {
        assert(late[i] == mid[i] && fin[i] == mid[i]);
        assert(late[j] == mid[j] && fin[j] == mid[j]);
        if mid[i] != pre[i] {
        }
        if mid[j] != pre[j] {
        }
        assert(pre[i].timer == 1 && pre[j].timer == 1);
    }
    assert forall|i: int| 69 <= i < 75 implies #[trigger] fin[i] == blank_floor() by {
        assert(mid[i] == pre[i]);
        assert(late[i] == mid[i]);
    }
    assert forall|i: int| 75 <= i < 200 && i != kd implies #[trigger] fin[i].timer == 0 && in_deep_table(
        fin[i].action,
    ) by {
        assert(mid[i] == pre[i]);
        if late[i] != mid[i] {
            assert(in_table(true, late[i].action));
        }
    }
    assert forall|i: int| 200 <= i < fin.len() implies #[trigger] fin[i] == blank_floor() by {
        assert(mid[i] == pre[i]);
        assert(late[i] == mid[i]);
    }
    assert(fin.len() == pre.len());
    assert(fin[kd] == armed(FloorAction::Darkness));
    assert(fin[1] == pre[1]);
    assert(fin[3] == pre[3]);
    assert(fin[5] == pre[5]);
    assert(fin[7] == pre[7]);
    assert(fin[8] == pre[8]);
}

/// `fin` comes out of generation by way of the scripted floors `pre`: the
/// shallow pass made exactly 8 picks over `25..69`, giving `mid`; the deep pass
/// made exactly 60 picks over `75..200`, giving `late`; and `Darkness` was then
/// armed on floor `kd` of `150..200`. Neither pass changed a floor that
/// already had a behaviour (see `scatter_result`).
pub open spec fn generated_by(
    fin: Seq<Floor>,
    pre: Seq<Floor>,
    mid: Seq<Floor>,
    late: Seq<Floor>,
    shallow: Seq<(usize, FloorAction)>,
    deep: Seq<(usize, FloorAction)>,
    k: (int, int, int, int, int),
) -> bool {
    &&& scripted_floors(pre, k.0, k.1, k.2, k.3)
    &&& shallow.len() == 8
    &&& scatter_result(pre, mid, 25, 69, false, shallow)
    &&& deep.len() == 60
    &&& scatter_result(mid, late, 75, 200, true, deep)
    &&& 150 <= k.4 < 200
    &&& fin == late.update(k.4, armed(FloorAction::Darkness))
}

/// Generation went through its steps in order to give `fin`.
pub open spec fn generation_steps(fin: Seq<Floor>) -> bool {
    exists|
        pre: Seq<Floor>,
        mid: Seq<Floor>,
        late: Seq<Floor>,
        shallow: Seq<(usize, FloorAction)>,
        deep: Seq<(usize, FloorAction)>,
        k: (int, int, int, int, int),
    | #[trigger] generated_by(fin, pre, mid, late, shallow, deep, k)
}

impl LevelLayout {
    /// The fixed and ranged assignments: `Proceed` on floor 1, `Lock` on
    /// floor 7, the radio calls on coin flips, then `Breath`, `Steps`,
    /// `Flash`, `Lights`, at most one trick, `Run` and `Scp173` on floors drawn
    /// from their ranges. Returns the floors drawn for `Flash`, `Lights`,
    /// `Run` and `Scp173`.
    fn script_floors(&mut self, rng: &mut WyRand) -> (r: (usize, usize, usize, usize))
        requires
            old(self).is_blank(),
            200 <= old(self).floor_amount <= MAX_FLOORS,
        ensures
            final(self).floor_amount == old(self).floor_amount,
            final(self).rooms == old(self).rooms,
            final(self).floors@.len() == old(self).floors@.len(),
            scripted_floors(final(self).floors@, r.0 as int, r.1 as int, r.2 as int, r.3 as int),
    {
        let ghost start = self.floors@;
        self.assign_floor_action(1, FloorAction::Proceed, 1);
        if draw_ratio(rng, 1, 2) {
            self.assign_random_floor_action(rng, 3, 4, FloorAction::Radio2, 1);
        }
        if draw_ratio(rng, 2, 3) {
            self.assign_random_floor_action(rng, 5, 6, FloorAction::Radio3, 1);
        }
        self.assign_floor_action(7, FloorAction::Lock, 1);
        if draw_ratio(rng, 1, 2) {
            self.assign_random_floor_action(rng, 8, 9, FloorAction::Radio4, 1);
        }
        self.assign_random_floor_action(rng, 10, 11, FloorAction::Breath, 1);
        self.assign_random_floor_action(rng, 12, 13, FloorAction::Steps, 1);
        let ghost before_flash = self.floors@;
        proof {
            assert forall|i: int| 0 <= i < before_flash.len() && !(1 <= i < 13) implies #[trigger] before_flash[i]
                == blank_floor() by {
                assert(start[i] == blank_floor());
            }
            assert(before_flash[2] == blank_floor());
            assert(before_flash[4] == blank_floor());
            assert(before_flash[6] == blank_floor());
            assert(before_flash[9] == blank_floor());
            assert(before_flash[11] == blank_floor());
        }
        let kf = self.assign_random_floor_action(rng, 10, 19, FloorAction::Flash, 1);
        let kl = self.assign_random_floor_action(rng, 20, 22, FloorAction::Lights, 1);
        let ghost before_trick = self.floors@;
        let trick = draw_range(rng, 0, 4);
        if trick == 1 {
            self.assign_random_floor_action(rng, 25, 28, FloorAction::Trick1, 1);
        } else if trick == 2 {
            self.assign_random_floor_action(rng, 25, 28, FloorAction::Trick2, 1);
        }
        let ghost after_trick = self.floors@;
        let kr = self.assign_random_floor_action(rng, 29, 33, FloorAction::Run, 1);
        let ks = self.assign_random_floor_action(rng, 34, 37, FloorAction::Scp173, 1);
        let ghost pre = self.floors@;
        proof {
            assert forall|i: int| 0 <= i < before_trick.len() && i >= 22 implies #[trigger] before_trick[i]
                == blank_floor() by {
                assert(before_flash[i] == blank_floor());
            }
            assert forall|i: int| 0 <= i < 25 implies #[trigger] pre[i] == before_trick[i] by {}
            assert forall|i: int| 0 <= i < pre.len() && i >= 37 implies #[trigger] pre[i]
                == blank_floor() by {
                assert(before_trick[i] == blank_floor());
            }
            assert forall|i: int| 0 <= i < pre.len() implies #[trigger] pre[i].timer <= 1 by {
                if i >= 22 && i != kr && i != ks {
                    assert(before_trick[i] == blank_floor());
                }
                if i < 22 {
                    if i != kf && i != kl && !(1 <= i < 13) {
                        assert(before_flash[i] == blank_floor());
                    }
                }
            }
            assert forall|i: int| 10 <= i < 19 && i != kf implies #[trigger] pre[i] == early_floor(i) by {
                assert(pre[i] == before_trick[i]);
            }
            assert forall|i: int| 19 <= i < 25 && i != kl implies #[trigger] pre[i] == blank_floor() by {
                assert(pre[i] == before_trick[i]);
            }
            assert forall|i: int|
                25 <= i < 37 && i != kr && i != ks implies #[trigger] pre[i] == blank_floor() || (25 <= i < 28
                && (pre[i] == armed(FloorAction::Trick1) || pre[i] == armed(FloorAction::Trick2))) by {
                assert(pre[i] == after_trick[i]);
                assert(before_trick[i] == blank_floor());
            }
            assert forall|i: int, j: int|
                25 <= i < 28 && 25 <= j < 28 && #[trigger] pre[i].timer == 1 && #[trigger] pre[j].timer == 1
                implies i == j by {
                assert(pre[i] == after_trick[i] && pre[j] == after_trick[j]);
                assert(before_trick[i] == blank_floor());
                assert(before_trick[j] == blank_floor());
            }
            assert(pre[0] == before_trick[0]);
            assert(pre[1] == before_trick[1]);
            assert(pre[2] == before_trick[2]);
            assert(pre[3] == before_trick[3]);
            assert(pre[4] == before_trick[4]);
            assert(pre[5] == before_trick[5]);
            assert(pre[6] == before_trick[6]);
            assert(pre[7] == before_trick[7]);
            assert(pre[8] == before_trick[8]);
            assert(pre[9] == before_trick[9]);
        }
        (kf, kl, kr, ks)
    }

    /// Generates the level on a blank layout: the behaviour of every floor,
    /// then the shell and sign of every floor slot but the last.
    pub fn generate(&mut self, rng: &mut WyRand)
        requires
            old(self).is_blank(),
            200 <= old(self).floor_amount <= MAX_FLOORS,
        ensures
            final(self).floor_amount == old(self).floor_amount,
            final(self).wf(),
            final(self).floors@.len() == old(self).floor_amount,
            final(self).rooms@.len() == old(self).floor_amount - 1,
            generated_floors(final(self).floors@),
            generation_steps(final(self).floors@),
            forall|i: int|
                #![trigger final(self).rooms@[i]]
                0 <= i < final(self).rooms@.len() ==> room_kind_allowed(
                    i,
                    final(self).floors@[i + 1].action,
                    final(self).rooms@[i].kind,
                ) && label_allowed(i, final(self).rooms@[i].label),
    {
        let (kf, kl, kr, ks) = self.script_floors(rng);
        let ghost pre = self.floors@;
        proof {
            assert forall|i: int| 37 <= i < 69 implies #[trigger] pre[i] == blank_floor() by {}
            lemma_idle_all(pre, 37, 69);
            lemma_idle_widen(pre, 25, 37, 69);
        }
        let shallow = match self.scatter_fill(rng, 8, 25, 69, false) {
            Ok(picks) => picks,
            Err(_) => {
                return;
            },
        };
        let ghost mid = self.floors@;
        proof {
            assert forall|i: int| 75 <= i < 200 implies #[trigger] mid[i] == blank_floor() by {
                assert(mid[i] == pre[i]);
            }
            lemma_idle_all(mid, 75, 200);
        }
        let deep = match self.scatter_fill(rng, 60, 75, 200, true) {
            Ok(picks) => picks,
            Err(_) => {
                return;
            },
        };
        let ghost late = self.floors@;
        let kd = self.assign_random_floor_action(rng, 150, 200, FloorAction::Darkness, 1);
        proof {
            lemma_generated(
                pre,
                mid,
                late,
                self.floors@,
                kf as int,
                kl as int,
                kr as int,
                ks as int,
                kd as int,
                shallow@,
                deep@,
            );
            assert(generated_by(
                self.floors@,
                pre,
                mid,
                late,
                shallow@,
                deep@,
                (kf as int, kl as int, kr as int, ks as int, kd as int),
            ));
            assert forall|i: int| 0 <= i < self.floors@.len() implies timer_in_range(
                #[trigger] self.floors@[i],
            ) by {
                assert(self.floors@[i].timer <= 1);
            }
        }
        self.gen_rooms(rng);
    }
}

} // verus!
