//! A fixed-size window of steps, addressed by tick id.
//!
//! The window covers the tick ids from its front tick on, one slot for each.
//! Steps may arrive in any order as long as their tick lies in the window;
//! the window only moves forward, by [`PendingSteps::discard_up_to`].

use vstd::prelude::*;
use discoid::discoid::DiscoidBuffer;
use crate::step::Step;
use crate::tick::lemma_next_tick_is_add_one;
use crate::tick::lemma_tick_distance_is_difference;
use crate::tick::lemma_tick_offset_of_add;
use crate::tick::lemma_tick_offset_wraps;
use crate::tick::next_tick;
use crate::tick::tick_add;
use crate::tick::tick_distance;
use crate::tick::tick_offset;
use crate::tick::TickId;
use crate::circular::slots_after_discard;
use crate::circular::MAX_SLOTS;
use crate::circular::circular_discard_front;
use crate::circular::circular_get;
use crate::circular::circular_new;
use crate::circular::circular_set;
use crate::circular::circular_slots;

verus! {

/// A step together with the tick it is meant for.
pub struct PendingStepInfo<T> {
    pub step: Step<T>,
    pub tick_id: TickId,
}

/// The window as a mathematical value: the tick id of the first slot, and
/// what each slot holds.
pub struct Window<T> {
    pub front_tick_id: TickId,
    pub slots: Seq<Option<PendingStepInfo<T>>>,
}

/// A call that changes a window.
pub enum WindowChange<T> {
    /// A `set` of the step for the tick.
    Write(TickId, Step<T>),
    /// A `discard_up_to` the tick.
    Discard(TickId),
}

impl<T> Window<T> {
    /// An empty window of `size` slots that starts at `tick_id`.
    pub open spec fn empty(size: nat, tick_id: TickId) -> Self {
        Window { front_tick_id: tick_id, slots: Seq::new(size, |i: int| None) }
    }

    /// Every step sits in the slot of its own tick.
    pub open spec fn wf(self) -> bool {
        forall|i: int|
            0 <= i < self.slots.len() ==> (#[trigger] self.slots[i] matches Some(info)
                ==> tick_offset(self.front_tick_id, info.tick_id) == i)
    }

    /// Whether the window has a slot for `tick_id`.
    pub open spec fn in_window(self, tick_id: TickId) -> bool {
        tick_offset(self.front_tick_id, tick_id) < self.slots.len()
    }

    /// What the slot of `tick_id` holds; nothing where the window has no such
    /// slot.
    pub open spec fn at(self, tick_id: TickId) -> Option<PendingStepInfo<T>> {
        if self.in_window(tick_id) {
            self.slots[tick_offset(self.front_tick_id, tick_id) as int]
        } else {
            None
        }
    }

    /// What the first slot holds.
    pub open spec fn front(self) -> Option<PendingStepInfo<T>> {
        self.at(self.front_tick_id)
    }

    /// The window with `step` in the slot of `tick_id`, in place of what was
    /// there; the same window where it has no such slot.
    pub open spec fn set(self, tick_id: TickId, step: Step<T>) -> Self {
        if self.in_window(tick_id) {
            Window {
                front_tick_id: self.front_tick_id,
                slots: self.slots.update(
                    tick_offset(self.front_tick_id, tick_id) as int,
                    Some(PendingStepInfo { step, tick_id }),
                ),
            }
        } else {
            self
        }
    }

    /// The window moved forward by `count` ticks: the first `count` slots are
    /// given up, the others keep their ticks, and empty slots follow.
    pub open spec fn advance(self, count: nat) -> Self {
        Window {
            front_tick_id: tick_add(self.front_tick_id, count),
            slots: slots_after_discard(self.slots, count),
        }
    }

    /// The window moved forward so that it starts at `tick_id`; the same
    /// window where `tick_id` is not ahead of its front.
    pub open spec fn discard_up_to(self, tick_id: TickId) -> Self {
        if tick_distance(self.front_tick_id, tick_id) > 0 {
            self.advance(tick_distance(self.front_tick_id, tick_id) as nat)
        } else {
            self
        }
    }

    /// The window after `change`.
    pub open spec fn apply(self, change: WindowChange<T>) -> Self {
        match change {
            WindowChange::Write(tick_id, step) => self.set(tick_id, step),
            WindowChange::Discard(tick_id) => self.discard_up_to(tick_id),
        }
    }

    /// The window after each of `changes`, in their order.
    pub open spec fn apply_all(self, changes: Seq<WindowChange<T>>) -> Self
        decreases changes.len(),
    {
        if changes.len() == 0 {
            self
        } else {
            self.apply(changes[0]).apply_all(changes.drop_first())
        }
    }

    /// Whether `change` leaves the slot of `tick_id` alone: it sets another
    /// tick, or moves the window no further than up to `tick_id`.
    pub open spec fn spares(self, change: WindowChange<T>, tick_id: TickId) -> bool {
        match change {
            WindowChange::Write(other, _) => other != tick_id,
            WindowChange::Discard(target) => tick_distance(self.front_tick_id, target)
                <= tick_offset(self.front_tick_id, tick_id),
        }
    }

    /// Whether each of `changes`, made in their order, leaves the slot of
    /// `tick_id` alone.
    pub open spec fn spares_all(self, changes: Seq<WindowChange<T>>, tick_id: TickId) -> bool
        decreases changes.len(),
    {
        changes.len() > 0 ==> self.spares(changes[0], tick_id) && self.apply(
            changes[0],
        ).spares_all(changes.drop_first(), tick_id)
    }
}

/// Moving a window forward by no tick leaves it as it is.
pub proof fn lemma_advance_zero<T>(window: Window<T>)
    ensures
        window.advance(0) == window,
{
    assert(window.advance(0).slots =~= window.slots);
}

/// Moving a window forward twice is moving it forward once, by the sum.
pub proof fn lemma_advance_adds<T>(window: Window<T>, first: nat, second: nat)
    ensures
        window.advance(first).advance(second) == window.advance(first + second),
{
    assert(window.advance(first).advance(second).slots =~= window.advance(first + second).slots);
    assert(tick_add(tick_add(window.front_tick_id, first), second) == tick_add(
        window.front_tick_id,
        first + second,
    ));
}

/// Once a window has moved past all of its slots, none of them is taken,
/// however far it moves.
pub proof fn lemma_advance_past_end<T>(window: Window<T>, count: nat)
    requires
        count >= window.slots.len(),
    ensures
        window.advance(count).slots == Seq::new(
            window.slots.len(),
            |i: int| None::<PendingStepInfo<T>>,
        ),
{
    assert(window.advance(count).slots =~= Seq::new(
        window.slots.len(),
        |i: int| None::<PendingStepInfo<T>>,
    ));
}

/// The window has a slot for exactly the ticks that are fewer steps ahead of
/// its front than it has slots. Where the ticks of the window do not wrap,
/// these are the tick ids from the front tick up to, and without, the front
/// tick plus the size.
pub proof fn lemma_window_is_a_tick_range<T>(window: Window<T>, tick_id: TickId)
    ensures
        window.in_window(tick_id) <==> exists|steps: nat|
            steps < window.slots.len() && tick_id == #[trigger] tick_add(
                window.front_tick_id,
                steps,
            ),
        window.front_tick_id + window.slots.len() <= 0x1_0000_0000 ==> (window.in_window(tick_id)
            <==> window.front_tick_id <= tick_id < window.front_tick_id + window.slots.len()),
{
    if window.in_window(tick_id) {
        lemma_tick_offset_wraps(window.front_tick_id, tick_id);
    }
    assert forall|steps: nat|
        steps < window.slots.len() && tick_id == #[trigger] tick_add(
            window.front_tick_id,
            steps,
        ) implies window.in_window(tick_id) by {
        lemma_tick_offset_of_add(window.front_tick_id, steps % 0x1_0000_0000);
    }
}

/// A `set` puts the step into the slot of its tick and leaves every other
/// slot as it is, where the window has a slot for the tick; elsewhere it
/// changes nothing.
pub proof fn lemma_set<T>(window: Window<T>, tick_id: TickId, step: Step<T>, other: TickId)
    requires
        window.wf(),
    ensures
        window.set(tick_id, step).wf(),
        window.set(tick_id, step).front_tick_id == window.front_tick_id,
        window.set(tick_id, step).slots.len() == window.slots.len(),
        window.in_window(tick_id) ==> window.set(tick_id, step).at(tick_id) == Some(
            PendingStepInfo { step, tick_id },
        ),
        !window.in_window(tick_id) ==> window.set(tick_id, step) == window,
        other != tick_id ==> window.set(tick_id, step).at(other) == window.at(other),
{
}

/// Moving a window forward gives up the slots of the ticks that it passes
/// and keeps what the slots of the other ticks hold.
pub proof fn lemma_advance<T>(window: Window<T>, count: nat, tick_id: TickId)
    requires
        window.wf(),
        count < 0x1_0000_0000,
    ensures
        window.advance(count).wf(),
        window.advance(count).slots.len() == window.slots.len(),
        window.advance(count).at(tick_id) == if tick_offset(window.front_tick_id, tick_id)
            >= count {
            window.at(tick_id)
        } else {
            None
        },
{
    let moved = window.advance(count);
    assert forall|tick: TickId| tick_offset(window.front_tick_id, tick) >= count implies
        #[trigger] tick_offset(moved.front_tick_id, tick) == tick_offset(
        window.front_tick_id,
        tick,
    ) - count by {}
    assert forall|tick: TickId| tick_offset(window.front_tick_id, tick) < count implies
        #[trigger] tick_offset(moved.front_tick_id, tick) == tick_offset(
        window.front_tick_id,
        tick,
    ) - count + 0x1_0000_0000 by {}
    assert forall|i: int| 0 <= i < moved.slots.len() implies (#[trigger] moved.slots[i] matches Some(
        info,
    ) ==> tick_offset(moved.front_tick_id, info.tick_id) == i) by {
        if i + count < window.slots.len() {
            assert(moved.slots[i] == window.slots[i + count]);
        }
    }
    if tick_offset(window.front_tick_id, tick_id) < count && moved.in_window(tick_id) {
        let slot = tick_offset(moved.front_tick_id, tick_id) as int;
        if slot + count < window.slots.len() {
            assert(window.slots[slot + count] matches Some(info) ==> tick_offset(
                window.front_tick_id,
                info.tick_id,
            ) == slot + count);
        }
    }
}

/// `discard_up_to` changes nothing for a tick at or behind the front. For a
/// tick ahead of the front it makes that tick the front, gives up the slots of
/// the ticks before it, which are as many as the two ticks are apart, and
/// keeps what the slots of the other ticks hold.
pub proof fn lemma_discard_up_to<T>(window: Window<T>, tick_id: TickId, other: TickId)
    requires
        window.wf(),
    ensures
        window.discard_up_to(tick_id).wf(),
        window.discard_up_to(tick_id).slots.len() == window.slots.len(),
        tick_distance(window.front_tick_id, tick_id) <= 0 ==> window.discard_up_to(tick_id)
            == window,
        tick_distance(window.front_tick_id, tick_id) > 0 ==> {
            &&& window.discard_up_to(tick_id).front_tick_id == tick_id
            &&& window.discard_up_to(tick_id).at(other) == if tick_offset(
                window.front_tick_id,
                other,
            ) >= tick_distance(window.front_tick_id, tick_id) {
                window.at(other)
            } else {
                None
            }
        },
{
    let distance = tick_distance(window.front_tick_id, tick_id);
    if distance > 0 {
        lemma_advance(window, distance as nat, other);
        lemma_tick_offset_wraps(window.front_tick_id, tick_id);
    }
}

/// The same for two ticks that are less than half a turn of the clock apart,
/// in terms of their plain order and difference.
pub proof fn lemma_discard_up_to_nearby<T>(window: Window<T>, tick_id: TickId)
    requires
        window.wf(),
        -0x8000_0000 <= tick_id - window.front_tick_id < 0x8000_0000,
    ensures
        tick_id <= window.front_tick_id ==> window.discard_up_to(tick_id) == window,
        tick_id > window.front_tick_id ==> {
            &&& window.discard_up_to(tick_id).front_tick_id == tick_id
            &&& window.discard_up_to(tick_id).slots == slots_after_discard(
                window.slots,
                (tick_id - window.front_tick_id) as nat,
            )
        },
{
    lemma_tick_distance_is_difference(window.front_tick_id, tick_id);
    lemma_tick_offset_wraps(window.front_tick_id, tick_id);
}

/// What the slot of a tick holds stays as it is through any changes that
/// neither set that tick nor move the window past it.
pub proof fn lemma_spared_slot_is_kept<T>(
    window: Window<T>,
    changes: Seq<WindowChange<T>>,
    tick_id: TickId,
)
    requires
        window.wf(),
        window.spares_all(changes, tick_id),
    ensures
        window.apply_all(changes).wf(),
        window.apply_all(changes).slots.len() == window.slots.len(),
        window.apply_all(changes).at(tick_id) == window.at(tick_id),
    decreases changes.len(),
{
    if changes.len() > 0 {
        match changes[0] {
            WindowChange::Write(other, step) => {
                lemma_set(window, other, step, tick_id);
            },
            WindowChange::Discard(target) => {
                lemma_discard_up_to(window, target, tick_id);
            },
        }
        lemma_spared_slot_is_kept(window.apply(changes[0]), changes.drop_first(), tick_id);
    }
}

/// A step that was set comes back unchanged: it is what the slot of its tick
/// holds until that tick is set again or the window moves past it, and it is
/// the front of the window once the window has moved up to its tick.
pub proof fn lemma_set_round_trip<T>(
    window: Window<T>,
    tick_id: TickId,
    step: Step<T>,
    changes: Seq<WindowChange<T>>,
)
    requires
        window.wf(),
        window.in_window(tick_id),
        window.set(tick_id, step).spares_all(changes, tick_id),
    ensures
        ({
            let later = window.set(tick_id, step).apply_all(changes);
            &&& later.at(tick_id) == Some(PendingStepInfo { step, tick_id })
            &&& later.front_tick_id == tick_id ==> later.front() == Some(
                PendingStepInfo { step, tick_id },
            )
        }),
{
    lemma_set(window, tick_id, step, tick_id);
    lemma_spared_slot_is_kept(window.set(tick_id, step), changes, tick_id);
}

/// The text of the error for a tick id that the window has no slot for.
pub open spec fn out_of_window_message() -> Seq<char> {
    "pending_steps: out of scope"@
}

/// A window of steps over a circular buffer.
///
/// The circular buffer has one slot for each tick of the window. A slot that
/// is taken holds the position of its step in `entries`, where the steps are
/// kept without gaps.
pub struct PendingSteps<T> {
    slots: DiscoidBuffer<usize>,
    entries: Vec<PendingStepInfo<T>>,
    front_tick_id: TickId,
    capacity: usize,
}

/// What each slot holds, given the position that it names among `entries`.
spec fn stored<T>(
    slots: Seq<Option<usize>>,
    entries: Seq<PendingStepInfo<T>>,
) -> Seq<Option<PendingStepInfo<T>>> {
    Seq::new(
        slots.len(),
        |i: int|
            match slots[i] {
                Some(position) => Some(entries[position as int]),
                None => None,
            },
    )
}

/// The slots and the stored steps refer to each other: a taken slot names a
/// stored step of the slot's tick, and each stored step is named by the slot
/// of its tick.
spec fn linked<T>(
    slots: Seq<Option<usize>>,
    entries: Seq<PendingStepInfo<T>>,
    front_tick_id: TickId,
) -> bool {
    &&& forall|i: int|
        0 <= i < slots.len() ==> (#[trigger] slots[i] matches Some(position) ==> position
            < entries.len() && tick_offset(front_tick_id, entries[position as int].tick_id) == i)
    &&& forall|position: int|
        0 <= position < entries.len() ==> {
            let offset = tick_offset(front_tick_id, (#[trigger] entries[position]).tick_id);
            offset < slots.len() && slots[offset as int] == Some(position as usize)
        }
}

/// Giving up the first slot keeps the slots and the stored steps linked, once
/// the last stored step has taken the place of the one given up.
proof fn lemma_evict_keeps_linked<T>(
    slots: Seq<Option<usize>>,
    entries: Seq<PendingStepInfo<T>>,
    front_tick_id: TickId,
)
    requires
        linked(slots, entries, front_tick_id),
        slots.len() > 0,
        entries.len() <= usize::MAX,
    ensures
        match slots[0] {
            Some(position) => {
                let last = entries.len() - 1;
                let moved = tick_offset(front_tick_id, entries[last].tick_id) as int;
                let renamed = if position == last {
                    slots
                } else {
                    slots.update(moved, Some(position))
                };
                let kept = entries.update(position as int, entries[last]).drop_last();
                &&& position < entries.len()
                &&& moved < slots.len()
                &&& linked(slots_after_discard(renamed, 1), kept, next_tick(front_tick_id))
                &&& stored(slots_after_discard(renamed, 1), kept) == slots_after_discard(
                    stored(slots, entries),
                    1,
                )
            },
            None => {
                &&& linked(slots_after_discard(slots, 1), entries, next_tick(front_tick_id))
                &&& stored(slots_after_discard(slots, 1), entries) == slots_after_discard(
                    stored(slots, entries),
                    1,
                )
            },
        },
{
    let next = next_tick(front_tick_id);
    assert forall|tick: TickId| tick != front_tick_id implies #[trigger] tick_offset(next, tick)
        == tick_offset(front_tick_id, tick) - 1 by {}
    match slots[0] {
        Some(position) => {
            let last = entries.len() - 1;
            let moved = tick_offset(front_tick_id, entries[last].tick_id) as int;
            let renamed = if position == last {
                slots
            } else {
                slots.update(moved, Some(position))
            };
            let kept = entries.update(position as int, entries[last]).drop_last();
            let after = slots_after_discard(renamed, 1);
            assert(position < entries.len());
            assert(slots[moved] == Some(last as usize));
            assert(tick_offset(front_tick_id, entries[position as int].tick_id) == 0);
            assert forall|i: int| 0 <= i < after.len() implies (#[trigger] after[i] matches Some(p)
                ==> p < kept.len() && tick_offset(next, kept[p as int].tick_id) == i) by {
                if i + 1 < slots.len() {
                    assert(after[i] == renamed[i + 1]);
                    if position != last && i + 1 == moved {
                    } else {
                        assert(renamed[i + 1] == slots[i + 1]);
                    }
                }
            }
            assert forall|p: int| 0 <= p < kept.len() implies ({
                let offset = tick_offset(next, (#[trigger] kept[p]).tick_id);
                offset < after.len() && after[offset as int] == Some(p as usize)
            }) by {
                let source = if p == position {
                    last
                } else {
                    p
                };
                assert(kept[p] == entries[source]);
                let before = tick_offset(front_tick_id, entries[source].tick_id) as int;
                assert(slots[before] == Some(source as usize));
                assert(before != 0);
                assert(renamed[before] == Some(p as usize));
                assert(after[before - 1] == renamed[before]);
            }
            assert(stored(after, kept) =~= slots_after_discard(stored(slots, entries), 1)) by {
                assert forall|i: int| 0 <= i < slots.len() implies stored(after, kept)[i]
                    == slots_after_discard(stored(slots, entries), 1)[i] by {
                    if i + 1 < slots.len() {
                        assert(after[i] == renamed[i + 1]);
                        if position != last && i + 1 == moved {
                        } else {
                            assert(renamed[i + 1] == slots[i + 1]);
                        }
                    }
                }
            }
        },
        None => {
            let after = slots_after_discard(slots, 1);
            assert forall|i: int| 0 <= i < after.len() implies (#[trigger] after[i] matches Some(p)
                ==> p < entries.len() && tick_offset(next, entries[p as int].tick_id) == i) by {
                if i + 1 < slots.len() {
                    assert(after[i] == slots[i + 1]);
                }
            }
            assert forall|p: int| 0 <= p < entries.len() implies ({
                let offset = tick_offset(next, (#[trigger] entries[p]).tick_id);
                offset < after.len() && after[offset as int] == Some(p as usize)
            }) by {
                let before = tick_offset(front_tick_id, entries[p].tick_id) as int;
                assert(slots[before] == Some(p as usize));
                assert(after[before - 1] == slots[before]);
            }
            assert(stored(after, entries) =~= slots_after_discard(stored(slots, entries), 1));
        },
    }
}

impl<T> View for PendingSteps<T> {
    type V = Window<T>;

    closed spec fn view(&self) -> Window<T> {
        Window {
            front_tick_id: self.front_tick_id,
            slots: stored(circular_slots(self.slots), self.entries@),
        }
    }
}

impl<T> PendingSteps<T> {
    /// The circular buffer has the window's size, and its slots and the stored
    /// steps refer to each other.
    pub closed spec fn wf(&self) -> bool {
        &&& circular_slots(self.slots).len() == self.capacity
        &&& linked(circular_slots(self.slots), self.entries@, self.front_tick_id)
    }

    /// A well-formed window is a window whose steps sit at their ticks.
    pub proof fn lemma_wf_view(&self)
        requires
            self.wf(),
        ensures
            self@.wf(),
    {
    }

    /// An empty window of `window_size` slots, the first of them for `tick_id`.
    /// The size is limited by what can be allocated at once.
    pub fn new(window_size: usize, tick_id: TickId) -> (pending: Self)
        requires
            window_size <= MAX_SLOTS,
        ensures
            pending.wf(),
            pending@ == Window::<T>::empty(window_size as nat, tick_id),
    {
        let pending = Self {
            slots: circular_new(window_size),
            entries: Vec::new(),
            front_tick_id: tick_id,
            capacity: window_size,
        };
        assert(pending@.slots =~= Window::<T>::empty(window_size as nat, tick_id).slots);
        pending
    }

    /// Stores `step` for `tick_id`, in place of an earlier step for that tick.
    /// Fails, and changes nothing, where the window has no slot for `tick_id`:
    /// for a tick behind the front as for one too far ahead.
    pub fn set(&mut self, tick_id: TickId, step: Step<T>) -> (result: Result<(), String>)
        requires
            old(self).wf(),
        ensures
            final(self).wf(),
            final(self)@ == old(self)@.set(tick_id, step),
            result is Ok <==> old(self)@.in_window(tick_id),
            result matches Err(message) ==> message@ == out_of_window_message(),
    {
        let offset = tick_id.wrapping_sub(self.front_tick_id) as usize;
        if offset >= self.capacity {
            return Err("pending_steps: out of scope".to_string());
        }
        let info = PendingStepInfo { step, tick_id };
        match circular_get(&self.slots, offset) {
            Some(position) => {
                self.entries[position] = info;
            },
            None => {
                let position = self.entries.len();
                self.entries.push(info);
                circular_set(&mut self.slots, offset, position);
            },
        }
        assert(self@.slots =~= old(self)@.set(tick_id, step).slots);
        Ok(())
    }

    /// Gives up the first slot and moves the window forward by one tick.
    fn evict_front(&mut self)
        requires
            old(self).wf(),
            old(self).capacity > 0,
        ensures
            final(self).wf(),
            final(self).capacity == old(self).capacity,
            final(self)@ == old(self)@.advance(1),
    {
        proof {
            assert(self.entries@.len() == self.entries.len());
            lemma_evict_keeps_linked(
                circular_slots(self.slots),
                self.entries@,
                self.front_tick_id,
            );
            lemma_next_tick_is_add_one(self.front_tick_id);
        }
        match circular_get(&self.slots, 0) {
            Some(position) => {
                let last = self.entries.len() - 1;
                if position != last {
                    let moved = self.entries[last].tick_id.wrapping_sub(self.front_tick_id) as usize;
                    circular_set(&mut self.slots, moved, position);
                }
                self.entries.swap_remove(position);
            },
            None => {},
        }
        circular_discard_front(&mut self.slots, 1);
        self.front_tick_id = self.front_tick_id.wrapping_add(1);
    }

    /// Moves the window forward so that it starts at `tick_id`, and gives up
    /// the steps of the ticks before it. Changes nothing where `tick_id` is
    /// the front tick or lies behind it: the window never moves back.
    pub fn discard_up_to(&mut self, tick_id: TickId)
        requires
            old(self).wf(),
        ensures
            final(self).wf(),
            final(self)@ == old(self)@.discard_up_to(tick_id),
    {
        let distance = tick_id.wrapping_sub(self.front_tick_id);
        if distance == 0 || distance >= 0x8000_0000 {
            return ;
        }
        let count = distance as usize;
        let evictions = if count < self.capacity {
            count
        } else {
            self.capacity
        };
        let mut done: usize = 0;
        proof {
            lemma_tick_offset_wraps(self.front_tick_id, tick_id);
            lemma_advance_zero(self@);
        }
        while done < evictions
            invariant
                self.wf(),
                done <= evictions <= self.capacity,
                self.capacity == old(self).capacity,
                self@ == old(self)@.advance(done as nat),
            decreases evictions - done,
        {
            self.evict_front();
            proof {
                lemma_advance_adds(old(self)@, done as nat, 1);
            }
            done = done + 1;
        }
        proof {
            if count >= self.capacity {
                lemma_advance_past_end(old(self)@, done as nat);
                lemma_advance_past_end(old(self)@, count as nat);
                assert(self.entries@.len() == 0) by {
                    if self.entries@.len() > 0 {
                        let offset = tick_offset(self.front_tick_id, self.entries@[0].tick_id);
                        assert(self@.slots[offset as int] is Some);
                    }
                }
            }
        }
        self.front_tick_id = tick_id;
    }

    /// Whether the first slot is empty, whatever the other slots hold.
    pub fn is_empty(&self) -> (empty: bool)
        ensures
            empty == (self@.front() is None),
    {
        circular_get(&self.slots, 0).is_none()
    }

    /// The step in the first slot. It stays there until the window moves
    /// past it.
    pub fn pop(&mut self) -> (info: &PendingStepInfo<T>)
        requires
            old(self).wf(),
            old(self)@.front() is Some,
        ensures
            final(self).wf(),
            final(self)@ == old(self)@,
            Some(*info) == old(self)@.front(),
    {
        let position = circular_get(&self.slots, 0).unwrap();
        &self.entries[position]
    }

    /// The tick id of the step in the first slot; nothing while that slot is
    /// empty, though the window starts there.
    pub fn front_tick_id(&self) -> (tick_id: Option<TickId>)
        requires
            self.wf(),
        ensures
            tick_id == match self@.front() {
                Some(info) => Some(info.tick_id),
                None => None,
            },
            tick_id matches Some(tick) ==> tick == self@.front_tick_id,
    {
        match circular_get(&self.slots, 0) {
            Some(position) => Some(self.entries[position].tick_id),
            None => None,
        }
    }
}

} // verus!
