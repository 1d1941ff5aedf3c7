//! A queue of steps that numbers them by tick and hands them out in order.

use std::collections::VecDeque;
use vstd::prelude::*;
use crate::step::Step;
use crate::step::StepInfo;
use crate::tick::lemma_tick_add_adds;
use crate::tick::next_tick;
use crate::tick::tick_add;
use crate::tick::TickId;
use crate::tick::TICK_ID_MAX;

verus! {

/// The queue as a mathematical value: its entries from front to back, the
/// tick id that the next pop expects at the front, and the tick id that the
/// next push assigns.
pub struct StepQueue<T> {
    pub entries: Seq<StepInfo<T>>,
    pub expected_read_id: TickId,
    pub expected_write_id: TickId,
}

/// How many entries at the front of `entries` have a tick id below `tick_id`.
pub open spec fn stale_count<T>(entries: Seq<StepInfo<T>>, tick_id: TickId) -> nat
    decreases entries.len(),
{
    if entries.len() > 0 && entries[0].tick_id < tick_id {
        1 + stale_count(entries.drop_first(), tick_id)
    } else {
        0
    }
}

/// The count stops at the first entry whose tick id is not below `tick_id`.
pub proof fn lemma_stale_count<T>(entries: Seq<StepInfo<T>>, tick_id: TickId)
    ensures
        stale_count(entries, tick_id) <= entries.len(),
        forall|i: int|
            0 <= i < stale_count(entries, tick_id) ==> (#[trigger] entries[i]).tick_id < tick_id,
        stale_count(entries, tick_id) < entries.len() ==> entries[stale_count(
            entries,
            tick_id,
        ) as int].tick_id >= tick_id,
    decreases entries.len(),
{
    if entries.len() > 0 && entries[0].tick_id < tick_id {
        let rest = entries.drop_first();
        lemma_stale_count(rest, tick_id);
        assert forall|i: int| 0 <= i < stale_count(entries, tick_id) implies (
        #[trigger] entries[i]).tick_id < tick_id by {
            if i > 0 {
                assert(entries[i] == rest[i - 1]);
            }
        }
        if stale_count(entries, tick_id) < entries.len() {
            assert(entries[stale_count(entries, tick_id) as int] == rest[stale_count(
                rest,
                tick_id,
            ) as int]);
        }
    }
}

impl<T> StepQueue<T> {
    /// The empty queue whose first push is numbered `tick_id`.
    pub open spec fn starting_at(tick_id: TickId) -> Self {
        StepQueue {
            entries: Seq::empty(),
            expected_read_id: tick_id,
            expected_write_id: tick_id,
        }
    }

    /// The entries are numbered without a gap, and the next push continues
    /// the numbering.
    pub open spec fn wf(self) -> bool {
        self.entries.len() > 0 ==> {
            &&& forall|i: int|
                0 <= i < self.entries.len() ==> (#[trigger] self.entries[i]).tick_id == tick_add(
                    self.entries[0].tick_id,
                    i as nat,
                )
            &&& self.expected_write_id == tick_add(
                self.entries[0].tick_id,
                self.entries.len(),
            )
        }
    }

    /// The entry at the front, if there is one, is the one that the next pop
    /// expects.
    pub open spec fn in_sequence(self) -> bool {
        self.entries.len() > 0 ==> self.entries[0].tick_id == self.expected_read_id
    }

    /// The entries are exactly the steps pushed and not yet popped: they are
    /// numbered from the read cursor up to the write cursor.
    pub open spec fn synced(self) -> bool {
        &&& self.wf()
        &&& self.in_sequence()
        &&& self.expected_write_id == tick_add(self.expected_read_id, self.entries.len())
    }

    /// The entry at the front.
    pub open spec fn front(self) -> Option<StepInfo<T>> {
        if self.entries.len() > 0 {
            Some(self.entries[0])
        } else {
            None
        }
    }

    /// The tick id of the entry at the front.
    pub open spec fn front_tick_id(self) -> Option<TickId> {
        if self.entries.len() > 0 {
            Some(self.entries[0].tick_id)
        } else {
            None
        }
    }

    /// The tick id of the entry at the back.
    pub open spec fn back_tick_id(self) -> Option<TickId> {
        if self.entries.len() > 0 {
            Some(self.entries.last().tick_id)
        } else {
            None
        }
    }

    /// The queue after a push of `step`.
    pub open spec fn push(self, step: Step<T>) -> Self {
        StepQueue {
            entries: self.entries.push(StepInfo { step, tick_id: self.expected_write_id }),
            expected_read_id: self.expected_read_id,
            expected_write_id: next_tick(self.expected_write_id),
        }
    }

    /// The queue after a pop.
    pub open spec fn pop(self) -> Self {
        if self.entries.len() > 0 {
            StepQueue {
                entries: self.entries.drop_first(),
                expected_read_id: next_tick(self.expected_read_id),
                expected_write_id: self.expected_write_id,
            }
        } else {
            self
        }
    }

    /// The queue after a push of each of `steps`, in their order.
    pub open spec fn push_all(self, steps: Seq<Step<T>>) -> Self
        decreases steps.len(),
    {
        if steps.len() == 0 {
            self
        } else {
            self.push_all(steps.drop_last()).push(steps.last())
        }
    }

    /// The queue after `count` pops.
    pub open spec fn pop_times(self, count: nat) -> Self
        decreases count,
    {
        if count == 0 {
            self
        } else {
            self.pop_times((count - 1) as nat).pop()
        }
    }

    /// The queue without the entries at its front whose tick id is below
    /// `tick_id`. The read cursor stays where it is.
    pub open spec fn pop_up_to(self, tick_id: TickId) -> Self {
        StepQueue {
            entries: self.entries.skip(stale_count(self.entries, tick_id) as int),
            expected_read_id: self.expected_read_id,
            expected_write_id: self.expected_write_id,
        }
    }

    /// The queue without its first `count` entries, or without any where it
    /// has no more than `count`. The read cursor stays where it is.
    pub open spec fn pop_count(self, count: nat) -> Self {
        StepQueue {
            entries: if count >= self.entries.len() {
                Seq::empty()
            } else {
                self.entries.skip(count as int)
            },
            expected_read_id: self.expected_read_id,
            expected_write_id: self.expected_write_id,
        }
    }
}

/// Removing entries from the front leaves the others numbered without a gap.
pub proof fn lemma_skip_keeps_wf<T>(queue: StepQueue<T>, count: nat)
    requires
        queue.wf(),
        count <= queue.entries.len(),
    ensures
        (StepQueue {
            entries: queue.entries.skip(count as int),
            expected_read_id: queue.expected_read_id,
            expected_write_id: queue.expected_write_id,
        }).wf(),
{
    let rest = queue.entries.skip(count as int);
    if rest.len() > 0 {
        let first = queue.entries[0].tick_id;
        assert(rest[0] == queue.entries[count as int]);
        assert forall|i: int| 0 <= i < rest.len() implies (#[trigger] rest[i]).tick_id == tick_add(
            rest[0].tick_id,
            i as nat,
        ) by {
            assert(rest[i] == queue.entries[count + i]);
            lemma_tick_add_adds(first, count, i as nat);
        }
        lemma_tick_add_adds(first, count, rest.len());
    }
}

/// A push and a pop keep a queue in step with its cursors, and such a queue
/// always has at its front the entry that a pop expects: its tick id is the
/// read cursor, which the pop moves on by one.
pub proof fn lemma_synced_is_kept<T>(queue: StepQueue<T>, step: Step<T>)
    requires
        queue.synced(),
    ensures
        queue.in_sequence(),
        queue.push(step).synced(),
        queue.pop().synced(),
        queue.front() matches Some(info) ==> info.tick_id == queue.expected_read_id
            && queue.pop().expected_read_id == next_tick(queue.expected_read_id),
{
    let pushed = queue.push(step);
    let first = pushed.entries[0].tick_id;
    assert forall|i: int| 0 <= i < pushed.entries.len() implies (#[trigger] pushed.entries[i]).tick_id
        == tick_add(first, i as nat) by {
        if i < queue.entries.len() {
            assert(pushed.entries[i] == queue.entries[i]);
        }
    }
    lemma_tick_add_adds(queue.expected_read_id, queue.entries.len(), 1);
    if queue.entries.len() > 0 {
        assert(queue.pop().entries =~= queue.entries.skip(1));
        lemma_skip_keeps_wf(queue, 1);
        lemma_tick_add_adds(queue.expected_read_id, 1, (queue.entries.len() - 1) as nat);
        if queue.entries.len() > 1 {
            assert(queue.pop().entries[0] == queue.entries[1]);
        }
    }
}

/// A push keeps the entries numbered without a gap. On a queue that has
/// entries it leaves the front where it is and moves the back on by exactly
/// one tick; on an empty queue it makes the write cursor the front.
pub proof fn lemma_push_moves_back_by_one<T>(queue: StepQueue<T>, step: Step<T>)
    requires
        queue.wf(),
    ensures
        queue.push(step).wf(),
        queue.push(step).entries.len() == queue.entries.len() + 1,
        queue.entries.len() > 0 ==> queue.push(step).front_tick_id() == queue.front_tick_id()
            && queue.push(step).back_tick_id() == Some(
            next_tick(queue.back_tick_id().unwrap()),
        ),
        queue.entries.len() == 0 ==> queue.push(step).front_tick_id() == Some(
            queue.expected_write_id,
        ) && queue.push(step).back_tick_id() == Some(queue.expected_write_id),
{
    let pushed = queue.push(step);
    if queue.entries.len() > 0 {
        let first = queue.entries[0].tick_id;
        lemma_tick_add_adds(first, (queue.entries.len() - 1) as nat, 1);
        lemma_tick_add_adds(first, queue.entries.len(), 1);
        assert forall|i: int| 0 <= i < pushed.entries.len() implies (
        #[trigger] pushed.entries[i]).tick_id == tick_add(pushed.entries[0].tick_id, i as nat) by {
            if i < queue.entries.len() {
                assert(pushed.entries[i] == queue.entries[i]);
            }
        }
    }
}

/// Pushes on a fresh queue number the steps from the starting tick on: the
/// first push puts the starting tick at the front, and the entry of each push
/// is one tick after that of the push before.
pub proof fn lemma_pushes_are_numbered<T>(start: TickId, steps: Seq<Step<T>>)
    ensures
        ({
            let queue = StepQueue::<T>::starting_at(start).push_all(steps);
            &&& queue.synced()
            &&& queue.expected_read_id == start
            &&& queue.entries.len() == steps.len()
            &&& forall|i: int|
                0 <= i < steps.len() ==> #[trigger] queue.entries[i] == (StepInfo {
                    step: steps[i],
                    tick_id: tick_add(start, i as nat),
                })
            &&& steps.len() > 0 ==> queue.front_tick_id() == Some(start) && queue.back_tick_id()
                == Some(tick_add(start, (steps.len() - 1) as nat))
        }),
    decreases steps.len(),
{
    if steps.len() > 0 {
        let before = StepQueue::<T>::starting_at(start).push_all(steps.drop_last());
        lemma_pushes_are_numbered(start, steps.drop_last());
        lemma_synced_is_kept(before, steps.last());
        let queue = before.push(steps.last());
        assert forall|i: int| 0 <= i < steps.len() implies #[trigger] queue.entries[i] == (StepInfo {
            step: steps[i],
            tick_id: tick_add(start, i as nat),
        }) by {
            if i < steps.len() - 1 {
                assert(queue.entries[i] == before.entries[i]);
                assert(steps.drop_last()[i] == steps[i]);
            }
        }
    }
}

/// Pops on a queue filled by pushes return the steps in the order of the
/// pushes, numbered from the starting tick on without a gap. Each pop finds
/// the entry that it expects, and the pops after the last entry return
/// nothing and change nothing.
pub proof fn lemma_pops_are_numbered<T>(start: TickId, steps: Seq<Step<T>>, count: nat)
    ensures
        ({
            let queue = StepQueue::<T>::starting_at(start).push_all(steps).pop_times(count);
            &&& queue.synced()
            &&& count < steps.len() ==> queue.front() == Some(
                StepInfo { step: steps[count as int], tick_id: tick_add(start, count) },
            )
            &&& count >= steps.len() ==> queue.front() is None && queue.pop() == queue
        }),
{
    let pushed = StepQueue::<T>::starting_at(start).push_all(steps);
    lemma_pushes_are_numbered(start, steps);
    lemma_pop_times(pushed, count);
    let queue = pushed.pop_times(count);
    if count < steps.len() {
        assert(queue.entries[0] == pushed.entries[count as int]);
    }
}

/// What `count` pops leave of a queue that is in step with its cursors.
proof fn lemma_pop_times<T>(queue: StepQueue<T>, count: nat)
    requires
        queue.synced(),
    ensures
        ({
            let taken = if count <= queue.entries.len() {
                count
            } else {
                queue.entries.len()
            };
            &&& queue.pop_times(count).synced()
            &&& queue.pop_times(count).entries == queue.entries.skip(taken as int)
            &&& queue.pop_times(count).expected_read_id == tick_add(queue.expected_read_id, taken)
        }),
    decreases count,
{
    if count == 0 {
        assert(queue.entries.skip(0) =~= queue.entries);
    } else {
        let before = queue.pop_times((count - 1) as nat);
        lemma_pop_times(queue, (count - 1) as nat);
        lemma_synced_is_kept(before, Step::Forced);
        if count <= queue.entries.len() {
            assert(before.pop().entries =~= queue.entries.skip(count as int));
            lemma_tick_add_adds(queue.expected_read_id, (count - 1) as nat, 1);
        } else {
            assert(before.entries.len() == 0);
        }
    }
}

/// A second `pop_up_to` to the same tick removes nothing more.
pub proof fn lemma_pop_up_to_is_idempotent<T>(queue: StepQueue<T>, tick_id: TickId)
    ensures
        queue.pop_up_to(tick_id).pop_up_to(tick_id) == queue.pop_up_to(tick_id),
{
    lemma_stale_count(queue.entries, tick_id);
    let rest = queue.pop_up_to(tick_id).entries;
    if rest.len() > 0 {
        assert(rest[0] == queue.entries[stale_count(queue.entries, tick_id) as int]);
    }
    assert(rest.skip(0) =~= rest);
}

/// A queue of steps. A push gives the step the next tick id; a pop hands out
/// the step of the next tick.
pub struct Steps<T> {
    steps: VecDeque<StepInfo<T>>,
    expected_read_id: TickId,
    expected_write_id: TickId,
}

impl<T> View for Steps<T> {
    type V = StepQueue<T>;

    closed spec fn view(&self) -> StepQueue<T> {
        StepQueue {
            entries: self.steps@,
            expected_read_id: self.expected_read_id,
            expected_write_id: self.expected_write_id,
        }
    }
}

impl<T> Default for Steps<T> {
    fn default() -> (steps: Self)
        ensures
            steps@ == StepQueue::<T>::starting_at(TICK_ID_MAX),
            steps@.wf(),
    {
        Self::new()
    }
}

impl<T> Steps<T> {
    /// An empty queue that starts at the highest tick id.
    pub fn new() -> (steps: Self)
        ensures
            steps@ == StepQueue::<T>::starting_at(TICK_ID_MAX),
            steps@.wf(),
    {
        Self {
            steps: VecDeque::new(),
            expected_read_id: TICK_ID_MAX,
            expected_write_id: TICK_ID_MAX,
        }
    }

    /// An empty queue whose first step gets the tick id `initial_tick_id`.
    pub fn new_with_initial_tick(initial_tick_id: TickId) -> (steps: Self)
        ensures
            steps@ == StepQueue::<T>::starting_at(initial_tick_id),
            steps@.wf(),
    {
        Self {
            steps: VecDeque::new(),
            expected_read_id: initial_tick_id,
            expected_write_id: initial_tick_id,
        }
    }

    /// Appends `step` under the next tick id.
    pub fn push(&mut self, step: Step<T>)
        ensures
            final(self)@ == old(self)@.push(step),
            old(self)@.wf() ==> final(self)@.wf(),
    {
        let info = StepInfo { step, tick_id: self.expected_write_id };
        self.steps.push_back(info);
        self.expected_write_id = self.expected_write_id.wrapping_add(1);
        proof {
            if old(self)@.wf() {
                lemma_push_moves_back_by_one(old(self)@, step);
            }
        }
    }

    /// Whether a pop finds the entry that it expects: the queue is empty, or
    /// the entry at its front has the tick id of the read cursor.
    pub fn is_in_sequence(&self) -> (in_sequence: bool)
        ensures
            in_sequence == self@.in_sequence(),
    {
        self.steps.len() == 0 || self.steps[0].tick_id == self.expected_read_id
    }

    /// Removes the entry at the front and returns it; nothing for an empty
    /// queue. The entry must be the one that the read cursor expects.
    pub fn pop(&mut self) -> (info: Option<StepInfo<T>>)
        requires
            old(self)@.in_sequence(),
        ensures
            final(self)@ == old(self)@.pop(),
            info == old(self)@.front(),
            old(self)@.wf() ==> final(self)@.wf(),
    {
        let info = self.steps.pop_front();
        if info.is_some() {
            self.expected_read_id = self.expected_read_id.wrapping_add(1);
            proof {
                assert(self@.entries =~= old(self)@.entries.skip(1));
                if old(self)@.wf() {
                    lemma_skip_keeps_wf(old(self)@, 1);
                }
            }
        }
        info
    }

    /// Removes the entries at the front whose tick id is below `tick_id`.
    pub fn pop_up_to(&mut self, tick_id: TickId)
        ensures
            final(self)@ == old(self)@.pop_up_to(tick_id),
            old(self)@.wf() ==> final(self)@.wf(),
            final(self)@.entries.len() <= old(self)@.entries.len(),
            forall|i: int|
                0 <= i < old(self)@.entries.len() - final(self)@.entries.len() ==> (
                #[trigger] old(self)@.entries[i]).tick_id < tick_id,
            final(self)@.front_tick_id() matches Some(front) ==> front >= tick_id,
    {
        while self.steps.len() > 0 && self.steps[0].tick_id < tick_id
            invariant
                self@.pop_up_to(tick_id) == old(self)@.pop_up_to(tick_id),
            decreases self.steps.len(),
        {
            let ghost before = self@;
            self.steps.pop_front();
            proof {
                assert(self@.entries =~= before.entries.drop_first());
                lemma_stale_count(self@.entries, tick_id);
                assert(before.pop_up_to(tick_id).entries =~= self@.pop_up_to(tick_id).entries);
            }
        }
        proof {
            assert(self@.pop_up_to(tick_id).entries =~= self@.entries);
            lemma_stale_count(old(self)@.entries, tick_id);
            if old(self)@.wf() {
                lemma_skip_keeps_wf(old(self)@, stale_count(old(self)@.entries, tick_id));
            }
        }
    }

    /// Removes the first `count` entries, or all of them where there are no
    /// more than `count`.
    pub fn pop_count(&mut self, count: usize)
        ensures
            final(self)@ == old(self)@.pop_count(count as nat),
            old(self)@.wf() ==> final(self)@.wf(),
    {
        if count >= self.steps.len() {
            self.steps.clear();
        } else {
            let mut removed: usize = 0;
            proof {
                assert(self@.entries =~= old(self)@.entries.skip(0));
            }
            while removed < count
                invariant
                    removed <= count < old(self)@.entries.len(),
                    self@.entries == old(self)@.entries.skip(removed as int),
                    self@.expected_read_id == old(self)@.expected_read_id,
                    self@.expected_write_id == old(self)@.expected_write_id,
                decreases count - removed,
            {
                self.steps.pop_front();
                removed = removed + 1;
                proof {
                    assert(self@.entries =~= old(self)@.entries.skip(removed as int));
                }
            }
            proof {
                if old(self)@.wf() {
                    lemma_skip_keeps_wf(old(self)@, count as nat);
                }
            }
        }
    }

    /// The tick id of the entry at the front.
    pub fn front_tick_id(&self) -> (tick_id: Option<TickId>)
        ensures
            tick_id == self@.front_tick_id(),
    {
        if self.steps.len() > 0 {
            Some(self.steps[0].tick_id)
        } else {
            None
        }
    }

    /// The tick id of the entry at the back.
    pub fn back_tick_id(&self) -> (tick_id: Option<TickId>)
        ensures
            tick_id == self@.back_tick_id(),
    {
        if self.steps.len() > 0 {
            Some(self.steps[self.steps.len() - 1].tick_id)
        } else {
            None
        }
    }

    /// The number of entries.
    pub fn len(&self) -> (len: usize)
        ensures
            len == self@.entries.len(),
    {
        self.steps.len()
    }

    /// Whether the queue has no entry.
    pub fn is_empty(&self) -> (empty: bool)
        ensures
            empty == (self@.entries.len() == 0),
    {
        self.steps.len() == 0
    }
}

} // verus!
