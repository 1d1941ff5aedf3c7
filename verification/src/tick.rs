//! Tick ids and their arithmetic, which wraps at the 32-bit boundary.

use vstd::prelude::*;

verus! {

/// Identifies one step of the simulation clock.
pub type TickId = u32;

/// The tick id that a queue starts at when none is given.
pub const TICK_ID_MAX: TickId = u32::MAX;

/// The tick id that follows `tick`.
pub open spec fn next_tick(tick: TickId) -> TickId {
    if tick == u32::MAX {
        0
    } else {
        (tick + 1) as u32
    }
}

/// The tick id reached from `tick` after `count` steps of the clock.
pub open spec fn tick_add(tick: TickId, count: nat) -> TickId {
    ((tick + count) % 0x1_0000_0000) as u32
}

/// How many steps of the clock lead from `from` forward to `to`.
pub open spec fn tick_offset(from: TickId, to: TickId) -> nat {
    if to >= from {
        (to - from) as nat
    } else {
        (to - from + 0x1_0000_0000) as nat
    }
}

/// The signed distance from `from` to `to`: the shorter way round the clock,
/// negative where `to` lies behind `from`.
pub open spec fn tick_distance(from: TickId, to: TickId) -> int {
    if tick_offset(from, to) < 0x8000_0000 {
        tick_offset(from, to) as int
    } else {
        tick_offset(from, to) - 0x1_0000_0000
    }
}

/// One step of the clock is an addition of one.
pub proof fn lemma_next_tick_is_add_one(tick: TickId)
    ensures
        next_tick(tick) == tick_add(tick, 1),
        next_tick(tick) == tick.wrapping_add(1),
{
}

/// Going forward twice is going forward once, by the sum.
pub proof fn lemma_tick_add_adds(tick: TickId, first: nat, second: nat)
    ensures
        tick_add(tick_add(tick, first), second) == tick_add(tick, first + second),
{
}

/// Going `count` steps forward from `from` is undone by the offset, as long as
/// `count` is less than one turn of the clock.
pub proof fn lemma_tick_offset_of_add(from: TickId, count: nat)
    requires
        count < 0x1_0000_0000,
    ensures
        tick_offset(from, tick_add(from, count)) == count,
{
}

/// The offset is the wrapping difference, and leads from `from` to `to`.
pub proof fn lemma_tick_offset_wraps(from: TickId, to: TickId)
    ensures
        tick_offset(from, to) == to.wrapping_sub(from),
        tick_offset(from, to) < 0x1_0000_0000,
        tick_add(from, tick_offset(from, to)) == to,
{
}

/// Where the two tick ids are less than half a turn of the clock apart, the
/// signed distance is their plain difference.
pub proof fn lemma_tick_distance_is_difference(from: TickId, to: TickId)
    requires
        -0x8000_0000 <= to - from < 0x8000_0000,
    ensures
        tick_distance(from, to) == to - from,
{
}

} // verus!
