//! The circular buffer of the `discoid` crate, as far as the window of
//! pending steps uses it. The contracts in this file are not proved: each one
//! states what the source of `discoid::discoid::DiscoidBuffer` shows.

use vstd::prelude::*;
use discoid::discoid::DiscoidBuffer;

verus! {

/// `discoid::discoid::DiscoidBuffer`, whose fields stay hidden.
#[verifier::external_type_specification]
#[verifier::external_body]
#[verifier::reject_recursive_types(T)]
pub struct ExDiscoidBuffer<T>(DiscoidBuffer<T>);

/// What the buffer holds, slot by slot, counted from its front. The length is
/// the size that the buffer was made with.
pub uninterp spec fn circular_slots(buffer: DiscoidBuffer<usize>) -> Seq<Option<usize>>;

/// What is left of `slots` once the first `count` of them are given up: the
/// others move to the front and empty slots follow.
pub open spec fn slots_after_discard<V>(slots: Seq<Option<V>>, count: nat) -> Seq<Option<V>> {
    Seq::new(
        slots.len(),
        |i: int|
            if i + count < slots.len() {
                slots[i + count]
            } else {
                None
            },
    )
}

/// The largest size that a buffer is made with here. The slots of a buffer
/// are allocated at once, two machine words for each, and an allocation of
/// more than `isize::MAX` bytes panics.
pub const MAX_SLOTS: usize = usize::MAX / 32;

/// `DiscoidBuffer::new`: a buffer of `size` slots, all of them empty. The
/// precondition excludes the sizes for which the allocation panics.
#[verifier::external_body]
pub(crate) fn circular_new(size: usize) -> (buffer: DiscoidBuffer<usize>)
    requires
        size <= MAX_SLOTS,
    ensures
        circular_slots(buffer) == Seq::new(size as nat, |i: int| None::<usize>),
{
    DiscoidBuffer::new(size)
}

/// `DiscoidBuffer::set_at_index`: puts `value` into the slot `index`, counted
/// from the front, and leaves the other slots as they are. The call panics
/// for an index that is not below the size, which the precondition excludes.
#[verifier::external_body]
pub(crate) fn circular_set(buffer: &mut DiscoidBuffer<usize>, index: usize, value: usize)
    requires
        index < circular_slots(*old(buffer)).len(),
    ensures
        circular_slots(*final(buffer)) == circular_slots(*old(buffer)).update(
            index as int,
            Some(value),
        ),
{
    buffer.set_at_index(index, value)
}

/// `DiscoidBuffer::get_ref_at_index`: what the slot `index` holds, counted
/// from the front; nothing for an index that is not below the size.
#[verifier::external_body]
pub(crate) fn circular_get(buffer: &DiscoidBuffer<usize>, index: usize) -> (value: Option<usize>)
    ensures
        value == if index < circular_slots(*buffer).len() {
            circular_slots(*buffer)[index as int]
        } else {
            None
        },
{
    buffer.get_ref_at_index(index).copied()
}

/// `DiscoidBuffer::discard_front`: empties the first `count` slots and moves
/// the front past them, so that the slots behind them come first and the
/// emptied ones last. The call panics for a count above the size, which the
/// precondition excludes.
#[verifier::external_body]
pub(crate) fn circular_discard_front(buffer: &mut DiscoidBuffer<usize>, count: usize)
    requires
        count <= circular_slots(*old(buffer)).len(),
    ensures
        circular_slots(*final(buffer)) == slots_after_discard(
            circular_slots(*old(buffer)),
            count as nat,
        ),
{
    buffer.discard_front(count)
}

} // verus!
