//! The step of one tick and its pairing with a tick id.

use vstd::prelude::*;
use crate::tick::TickId;

verus! {

/// What happens in one tick.
#[derive(Debug, PartialEq, Eq)]
pub enum Step<T> {
    /// The simulation advances without input.
    Forced,
    /// The producer of the input is away and expected back.
    WaitingForReconnect,
    /// The input of the application.
    Custom(T),
}

/// A step together with the tick it belongs to.
pub struct StepInfo<T> {
    pub step: Step<T>,
    pub tick_id: TickId,
}

} // verus!
