//! Tick-indexed step buffers for a fixed-timestep simulation.
//!
//! [`Steps`] is a queue that stamps every pushed step with the next tick id and
//! hands the steps back strictly in tick order. [`pending_steps::PendingSteps`]
//! is a fixed-size window addressed by tick id, which takes steps in any order
//! and exposes the one at the front of the window.

pub mod circular;
pub mod pending_steps;
pub mod step;
pub mod steps;
pub mod tick;

pub use step::Step;
pub use step::StepInfo;
pub use steps::Steps;
pub use tick::TickId;
