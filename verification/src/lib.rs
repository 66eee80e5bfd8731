//! Playback timing and play-along synchronization engine for a piano-learning
//! visualizer.
//!
//! The engine owns simulated song time, decides which note events are due on
//! each tick, gates time advancement on live key-press state in play-along
//! mode, and reconciles pausing, seeking and speed changes with that time
//! base. It never re-fires a past event, never stalls except where play-along
//! demands it, and stays correct under arbitrary user interruption. Rendering,
//! file parsing and device I/O are collaborators that sit outside this crate:
//! they hand in wall-clock deltas, key presses and seek fractions, and consume
//! due-event batches, times and progress values.

pub mod events;
pub mod clock;
pub mod dispatch;
pub mod cursor;
pub mod gate;
pub mod controller;
