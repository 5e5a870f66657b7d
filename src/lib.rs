//! State machine of a small editor for a line-oriented filter list.
//!
//! The reducer in [`state`] is the only place where the state changes; file
//! access and the clock are performed by the host, which hands their results
//! back as messages.

pub mod clock;
pub mod entry;
pub mod lines;
pub mod state;
