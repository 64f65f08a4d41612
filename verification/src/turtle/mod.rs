//! Index bookkeeping of the turtle interpreter: geometry buffers, the recorded path,
//! and the bracket/cut state machine.
pub mod brackets;
pub mod geometry;
pub mod path;
