//! The core of a discrete-event simulation server: a time-ordered event
//! queue, an entity store, clocks, and the decisions of the server loop.

pub mod clock;
pub mod entity_heap;
pub mod event_queue;
pub mod server;
pub mod ticks;
