//! A single-entity position service: a navigable grid loaded from an ASCII
//! map, a fixed-width wire codec for position/target frames, a per-connection
//! read/write state machine, and the event-loop bookkeeping that ties socket
//! readiness to one pathfinding step of a shared movable entity.

pub mod codec;
pub mod conn;
pub mod grid;
pub mod route;
pub mod server;
