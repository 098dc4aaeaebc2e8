//! Verified core of a small Redis connection and of the timing demos that
//! accompany it: the read buffer, the frame codec glue, and the state
//! machines of the hand-written futures and streams.

pub mod buffer;
pub mod frame;
pub mod connection;
pub mod scan;
pub mod delay;
pub mod interval;
pub mod select_loop;
