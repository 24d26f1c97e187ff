//! A minimal one-way broadcast protocol: a publisher turns operator input
//! lines into wire frames, subscribers decode received frames and report
//! them. The wire codec, the two control-loop step functions and the role
//! selection are verified; sockets, the clock and the terminal live outside
//! the library.

pub mod codec;
pub mod endpoint;
pub mod message;
pub mod publisher;
pub mod role;
pub mod subscriber;
pub mod text;
pub mod timefmt;
pub mod varint;
