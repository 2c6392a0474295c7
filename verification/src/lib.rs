//! A bidirectional TCP port forwarder, as the decisions it makes.
//!
//! The forwarder listens on one address and, for every connection that
//! comes in, opens a connection to one fixed remote and relays bytes both
//! ways until either side is done. What touches a socket lives with the
//! caller; what is decided lives here, as step functions from the outcome
//! of one operation to the next operation, and as laws about every run of
//! those steps:
//!
//! - [`buffer`]: the transfer buffer of a copy loop.
//! - [`copy_loop`]: one direction of a pair, read by read and write by
//!   write, and the law that it forwards a stream byte for byte.
//! - [`pair`]: the life of a connection pair, from connecting to closed.
//! - [`session`]: a pair with its two loops, many of them side by side,
//!   and the laws of duplex forwarding, teardown and isolation.
//! - [`dispatcher`]: the accept loop, and the law that only the listener
//!   can stop it.
//! - [`endpoint`]: addresses and the configuration.

pub mod buffer;
pub mod copy_loop;
pub mod dispatcher;
pub mod endpoint;
pub mod pair;
pub mod session;
