//! A user-space internetworking stack: a virtual-IP forwarding plane with
//! distance-vector routing, and a reliable byte-stream transport on top of it.
//!
//! Every rule of the stack (parsing, routing, the connection state machine,
//! window accounting) is a function from plain values to plain values with a
//! contract; sockets, timers and tasks live with the caller.

pub mod addr;
pub mod cli;
pub mod config;
pub mod drop_policy;
pub mod ip;
pub mod net;
pub mod node;
pub mod protocol;
pub mod route;
pub mod text;
