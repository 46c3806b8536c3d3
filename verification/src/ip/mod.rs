//! The datagram layer on its own: links and the commands of a node that
//! only routes.

pub mod cli;
pub mod link;
