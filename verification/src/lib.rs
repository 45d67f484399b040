//! A small peer-to-peer recipe-sharing node: a record store with atomic
//! persistence, a line-oriented command bridge, a gossip list protocol,
//! and the event-routing decisions that tie them together.
use vstd::prelude::*;

pub mod record;
pub mod store;
pub mod codec;
pub mod command;
pub mod protocol;
pub mod router;
pub mod laws;
pub mod disk;
pub mod subnet;
