//! Limits of a server.
use vstd::prelude::*;

verus! {

#[derive(Clone, Copy, Debug)]
pub struct Config {
    /// Connections beyond this many at a time are dropped.
    pub max_concurrent_connections: usize,
    /// Requests of one connection beyond this many at a time are refused.
    pub max_concurrent_streams: usize,
}

} // verus!
