//! The judging core of an online-judge worker: it turns one submission into a
//! stream of per-test outcomes and a scored final result. The library holds
//! the decisions — jail command lines and limit flags, meta-file reading,
//! verdicts, group scheduling with dependencies, scoring, the manifest codec
//! and the transport framing — while the process spawning, file I/O and
//! concurrency around them live with the caller.

pub mod numbers;
pub mod text;
pub mod sandbox;
pub mod command;
pub mod isolate;
pub mod judge;
pub mod manifest;
pub mod scheduler;
pub mod pool;
pub mod wire;
pub mod logstate;
pub mod channel;
pub mod archive;
pub mod stage;
pub mod gate;

use vstd::prelude::*;

verus! {

/// A resource bound: either a concrete limit or no limit at all.
#[derive(Clone, Copy, Debug, PartialEq, Eq, Structural)]
pub enum MaybeLimited<T: Copy> {
    Limited(T),
    Unlimited,
}

impl<T: Copy> MaybeLimited<T> {
    pub fn is_unlimited(&self) -> (r: bool)
        ensures
            r == (*self is Unlimited),
    {
        match self {
            MaybeLimited::Limited(_) => false,
            MaybeLimited::Unlimited => true,
        }
    }
}

impl<T: Copy> Default for MaybeLimited<T> {
    fn default() -> (r: Self)
        ensures
            r is Unlimited,
    {
        MaybeLimited::Unlimited
    }
}

} // verus!
