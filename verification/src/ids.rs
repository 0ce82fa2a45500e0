//! Identifiers the system hands out.

use vstd::prelude::*;

verus! {

/// A process identifier.
pub type Pid = i32;

/// A native desktop, as the window server numbers it.
#[derive(Clone, Copy, Debug, PartialEq, Eq, Structural, Hash, PartialOrd, Ord)]
pub struct SpaceId(pub u64);

impl SpaceId {
    pub fn new(id: u64) -> (space: SpaceId)
        ensures
            space == SpaceId(id),
    {
        SpaceId(id)
    }

    pub fn get(&self) -> (id: u64)
        ensures
            id == self.0,
    {
        self.0
    }
}

/// A window of one application: the process and the window's number in it.
#[derive(Clone, Copy, Debug, PartialEq, Eq, Structural, Hash, PartialOrd, Ord)]
pub struct WindowId {
    pub pid: Pid,
    pub idx: u32,
}

impl WindowId {
    pub fn new(pid: Pid, idx: u32) -> (window: WindowId)
        ensures
            window == (WindowId { pid, idx }),
    {
        WindowId { pid, idx }
    }
}

/// A window, as the window server numbers it.
#[derive(Clone, Copy, Debug, PartialEq, Eq, Structural, Hash, PartialOrd, Ord)]
pub struct WindowServerId(pub u32);

impl WindowServerId {
    pub fn new(id: u32) -> (window: WindowServerId)
        ensures
            window == WindowServerId(id),
    {
        WindowServerId(id)
    }

    pub fn as_u32(&self) -> (id: u32)
        ensures
            id == self.0,
    {
        self.0
    }
}

} // verus!
