//! A content-addressed build orchestrator's core: the dependency
//! scheduler and two-level hash cache of the coordinator, the
//! length-prefixed lockstep wire protocol between coordinator and
//! worker, the worker's build planning, and the path-sanitising
//! archive extraction both sides share.  Everything here is stated and
//! proved; the processes around it (sockets, files, mounts, child
//! processes) live outside the library and hand it plain values.

pub mod buildplan;
pub mod cache;
pub mod envmap;
pub mod envsub;
pub mod extract;
pub mod helperargs;
pub mod paths;
pub mod recipe;
pub mod recipe_parse;
pub mod recipe_text;
pub mod sched;
pub mod source;
pub mod strutil;
pub mod wire;

use vstd::prelude::*;

verus! {

/// One-byte status tags a worker sends ahead of each protocol step.
#[derive(Debug, PartialEq, Eq, Structural, Clone, Copy)]
pub enum WorkerStatus {
    ReadyForWork,
    ReadyForSource,
    ReadyForOverlay,
    HaveSource,
    NeedSource,
    ReadyForDep,
    HaveDep,
    NeedDep,
    HaveOverlay,
    NeedOverlay,
    ReadyForEnvs,
    BuildComplete,
}

impl WorkerStatus {
    /// The tag's value on the wire.
    pub fn to_byte(self) -> (r: u8)
        ensures
            r == self.as_byte(),
    {
        match self {
            WorkerStatus::ReadyForWork => 0,
            WorkerStatus::ReadyForSource => 1,
            WorkerStatus::ReadyForOverlay => 2,
            WorkerStatus::HaveSource => 3,
            WorkerStatus::NeedSource => 4,
            WorkerStatus::ReadyForDep => 5,
            WorkerStatus::HaveDep => 6,
            WorkerStatus::NeedDep => 7,
            WorkerStatus::HaveOverlay => 8,
            WorkerStatus::NeedOverlay => 9,
            WorkerStatus::ReadyForEnvs => 10,
            WorkerStatus::BuildComplete => 11,
        }
    }

    pub open spec fn as_byte(self) -> u8 {
        match self {
            WorkerStatus::ReadyForWork => 0,
            WorkerStatus::ReadyForSource => 1,
            WorkerStatus::ReadyForOverlay => 2,
            WorkerStatus::HaveSource => 3,
            WorkerStatus::NeedSource => 4,
            WorkerStatus::ReadyForDep => 5,
            WorkerStatus::HaveDep => 6,
            WorkerStatus::NeedDep => 7,
            WorkerStatus::HaveOverlay => 8,
            WorkerStatus::NeedOverlay => 9,
            WorkerStatus::ReadyForEnvs => 10,
            WorkerStatus::BuildComplete => 11,
        }
    }

    /// Decode a received tag byte; anything past the last tag is a protocol error.
    pub fn from_byte(b: u8) -> (r: Option<WorkerStatus>)
        ensures
            match r {
                Some(s) => s.as_byte() == b,
                None => b > 11,
            },
    {
        match b {
            0 => Some(WorkerStatus::ReadyForWork),
            1 => Some(WorkerStatus::ReadyForSource),
            2 => Some(WorkerStatus::ReadyForOverlay),
            3 => Some(WorkerStatus::HaveSource),
            4 => Some(WorkerStatus::NeedSource),
            5 => Some(WorkerStatus::ReadyForDep),
            6 => Some(WorkerStatus::HaveDep),
            7 => Some(WorkerStatus::NeedDep),
            8 => Some(WorkerStatus::HaveOverlay),
            9 => Some(WorkerStatus::NeedOverlay),
            10 => Some(WorkerStatus::ReadyForEnvs),
            11 => Some(WorkerStatus::BuildComplete),
            _ => None,
        }
    }
}

} // verus!
