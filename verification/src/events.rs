//! Events produced by the monitors and consumed by the policy engine.

use vstd::prelude::*;

verus! {

/// What happened to a process.
#[derive(Clone, Copy, PartialEq, Eq, Debug, Structural)]
pub enum ProcessKind {
    Start,
    Stop,
}

/// A process started or stopped.
#[derive(Debug)]
pub struct ProcessEvent {
    pub pid: u32,
    pub name: String,
    pub parent_pid: u32,
    pub kind: ProcessKind,
}

impl Clone for ProcessEvent {
    fn clone(&self) -> (r: Self)
        ensures
            r == *self,
    {
        ProcessEvent {
            pid: self.pid,
            name: self.name.clone(),
            parent_pid: self.parent_pid,
            kind: self.kind,
        }
    }
}

/// A window of this process came to the foreground.
#[derive(Clone, Copy, Debug)]
pub struct ForegroundEvent {
    pub pid: u32,
}

} // verus!
