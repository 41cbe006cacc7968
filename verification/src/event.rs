//! What processes report and what they are told.

use crate::exit::ExitStatus;
use crate::pid::Pid;
use vstd::prelude::*;

verus! {

/// What the machine that runs processes reports of them.
#[derive(Clone, Debug)]
pub enum FabricOutputEvent {
    Init { pid: Pid, system_pid: u64 },
    Exit { pid: Pid, system_pid: u64 },
}

/// What is reported of the processes of a program. Output that is empty ends
/// the output on its descriptor.
#[derive(Clone, Debug)]
pub enum DeployOutputEvent {
    Spawn(Pid, Pid),
    Output(Pid, i32, Vec<u8>),
    Exit(Pid, ExitStatus),
}

/// What the processes of a program are told. A request to kill that names no
/// process is for all of them.
#[derive(Clone, Debug)]
pub enum DeployInputEvent {
    Input(Pid, i32, Vec<u8>),
    Kill(Option<Pid>),
}

/// What one process reports.
#[derive(Clone, Debug)]
pub enum ProcessOutputEvent {
    Spawn(Pid),
    Output(i32, Vec<u8>),
    Exit(ExitStatus),
}

/// What one process is told.
#[derive(Clone, Debug)]
pub enum ProcessInputEvent {
    Input(i32, Vec<u8>),
    Kill,
}

impl ProcessOutputEvent {
    /// The same report, made of process `pid`.
    pub open spec fn of(self, pid: Pid) -> DeployOutputEvent {
        match self {
            ProcessOutputEvent::Spawn(new_pid) => DeployOutputEvent::Spawn(pid, new_pid),
            ProcessOutputEvent::Output(fd, output) => DeployOutputEvent::Output(pid, fd, output),
            ProcessOutputEvent::Exit(status) => DeployOutputEvent::Exit(pid, status),
        }
    }

    /// The same report, made of process `pid`.
    pub fn into_deploy(self, pid: Pid) -> (r: DeployOutputEvent)
        ensures
            r == self.of(pid),
    {
        match self {
            ProcessOutputEvent::Spawn(new_pid) => DeployOutputEvent::Spawn(pid, new_pid),
            ProcessOutputEvent::Output(fd, output) => DeployOutputEvent::Output(pid, fd, output),
            ProcessOutputEvent::Exit(status) => DeployOutputEvent::Exit(pid, status),
        }
    }
}

/// Whoever reports something, the report says so, and says the same.
pub proof fn law_reports_name_their_process(event: ProcessOutputEvent, pid: Pid)
    ensures
        match event.of(pid) {
            DeployOutputEvent::Spawn(by, new_pid) => by == pid && event
                == ProcessOutputEvent::Spawn(new_pid),
            DeployOutputEvent::Output(by, fd, bytes) => by == pid && event
                == ProcessOutputEvent::Output(fd, bytes),
            DeployOutputEvent::Exit(by, status) => by == pid && event
                == ProcessOutputEvent::Exit(status),
        },
{
}

} // verus!
