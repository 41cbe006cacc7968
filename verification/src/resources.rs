//! What a process asks of the machine that it runs on.

use crate::units::{Cpu, Mem};
use vstd::prelude::*;

verus! {

/// Memory and processor requirements of a process.
///
/// They decide where a process can be placed.
#[derive(Copy, Clone, PartialEq, Eq, Debug, Structural)]
pub struct Resources {
    /// Memory requirement.
    pub mem: Mem,
    /// Processor requirement.
    pub cpu: Cpu,
}

/// The requirements that stand until a better guess is known: 100 MiB of memory
/// and one sixteenth of a logical core.
pub open spec fn resources_default() -> Resources {
    Resources { mem: Mem(0x640_0000), cpu: Cpu(0x1000) }
}

impl Default for Resources {
    fn default() -> (r: Resources)
        ensures
            r == resources_default(),
    {
        Resources { mem: Mem(0x640_0000), cpu: Cpu(0x1000) }
    }
}

/// The default is 100 MiB and a sixteenth of a core.
pub proof fn law_default_resources()
    ensures
        resources_default().mem.0 == 100 * Mem::MIB,
        resources_default().cpu.0 * 16 == Cpu::CORE,
{
}

} // verus!
