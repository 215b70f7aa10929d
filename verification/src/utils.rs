//! Host resources, the batch size that follows from them, and the switch
//! that silences the log.

use crate::text::chars_of;
use sysinfo::{System, SystemExt};
use vstd::prelude::*;

verus! {

/// Bytes in one GiB.
pub const GIB: u64 = 1024 * 1024 * 1024;

/// The batch size that the policy assigns to a host with `total_memory` bytes
/// of physical memory: 1 below 4 GiB, 4 below 8 GiB, 8 below 16 GiB, else 16.
pub open spec fn batch_size_of(total_memory: u64) -> usize {
    if total_memory < 4 * GIB {
        1
    } else if total_memory < 8 * GIB {
        4
    } else if total_memory < 16 * GIB {
        8
    } else {
        16
    }
}

/// Whether `n` is one of the four batch sizes of the policy.
pub open spec fn is_batch_size(n: usize) -> bool {
    n == 1 || n == 4 || n == 8 || n == 16
}

/// Picks the batch size for a host with `total_memory` bytes of memory.
pub fn batch_size_for_memory(total_memory: u64) -> (batch_size: usize)
    ensures
        batch_size == batch_size_of(total_memory),
        is_batch_size(batch_size),
{
    if total_memory < 4 * GIB {
        1
    } else if total_memory < 8 * GIB {
        4
    } else if total_memory < 16 * GIB {
        8
    } else {
        16
    }
}

/// The batch size never shrinks when memory grows.
pub proof fn lemma_batch_size_monotonic(a: u64, b: u64)
    requires
        a <= b,
    ensures
        batch_size_of(a) <= batch_size_of(b),
{
}

/// `sysinfo::System`: a handle on the host's figures, carried as it is.
#[verifier::external_type_specification]
#[verifier::external_body]
pub struct ExSystem(sysinfo::System);

/// `System::new_all` of sysinfo: a view of the host with everything loaded.
/// Nothing is claimed of what it holds.
#[verifier::external_body]
fn new_system() -> System {
    System::new_all()
}

/// `SystemExt::refresh_all` of sysinfo: reads the host's figures again.
/// Nothing is claimed of what the system holds afterwards.
#[verifier::external_body]
fn refresh_system(system: &mut System) {
    system.refresh_all();
}

/// `SystemExt::total_memory` of sysinfo: the size of the RAM in bytes, as the
/// host reports it. Nothing is claimed of the number.
#[verifier::external_body]
fn system_total_memory(system: &System) -> u64 {
    system.total_memory()
}

/// `SystemExt::physical_core_count` of sysinfo: the number of physical cores,
/// or `None` where the host does not tell. Nothing is claimed of the number.
#[verifier::external_body]
fn system_physical_core_count(system: &System) -> Option<usize> {
    system.physical_core_count()
}

/// What was found out about the host, and the batch size chosen for it.
pub struct SystemResources {
    /// Physical memory in bytes.
    pub total_memory: u64,
    /// Physical cores; 1 where the host does not tell.
    pub cpu_count: usize,
    /// Items handed to the model in one call.
    pub batch_size: usize,
}

impl SystemResources {
    /// The batch size is the one that the policy gives for the memory.
    pub open spec fn wf(&self) -> bool {
        self.batch_size == batch_size_of(self.total_memory)
    }

    /// The resources of a host with the given memory and cores.
    pub fn new(total_memory: u64, physical_cores: Option<usize>) -> (resources: Self)
        ensures
            resources.wf(),
            resources.total_memory == total_memory,
            resources.cpu_count == match physical_cores {
                Some(n) => n,
                None => 1,
            },
    {
        let cpu_count = match physical_cores {
            Some(n) => n,
            None => 1,
        };
        SystemResources { total_memory, cpu_count, batch_size: batch_size_for_memory(total_memory) }
    }

    /// Asks the host for its memory and cores. Whatever the host answers, the
    /// batch size is the one of the policy for the memory it reported.
    pub fn detect() -> (resources: Self)
        ensures
            resources.wf(),
    {
        let mut system = new_system();
        refresh_system(&mut system);
        let total_memory = system_total_memory(&system);
        let physical_cores = system_physical_core_count(&system);
        SystemResources::new(total_memory, physical_cores)
    }

    /// The memory in whole GiB, rounded down.
    pub fn memory_gib(&self) -> (gib: u64)
        ensures
            gib == self.total_memory / GIB,
    {
        self.total_memory / GIB
    }
}

/// Looks at the host's memory and returns the batch size for it: one of 1, 4,
/// 8 and 16.
pub fn detect_system_resources() -> (batch_size: usize)
    ensures
        is_batch_size(batch_size),
{
    SystemResources::detect().batch_size
}

/// Whether the value `flag` of the quiet switch silences the log: only the
/// text `1` does.
pub open spec fn is_quiet(flag: Seq<char>) -> bool {
    flag == seq!['1']
}

/// Decides what goes to the log: `message`, unless the quiet switch is set.
pub fn log(message: &str, quiet_flag: &str) -> (line: Option<String>)
    ensures
        match line {
            None => is_quiet(quiet_flag@),
            Some(text) => !is_quiet(quiet_flag@) && text@ == message@,
        },
{
    let flag = chars_of(quiet_flag);
    if flag.len() == 1 && flag[0] == '1' {
        assert(flag@ =~= seq!['1']);
        None
    } else {
        Some(message.to_owned())
    }
}

} // verus!
