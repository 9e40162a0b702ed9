//! The busy-core set handed in by the usage oracle, a `nix` CPU affinity set.
//!
//! The set is opaque here: its membership is named by [`cpu_set_members`] and
//! read through one trusted call into `nix`.

use nix::sched::CpuSet;
use vstd::prelude::*;

verus! {

#[verifier::external_type_specification]
#[verifier::external_body]
pub struct ExCpuSet(CpuSet);

/// Core ids a `CpuSet` can hold are below this bound: `nix::sched::CpuSet`
/// wraps `libc::cpu_set_t`, 128 bytes on Linux, one bit per core.
pub const CPU_SET_CAPACITY: usize = 1024;

/// The core ids a busy-core set holds.
pub uninterp spec fn cpu_set_members(s: CpuSet) -> Set<usize>;

/// Relies on nix::sched::CpuSet::is_set: it returns Ok(membership of `core`)
/// whenever `core` is below the set's capacity, 8 * size_of(cpu_set_t) = 1024.
#[verifier::external_body]
pub(crate) fn cpu_set_contains(set: &CpuSet, core: usize) -> (r: bool)
    requires
        core < CPU_SET_CAPACITY,
    ensures
        r == cpu_set_members(*set).contains(core),
{
    set.is_set(core).unwrap()
}

} // verus!
