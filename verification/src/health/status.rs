//! The figures the backend's status endpoint reports, taken from the
//! latest sample.

use vstd::prelude::*;
use crate::health::metrics::{sat_sub, FsUsage, MemInfo};

verus! {

/// Memory as reported: the sample's figures and the used amount.
#[derive(Clone, Copy, Debug)]
pub struct MemStatus {
    pub total: u64,
    pub used: u64,
    pub available: u64,
    pub cache: u64,
    pub buffers: u64,
    pub free: u64,
    pub swap_total: u64,
    pub swap_used: u64,
}

impl Default for MemStatus {
    /// All zero: what is reported before the first sample.
    fn default() -> (m: Self)
        ensures
            m.total == 0 && m.used == 0 && m.available == 0 && m.cache == 0,
            m.buffers == 0 && m.free == 0 && m.swap_total == 0 && m.swap_used == 0,
    {
        MemStatus { total: 0, used: 0, available: 0, cache: 0, buffers: 0, free: 0, swap_total: 0, swap_used: 0 }
    }
}

impl MemStatus {
    /// The memory status of a sample.
    pub fn of(m: &MemInfo) -> (s: MemStatus)
        ensures
            s.total == m.total,
            s.used == sat_sub(m.total, m.available),
            s.available == m.available,
            s.cache == m.cache,
            s.buffers == m.buffers,
            s.free == m.free,
            s.swap_total == m.swap_total,
            s.swap_used == m.swap_used,
    {
        MemStatus {
            total: m.total,
            used: m.used(),
            available: m.available,
            cache: m.cache,
            buffers: m.buffers,
            free: m.free,
            swap_total: m.swap_total,
            swap_used: m.swap_used,
        }
    }
}

/// One file system as reported.
#[derive(Clone, Debug)]
pub struct FsStatus {
    pub device: String,
    pub mount: String,
    pub fstype: String,
    pub total: u64,
    pub used: u64,
    pub avail: u64,
}

impl FsStatus {
    /// The status of a file system's usage.
    pub fn of(f: &FsUsage) -> (s: FsStatus)
        ensures
            s.device@ == f.device@,
            s.mount@ == f.mount@,
            s.fstype@ == f.fstype@,
            s.total == f.total,
            s.used == f.used,
            s.avail == f.avail,
    {
        FsStatus {
            device: f.device.clone(),
            mount: f.mount.clone(),
            fstype: f.fstype.clone(),
            total: f.total,
            used: f.used,
            avail: f.avail,
        }
    }
}

/// The statuses of the file systems, in order.
pub fn fs_statuses(fs: &Vec<FsUsage>) -> (r: Vec<FsStatus>)
    ensures
        r@.len() == fs@.len(),
        forall|i: int|
            0 <= i < r@.len() ==> {
                let (s, f) = (#[trigger] r@[i], fs@[i]);
                &&& s.device@ == f.device@ && s.mount@ == f.mount@ && s.fstype@ == f.fstype@
                &&& s.total == f.total && s.used == f.used && s.avail == f.avail
            },
{
    let mut out: Vec<FsStatus> = Vec::new();
    let mut i: usize = 0;
    while i < fs.len()
        invariant
            i <= fs@.len(),
            out@.len() == i,
            forall|j: int|
                0 <= j < i ==> {
                    let (s, f) = (#[trigger] out@[j], fs@[j]);
                    &&& s.device@ == f.device@ && s.mount@ == f.mount@ && s.fstype@ == f.fstype@
                    &&& s.total == f.total && s.used == f.used && s.avail == f.avail
                },
        decreases fs.len() - i,
    {
        out.push(FsStatus::of(&fs[i]));
        i = i + 1;
    }
    out
}

} // verus!
