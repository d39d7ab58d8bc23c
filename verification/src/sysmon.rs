//! Unit conversions for the system monitor.  Collecting the measurements is
//! the caller's work.

use vstd::prelude::*;

verus! {

/// Bytes expressed as whole mebibytes, as the memory display reports them.
pub fn bytes_to_mb(bytes: u64) -> (r: u64)
    ensures
        r == bytes / 1024 / 1024,
{
    bytes / 1024 / 1024
}

/// Used and total memory expressed as whole mebibytes.
pub fn memory_mb(used: u64, total: u64) -> (r: (u64, u64))
    ensures
        r.0 == used / 1024 / 1024,
        r.1 == total / 1024 / 1024,
{
    (bytes_to_mb(used), bytes_to_mb(total))
}

} // verus!
