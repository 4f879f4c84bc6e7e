use vstd::prelude::*;

use crate::utils::mib_of;

verus! {

/// Whole mebibytes in `bytes`, rounded down.
pub fn bytes_to_mb(bytes: u64) -> (mb: u64)
    ensures
        mb == mib_of(bytes as int),
{
    bytes / 1024 / 1024
}

} // verus!
