use vstd::prelude::*;

use crate::error::SweepyError;
use crate::utils::workspace_check;

verus! {

/// Checks that a workspace path, given by its bytes, exists and is a
/// directory; `exists` and `is_dir` are what the file system says of `path`.
pub fn validate_workspace_path(path: &[u8], exists: bool, is_dir: bool) -> (r: Result<(), SweepyError>)
    ensures
        match r {
            Ok(()) => workspace_check(path@, exists, is_dir) is None,
            Err(e) => workspace_check(path@, exists, is_dir) == Some(e@),
        },
{
    if !exists {
        return Err(SweepyError::PathDoesNotExist { path: vstd::slice::slice_to_vec(path) });
    }
    if !is_dir {
        return Err(SweepyError::PathNotDirectory { path: vstd::slice::slice_to_vec(path) });
    }
    Ok(())
}

} // verus!
