//! Utilities which don't fit into another file.

use vstd::prelude::*;

verus! {

/// ensures something: callers prove that it holds, so the call never fails
pub fn enforce(v: bool)
    requires
        v,
{
}

} // verus!
