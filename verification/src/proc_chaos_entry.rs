//! Ops of the chaos environment.

use vstd::prelude::*;

verus! {

/// op that does nothing, for the chaos environment
pub struct OpNop {
    /// name of this op
    pub selfName: String,
}

impl OpNop {
    /// the name of the op
    pub fn retName(&self) -> (res: String)
        ensures
            res@ == self.selfName@,
    {
        self.selfName.clone()
    }

    /// can the op be called with motor babbling?
    pub fn isBabbleable(&self) -> (res: bool)
        ensures
            res,
    {
        true
    }
}

} // verus!
