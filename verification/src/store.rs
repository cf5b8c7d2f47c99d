//! What a node's state machine holds.

use vstd::prelude::*;

use crate::strmap::StringMap;
use crate::typ::LogId;

verus! {

/// The contents of a state machine and the last entry applied to it.
#[derive(Debug, Clone)]
pub struct StateMachineData {
    pub last_applied: Option<LogId>,
    pub data: StringMap<String>,
}

impl Default for StateMachineData {
    fn default() -> (data: Self)
        ensures
            data.last_applied is None,
            data.data@ == Map::<Seq<char>, String>::empty(),
    {
        StateMachineData { last_applied: None, data: StringMap::new() }
    }
}

} // verus!
