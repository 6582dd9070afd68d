//! The form of a request between nodes.
use vstd::prelude::*;
use crate::raft::raft_enum::Which;

verus! {

/// A request: its kind and its data.
#[derive(Debug, Clone)]
pub struct Msg {
    pub which: Which,
    pub data: String,
}

} // verus!
