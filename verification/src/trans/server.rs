//! Starting a node.
use vstd::prelude::*;
use crate::raft::error::RaftError;
use crate::raft::raft_conf::{ConfigRaft, RaftVar};
use crate::raft::raft_enum::{Role, role_name};

verus! {

/// Sets up the node's state for the configuration: the first node of a
/// cluster leads it from the start and is its own leader; any other node
/// keeps its state.
pub fn init_app(conf: &ConfigRaft, rv: &mut RaftVar) -> (r: Result<(), RaftError>)
    ensures
        r is Ok,
        conf.first_node ==> final(rv).role@ == role_name(Role::leader) && final(rv).leader_url@ == conf.url_me@,
        !conf.first_node ==> *final(rv) == *old(rv),
        final(rv).snap_ids == old(rv).snap_ids,
        final(rv).snap_size == old(rv).snap_size,
{
    if !conf.first_node {
        return Ok(());
    }
    rv.set_role(Role::leader.name());
    rv.set_leader_url(conf.url_me.as_str());
    Ok(())
}

} // verus!
