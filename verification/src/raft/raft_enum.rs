use vstd::prelude::*;

verus! {

/// The role a node plays in the cluster.
#[allow(non_camel_case_types)]
#[derive(Clone, Copy, Debug, PartialEq, Eq, Structural)]
pub enum Role {
    leader,
    candidate,
    follower,
}

/// The kind of a request that one node posts to another.
#[allow(non_camel_case_types)]
#[derive(Clone, Copy, Debug, PartialEq, Eq, Structural)]
pub enum Which {
    ask_leader,
    confirm_leader,
    heart_beat,
    peer_urls,
    peer_vote,
    leader_change,
    snapshot_ids,
    append_entry,
    query_id,
    send_data,
}

/// Names used as store keys and as reply words.
#[allow(non_camel_case_types)]
#[derive(Clone, Copy, Debug, PartialEq, Eq, Structural)]
pub enum Fields {
    snapshots_ids,
    peer_urls,
    success,
    fail,
    none,
}

/// The text of a role, as it is stored and sent.
pub open spec fn role_name(r: Role) -> Seq<char> {
    match r {
        Role::leader => "leader"@,
        Role::candidate => "candidate"@,
        Role::follower => "follower"@,
    }
}

/// The text of a request kind, as it is sent.
pub open spec fn which_name(w: Which) -> Seq<char> {
    match w {
        Which::ask_leader => "ask_leader"@,
        Which::confirm_leader => "confirm_leader"@,
        Which::heart_beat => "heart_beat"@,
        Which::peer_urls => "peer_urls"@,
        Which::peer_vote => "peer_vote"@,
        Which::leader_change => "leader_change"@,
        Which::snapshot_ids => "snapshot_ids"@,
        Which::append_entry => "append_entry"@,
        Which::query_id => "query_id"@,
        Which::send_data => "send_data"@,
    }
}

/// The text of a field name.
pub open spec fn field_name(f: Fields) -> Seq<char> {
    match f {
        Fields::snapshots_ids => "snapshots_ids"@,
        Fields::peer_urls => "peer_urls"@,
        Fields::success => "success"@,
        Fields::fail => "fail"@,
        Fields::none => "none"@,
    }
}

impl Role {
    pub fn name(&self) -> (res: &'static str)
        ensures
            res@ == role_name(*self),
    {
        match self {
            Role::leader => "leader",
            Role::candidate => "candidate",
            Role::follower => "follower",
        }
    }
}

impl Which {
    pub fn name(&self) -> (res: &'static str)
        ensures
            res@ == which_name(*self),
    {
        match self {
            Which::ask_leader => "ask_leader",
            Which::confirm_leader => "confirm_leader",
            Which::heart_beat => "heart_beat",
            Which::peer_urls => "peer_urls",
            Which::peer_vote => "peer_vote",
            Which::leader_change => "leader_change",
            Which::snapshot_ids => "snapshot_ids",
            Which::append_entry => "append_entry",
            Which::query_id => "query_id",
            Which::send_data => "send_data",
        }
    }
}

impl Fields {
    pub fn name(&self) -> (res: &'static str)
        ensures
            res@ == field_name(*self),
    {
        match self {
            Fields::snapshots_ids => "snapshots_ids",
            Fields::peer_urls => "peer_urls",
            Fields::success => "success",
            Fields::fail => "fail",
            Fields::none => "none",
        }
    }
}

} // verus!

verus! {

/// The names of the roles differ from each other, and so do the reply words.
pub proof fn lemma_names_differ()
    ensures
        role_name(Role::leader) != role_name(Role::candidate),
        role_name(Role::leader) != role_name(Role::follower),
        role_name(Role::candidate) != role_name(Role::follower),
        field_name(Fields::success) != field_name(Fields::fail),
        field_name(Fields::success) != field_name(Fields::none),
        field_name(Fields::fail) != field_name(Fields::none),
        field_name(Fields::snapshots_ids) != field_name(Fields::peer_urls),
{
    reveal_strlit("leader");
    reveal_strlit("candidate");
    reveal_strlit("follower");
    reveal_strlit("success");
    reveal_strlit("fail");
    reveal_strlit("none");
    reveal_strlit("snapshots_ids");
    reveal_strlit("peer_urls");
    assert(role_name(Role::leader)[0] != role_name(Role::candidate)[0]);
    assert(role_name(Role::leader)[0] != role_name(Role::follower)[0]);
    assert(role_name(Role::candidate)[0] != role_name(Role::follower)[0]);
    assert(field_name(Fields::success)[0] != field_name(Fields::fail)[0]);
    assert(field_name(Fields::success)[0] != field_name(Fields::none)[0]);
    assert(field_name(Fields::fail)[0] != field_name(Fields::none)[0]);
    assert(field_name(Fields::snapshots_ids)[0] != field_name(Fields::peer_urls)[0]);
}

} // verus!
