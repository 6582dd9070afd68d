//! The node's configuration and its mutable raft state.
use vstd::prelude::*;
use std::collections::VecDeque;
use vstd::std_specs::vecdeque::VecDequeAdditionalSpecFns;
use super::raft_enum::{Role, role_name};

verus! {

/// The settings of a node: the ticks of its loop, in seconds, how many
/// entry ids its snapshot keeps, and its urls and TLS files.
#[derive(Debug, Clone)]
pub struct ConfigRaft {
    pub election_tick: i64,
    pub heartbeat_tick: i64,
    pub update_peers_tick: i64,
    pub update_snapshot_tick: i64,
    pub clear_db_tick: i64,
    pub snapshot_numbers: i64,
    pub first_node: bool,
    pub url_me: String,
    pub url_peer: String,
    pub tls_cert: String,
    pub tls_key: String,
}

impl ConfigRaft {
    pub fn default() -> (c: ConfigRaft)
        ensures
            c.heartbeat_tick == 1,
            c.election_tick == 10,
            c.update_peers_tick == 10,
            c.update_snapshot_tick == 10,
            c.clear_db_tick == 1000,
            c.snapshot_numbers == 1000,
            c.first_node,
            c.url_me@ == "127.0.0.1:8442"@,
            c.url_peer@ == "127.0.0.1:8442"@,
            c.tls_cert@ == "./data/tls/cert.pem"@,
            c.tls_key@ == "./data/tls/key.pem"@,
    {
        ConfigRaft {
            heartbeat_tick: 1,
            election_tick: 10,
            update_peers_tick: 10,
            update_snapshot_tick: 10,
            clear_db_tick: 1000,
            snapshot_numbers: 1000,
            first_node: true,
            url_me: "127.0.0.1:8442".to_owned(),
            url_peer: "127.0.0.1:8442".to_owned(),
            tls_cert: "./data/tls/cert.pem".to_owned(),
            tls_key: "./data/tls/key.pem".to_owned(),
        }
    }
}

/// The snapshot after the id was put in front: newest first, cut to the
/// given size.
pub open spec fn after_add(ids: Seq<Seq<char>>, id: Seq<char>, size: nat) -> Seq<Seq<char>> {
    let s = seq![id] + ids;
    if s.len() <= size {
        s
    } else {
        s.take(size as int)
    }
}

/// The snapshot after each id of the list was added in turn.
pub open spec fn add_all(ids0: Seq<Seq<char>>, ids: Seq<Seq<char>>, size: nat) -> Seq<Seq<char>>
    decreases ids.len(),
{
    if ids.len() == 0 {
        ids0
    } else {
        after_add(add_all(ids0, ids.drop_last(), size), ids.last(), size)
    }
}

/// The list cut to the given size.
pub open spec fn cut(ids: Seq<Seq<char>>, size: nat) -> Seq<Seq<char>> {
    if ids.len() <= size {
        ids
    } else {
        ids.take(size as int)
    }
}

/// The mutable state of a node: its role, the url of the leader it follows,
/// and the ids of the latest entries, newest first, no more than
/// `snap_size` of them.
#[derive(Debug, Clone)]
pub struct RaftVar {
    pub role: String,
    pub leader_url: String,
    pub snap_ids: VecDeque<String>,
    pub snap_size: usize,
}

impl RaftVar {
    /// The snapshot holds no more ids than its size.
    pub open spec fn wf(&self) -> bool {
        self.snap_ids@.len() <= self.snap_size
    }

    /// A follower that knows no leader and holds no ids yet.
    pub fn default(conf: &ConfigRaft) -> (r: RaftVar)
        requires
            0 <= conf.snapshot_numbers <= usize::MAX,
        ensures
            r.wf(),
            r.role@ == role_name(Role::follower),
            r.leader_url@ == Seq::<char>::empty(),
            r.snap_ids@.len() == 0,
            r.snap_size == conf.snapshot_numbers,
    {
        let size = conf.snapshot_numbers as usize;
        let buf: VecDeque<String> = VecDeque::with_capacity(size);
        RaftVar {
            role: Role::follower.name().to_owned(),
            leader_url: String::new(),
            snap_ids: buf,
            snap_size: size,
        }
    }

    /// Whether the node's role is the given one.
    pub fn has_role(&self, role: Role) -> (r: bool)
        ensures
            r == (self.role@ == role_name(role)),
    {
        crate::wrappers::str_eq(self.role.as_str(), role.name())
    }

    pub fn role(&self) -> (r: String)
        ensures
            r@ == self.role@,
    {
        self.role.clone()
    }

    pub fn snap_ids(&self) -> (r: VecDeque<String>)
        ensures
            r@ == self.snap_ids@,
            r.deep_view() == self.snap_ids.deep_view(),
    {
        let r = self.snap_ids.clone();
        proof {
            assert forall|i: int| 0 <= i < r@.len() implies r@[i] == self.snap_ids@[i] by {
                assert(cloned::<String>(self.snap_ids[i], r[i]));
            }
            assert(r@ =~= self.snap_ids@);
        }
        r
    }

    pub fn leader_url(&self) -> (r: String)
        ensures
            r@ == self.leader_url@,
    {
        self.leader_url.clone()
    }

    pub fn set_role(&mut self, role: &str)
        ensures
            final(self).role@ == role@,
            final(self).leader_url == old(self).leader_url,
            final(self).snap_ids == old(self).snap_ids,
            final(self).snap_size == old(self).snap_size,
    {
        self.role = role.to_owned();
    }

    /// Puts the id in front of the snapshot and drops the oldest ids beyond
    /// its size.
    pub fn add_snap_ids(&mut self, id: &str)
        ensures
            final(self).wf(),
            final(self).snap_ids.deep_view() == after_add(old(self).snap_ids.deep_view(), id@, old(self).snap_size as nat),
            final(self).snap_size == old(self).snap_size,
            final(self).role == old(self).role,
            final(self).leader_url == old(self).leader_url,
    {
        let size = self.snap_size;
        let ghost before = self.snap_ids.deep_view();
        self.snap_ids.push_front(id.to_owned());
        proof {
            assert(self.snap_ids.deep_view() =~= seq![id@] + before);
        }
        let ghost mid = self.snap_ids@;
        self.snap_ids.truncate(size);
        proof {
            if size <= mid.len() {
                assert(self.snap_ids.deep_view() =~= (seq![id@] + before).take(size as int));
            } else {
                assert(self.snap_ids.deep_view() =~= seq![id@] + before);
            }
        }
    }

    /// Takes the given ids as the snapshot, cut to its size.
    pub fn replace_snap_ids(&mut self, ids: VecDeque<String>)
        ensures
            final(self).wf(),
            final(self).snap_ids.deep_view() == cut(ids.deep_view(), old(self).snap_size as nat),
            final(self).snap_size == old(self).snap_size,
            final(self).role == old(self).role,
            final(self).leader_url == old(self).leader_url,
    {
        let mut ids = ids;
        let ghost before = ids.deep_view();
        let size = self.snap_size;
        ids.truncate(size);
        proof {
            if size <= before.len() {
                assert(ids.deep_view() =~= before.take(size as int));
            } else {
                assert(ids.deep_view() =~= before);
            }
        }
        self.snap_ids = ids;
    }

    pub fn set_leader_url(&mut self, url: &str)
        ensures
            final(self).leader_url@ == url@,
            final(self).role == old(self).role,
            final(self).snap_ids == old(self).snap_ids,
            final(self).snap_size == old(self).snap_size,
    {
        self.leader_url = url.to_owned();
    }
}

/// The snapshot keeps the latest ids: adding ids one by one to an empty
/// snapshot of size `size` leaves the last `size` of them (all of them,
/// where fewer were added), newest first.
pub proof fn lemma_snapshot_keeps_latest(ids: Seq<Seq<char>>, size: nat)
    ensures
        add_all(Seq::empty(), ids, size) == cut(ids.reverse(), size),
    decreases ids.len(),
{
    if ids.len() == 0 {
        assert(ids.reverse() =~= Seq::<Seq<char>>::empty());
    } else {
        let rest = ids.drop_last();
        lemma_snapshot_keeps_latest(rest, size);
        assert(ids.reverse() =~= seq![ids.last()] + rest.reverse());
        let prev = cut(rest.reverse(), size);
        let s = seq![ids.last()] + prev;
        if rest.len() <= size {
            assert(prev == rest.reverse());
        } else {
            assert(s.take(size as int) =~= (seq![ids.last()] + rest.reverse()).take(size as int));
        }
    }
}

/// A snapshot never grows beyond its size, whatever ids are added.
pub proof fn lemma_snapshot_bounded(ids0: Seq<Seq<char>>, ids: Seq<Seq<char>>, size: nat)
    requires
        ids0.len() <= size,
    ensures
        add_all(ids0, ids, size).len() <= size,
    decreases ids.len(),
{
    if ids.len() > 0 {
        lemma_snapshot_bounded(ids0, ids.drop_last(), size);
    }
}

} // verus!
