//! The decisions of the node's periodic loop. The loop itself, which sleeps,
//! reads the clock and talks to the peers, runs outside this library and
//! asks these functions what to do.
use vstd::prelude::*;
use vstd::utf8::{valid_utf8, decode_utf8};
use std::collections::VecDeque;
use crate::wrappers::{db_contents, db_keys, str_eq, string_from_utf8, utf8_error_text, sled_error_text};
use super::db::{enc, remove};
use super::error::RaftError;
use super::raft_conf::{ConfigRaft, RaftVar};
use super::raft_enum::{Fields, Role, role_name};
use super::resp::peers_key;

verus! {

broadcast use vstd::utf8::encode_utf8_decode_utf8, vstd::utf8::encode_utf8_valid_utf8;

/// When, in seconds, the loop last heard the leader (or stood for
/// election), last fetched the peer urls, last fetched the entry ids, and
/// last cleared the store. Each deadline runs on its own.
#[derive(Debug, Clone, Copy, PartialEq, Eq)]
pub struct LoopClock {
    pub last_heart_beat: i64,
    pub last_peer_urls: i64,
    pub last_snapshot_ids: i64,
    pub last_clear: i64,
}

/// Whether more than `tick` seconds passed from `last` to `now`.
pub open spec fn due(now: i64, last: i64, tick: i64) -> bool {
    now - last > tick
}

fn passed(now: i64, last: i64, tick: i64) -> (r: bool)
    ensures
        r == due(now, last, tick),
{
    (now as i128) - (last as i128) > (tick as i128)
}

impl LoopClock {
    /// All deadlines start at `now`.
    pub fn new(now: i64) -> (c: LoopClock)
        ensures
            c.last_heart_beat == now,
            c.last_peer_urls == now,
            c.last_snapshot_ids == now,
            c.last_clear == now,
    {
        LoopClock { last_heart_beat: now, last_peer_urls: now, last_snapshot_ids: now, last_clear: now }
    }
}

/// What a follower does in one round of the loop.
#[derive(Debug, Clone, Copy, PartialEq, Eq)]
pub struct FollowerPlan {
    /// Stand for election: the leader did not answer and the election tick
    /// passed since it last did.
    pub become_candidate: bool,
    /// Ask the leader for the peer urls: the peers tick passed since the
    /// last fetch.
    pub ask_peer_urls: bool,
    /// Ask the leader for the entry ids: the snapshot tick passed since the
    /// last fetch.
    pub ask_snapshot_ids: bool,
}

/// The role whose branch of the loop runs for the node's role text, if any.
pub fn round_role(rv: &RaftVar) -> (r: Option<Role>)
    ensures
        r matches Some(role) ==> rv.role@ == role_name(role),
        r is None ==> (forall|role: Role| rv.role@ != role_name(role)),
{
    if rv.has_role(Role::follower) {
        Some(Role::follower)
    } else if rv.has_role(Role::candidate) {
        Some(Role::candidate)
    } else if rv.has_role(Role::leader) {
        Some(Role::leader)
    } else {
        proof {
            assert forall|role: Role| rv.role@ != role_name(role) by {
                match role {
                    Role::leader => {},
                    Role::candidate => {},
                    Role::follower => {},
                }
            }
        }
        None
    }
}

/// One round of a follower at time `now`, given whether the leader answered
/// the heart beat. A heart beat restarts only the election deadline; the
/// peer urls and the entry ids are fetched whenever their own tick passed
/// since their last fetch, whether the leader answers or not. A follower
/// that stands for election becomes a candidate here.
pub fn follower_round(
    rv: &mut RaftVar,
    clock: &mut LoopClock,
    conf: &ConfigRaft,
    heart_beat_ok: bool,
    now: i64,
) -> (p: FollowerPlan)
    ensures
        p.become_candidate == (!heart_beat_ok && due(now, old(clock).last_heart_beat, conf.election_tick)),
        p.ask_peer_urls == due(now, old(clock).last_peer_urls, conf.update_peers_tick),
        p.ask_snapshot_ids == due(now, old(clock).last_snapshot_ids, conf.update_snapshot_tick),
        final(clock).last_heart_beat == if heart_beat_ok || p.become_candidate {
            now
        } else {
            old(clock).last_heart_beat
        },
        final(clock).last_peer_urls == if p.ask_peer_urls {
            now
        } else {
            old(clock).last_peer_urls
        },
        final(clock).last_snapshot_ids == if p.ask_snapshot_ids {
            now
        } else {
            old(clock).last_snapshot_ids
        },
        final(clock).last_clear == old(clock).last_clear,
        conf.update_snapshot_tick >= 0 ==> now - final(clock).last_snapshot_ids <= conf.update_snapshot_tick,
        conf.update_peers_tick >= 0 ==> now - final(clock).last_peer_urls <= conf.update_peers_tick,
        p.become_candidate ==> final(rv).role@ == role_name(Role::candidate),
        !p.become_candidate ==> final(rv).role == old(rv).role,
        final(rv).leader_url == old(rv).leader_url,
        final(rv).snap_ids == old(rv).snap_ids,
        final(rv).snap_size == old(rv).snap_size,
{
    let mut become_candidate = false;
    if heart_beat_ok {
        clock.last_heart_beat = now;
    } else if passed(now, clock.last_heart_beat, conf.election_tick) {
        rv.set_role(Role::candidate.name());
        become_candidate = true;
        clock.last_heart_beat = now;
    }
    let ask_peer_urls = passed(now, clock.last_peer_urls, conf.update_peers_tick);
    if ask_peer_urls {
        clock.last_peer_urls = now;
    }
    let ask_snapshot_ids = passed(now, clock.last_snapshot_ids, conf.update_snapshot_tick);
    if ask_snapshot_ids {
        clock.last_snapshot_ids = now;
    }
    FollowerPlan { become_candidate, ask_peer_urls, ask_snapshot_ids }
}

/// One round of the leader at time `now`: whether it clears the store. The
/// leader clears once per clear tick: whenever the tick passed since its
/// last clear (or since the clock started), and then not again until the
/// tick passes once more.
pub fn leader_round(clock: &mut LoopClock, conf: &ConfigRaft, now: i64) -> (r: bool)
    ensures
        r == due(now, old(clock).last_clear, conf.clear_db_tick),
        final(clock).last_clear == if r {
            now
        } else {
            old(clock).last_clear
        },
        final(clock).last_heart_beat == old(clock).last_heart_beat,
        final(clock).last_peer_urls == old(clock).last_peer_urls,
        final(clock).last_snapshot_ids == old(clock).last_snapshot_ids,
{
    let r = passed(now, clock.last_clear, conf.clear_db_tick);
    if r {
        clock.last_clear = now;
    }
    r
}

/// What a candidate does after counting its vote.
#[derive(Debug, Clone, Copy, PartialEq, Eq)]
pub enum CandidateNext {
    /// It won: tell the peers that it leads.
    ChangeLeader,
    /// It lost: look among the peers for a leader.
    FindLeaderAgain,
}

/// A candidate's step after its vote: the winner becomes the leader, with
/// its own url as the leader's, and tells its peers; the loser searches for
/// a leader and keeps its state until it finds one.
pub fn candidate_round(rv: &mut RaftVar, conf: &ConfigRaft, won: bool) -> (r: CandidateNext)
    ensures
        won ==> {
            &&& r == CandidateNext::ChangeLeader
            &&& final(rv).role@ == role_name(Role::leader)
            &&& final(rv).leader_url@ == conf.url_me@
            &&& final(rv).snap_ids == old(rv).snap_ids
            &&& final(rv).snap_size == old(rv).snap_size
        },
        !won ==> r == CandidateNext::FindLeaderAgain && *final(rv) == *old(rv),
{
    if won {
        rv.set_role(Role::leader.name());
        rv.set_leader_url(conf.url_me.as_str());
        CandidateNext::ChangeLeader
    } else {
        CandidateNext::FindLeaderAgain
    }
}

/// One step of the search for a leader, after asking a peer for its leader
/// and that leader whether it leads: where it confirmed, the node becomes
/// its follower and the search stops.
pub fn leader_search_step(rv: &mut RaftVar, confirmed: bool) -> (stop: bool)
    ensures
        stop == confirmed,
        confirmed ==> final(rv).role@ == role_name(Role::follower),
        confirmed ==> final(rv).leader_url == old(rv).leader_url && final(rv).snap_ids == old(rv).snap_ids
            && final(rv).snap_size == old(rv).snap_size,
        !confirmed ==> *final(rv) == *old(rv),
{
    if confirmed {
        rv.set_role(Role::follower.name());
    }
    confirmed
}

/// Whether a key stays in the store when it is cleared: it is the id of a
/// kept entry, or the peer set.
pub open spec fn keeps_key(k: Seq<char>, ids: Seq<Seq<char>>) -> bool {
    ids.contains(k) || k == peers_key()
}

/// The keys, as text, that clearing removes, in the order of the listing.
pub open spec fn stale_of(keys: Seq<Seq<u8>>, ids: Seq<Seq<char>>) -> Seq<Seq<char>>
    decreases keys.len(),
{
    if keys.len() == 0 {
        Seq::empty()
    } else {
        let prev = stale_of(keys.drop_last(), ids);
        if keeps_key(decode_utf8(keys.last()), ids) {
            prev
        } else {
            prev.push(decode_utf8(keys.last()))
        }
    }
}

fn deque_contains(ids: &VecDeque<String>, s: &str) -> (r: bool)
    ensures
        r == ids.deep_view().contains(s@),
{
    let mut i: usize = 0;
    while i < ids.len()
        invariant
            i <= ids.deep_view().len(),
            forall|j: int| 0 <= j < i ==> ids.deep_view()[j] != s@,
        decreases ids.deep_view().len() - i,
    {
        if str_eq(ids[i].as_str(), s) {
            assert(ids.deep_view()[i as int] == s@);
            return true;
        }
        i = i + 1;
    }
    proof {
        if ids.deep_view().contains(s@) {
            let j = choose|j: int| 0 <= j < ids.deep_view().len() && ids.deep_view()[j] == s@;
            assert(ids.deep_view()[j] != s@);
        }
    }
    false
}

/// The keys that clearing removes, read from a listing of the store: those
/// that are valid UTF-8 and neither a kept id nor the peer set. The scan
/// stops at the first key that is not valid UTF-8 and reports it; the keys
/// before it are still listed.
pub fn stale_keys(keys: &Vec<Vec<u8>>, ids: &VecDeque<String>) -> (r: (Vec<String>, Option<RaftError>))
    ensures
        r.1 is None ==> {
            &&& forall|i: int| 0 <= i < keys.deep_view().len() ==> valid_utf8(#[trigger] keys.deep_view()[i])
            &&& r.0.deep_view() == stale_of(keys.deep_view(), ids.deep_view())
        },
        r.1 matches Some(e) ==> {
            &&& e is Utf8
            &&& exists|p: int|
                {
                    &&& 0 <= p < keys.deep_view().len()
                    &&& !valid_utf8(#[trigger] keys.deep_view()[p])
                    &&& forall|i: int| 0 <= i < p ==> valid_utf8(#[trigger] keys.deep_view()[i])
                    &&& r.0.deep_view() == stale_of(keys.deep_view().take(p), ids.deep_view())
                }
        },
{
    let ghost ks = keys.deep_view();
    let mut out: Vec<String> = Vec::new();
    let mut i: usize = 0;
    proof {
        assert(ks.take(0) =~= Seq::<Seq<u8>>::empty());
        assert(out.deep_view() =~= Seq::<Seq<char>>::empty());
    }
    while i < keys.len()
        invariant
            i <= keys.len(),
            ks == keys.deep_view(),
            forall|j: int| 0 <= j < i ==> valid_utf8(#[trigger] ks[j]),
            out.deep_view() == stale_of(ks.take(i as int), ids.deep_view()),
        decreases keys.len() - i,
    {
        match string_from_utf8(keys[i].clone()) {
            Err(e) => {
                let err = RaftError::Utf8(utf8_error_text(&e));
                proof {
                    assert(keys[i as int]@ == ks[i as int]);
                }
                return (out, Some(err));
            },
            Ok(k) => {
                proof {
                    assert(keys[i as int]@ == ks[i as int]);
                    assert(ks.take(i + 1).drop_last() =~= ks.take(i as int));
                    assert(ks.take(i + 1).last() == ks[i as int]);
                }
                let ghost before = out.deep_view();
                if !deque_contains(ids, k.as_str()) && !str_eq(k.as_str(), Fields::peer_urls.name()) {
                    out.push(k);
                    proof {
                        assert(out.deep_view() =~= before.push(decode_utf8(ks[i as int])));
                    }
                }
            },
        }
        i = i + 1;
    }
    proof {
        assert(ks.take(i as int) =~= ks);
    }
    (out, None)
}

/// Nothing that clearing removes is a kept id or the peer set.
proof fn lemma_stale_not_kept(keys: Seq<Seq<u8>>, ids: Seq<Seq<char>>, x: Seq<char>)
    requires
        stale_of(keys, ids).contains(x),
    ensures
        !keeps_key(x, ids),
    decreases keys.len(),
{
    if keys.len() > 0 {
        let prev = stale_of(keys.drop_last(), ids);
        if prev.contains(x) {
            lemma_stale_not_kept(keys.drop_last(), ids, x);
        } else {
            let i = choose|i: int| 0 <= i < stale_of(keys, ids).len() && stale_of(keys, ids)[i] == x;
            assert(i == prev.len());
        }
    }
}

/// The store after removals of some of the named keys: no key is added or
/// changed, and every key that is not among the names stays with its value.
pub open spec fn cleared_within(
    before: Map<Seq<u8>, Seq<u8>>,
    after: Map<Seq<u8>, Seq<u8>>,
    names: Seq<Seq<char>>,
) -> bool {
    &&& forall|k: Seq<u8>| #[trigger] after.contains_key(k) ==> before.contains_key(k) && after[k] == before[k]
    &&& forall|k: Seq<u8>|
        #[trigger] before.contains_key(k) && !(exists|j: int| 0 <= j < names.len() && enc(names[j]) == k)
            ==> after.contains_key(k) && after[k] == before[k]
}

/// Removes from the store every key that `stale_keys` lists, ignoring a
/// removal that fails. Fails where the store cannot be listed, leaving it as
/// it was, and after the removals where a key is not valid UTF-8. Whatever
/// the store answers, no key is added or changed, and the kept ids, the peer
/// set and every key that is not valid UTF-8 stay with their values.
#[verifier::loop_isolation(false)]
pub fn clear_db(db: &mut sled::Db, ids: &VecDeque<String>) -> (r: Result<(), RaftError>)
    ensures
        r matches Err(e) ==> e is Db || e is Utf8,
        r matches Err(e) && e is Db ==> *final(db) == *old(db),
        r is Ok ==> forall|k: Seq<u8>| #[trigger] db_contents(*old(db)).contains_key(k) ==> valid_utf8(k),
        r matches Err(e) && e is Utf8 ==> exists|k: Seq<u8>|
            #[trigger] db_contents(*old(db)).contains_key(k) && !valid_utf8(k),
        forall|k: Seq<u8>| #[trigger] db_contents(*final(db)).contains_key(k)
            ==> db_contents(*old(db)).contains_key(k) && db_contents(*final(db))[k] == db_contents(*old(db))[k],
        forall|k: Seq<u8>|
            #[trigger] db_contents(*old(db)).contains_key(k) && (!valid_utf8(k) || keeps_key(decode_utf8(k), ids.deep_view()))
                ==> db_contents(*final(db)).contains_key(k) && db_contents(*final(db))[k] == db_contents(*old(db))[k],
{
    let ghost c0 = db_contents(*db);
    let keys = match db_keys(db) {
        Ok(k) => k,
        Err(e) => return Err(RaftError::Db(sled_error_text(&e))),
    };
    let (stale, err) = stale_keys(&keys, ids);
    let ghost names = stale.deep_view();
    let mut i: usize = 0;
    while i < stale.len()
        invariant
            i <= stale.len(),
            names == stale.deep_view(),
            cleared_within(c0, db_contents(*db), names.take(i as int)),
        decreases stale.len() - i,
    {
        let ghost before = db_contents(*db);
        let _ignored = remove(db, stale[i].as_str());
        proof {
            let after = db_contents(*db);
            let t = names.take(i + 1);
            assert(stale[i as int]@ == names[i as int]);
            assert forall|k: Seq<u8>| #[trigger] before.contains_key(k) && !(exists|j: int| 0 <= j < t.len() && enc(t[j]) == k)
                implies after.contains_key(k) && after[k] == c0[k] by {
                assert(t[i as int] == names[i as int]);
                if exists|j: int| 0 <= j < names.take(i as int).len() && enc(names.take(i as int)[j]) == k {
                    let j = choose|j: int| 0 <= j < names.take(i as int).len() && enc(names.take(i as int)[j]) == k;
                    assert(t[j] == names.take(i as int)[j]);
                }
            }
            assert forall|k: Seq<u8>| #[trigger] c0.contains_key(k) && !(exists|j: int| 0 <= j < t.len() && enc(t[j]) == k)
                implies after.contains_key(k) && after[k] == c0[k] by {
                if exists|j: int| 0 <= j < names.take(i as int).len() && enc(names.take(i as int)[j]) == k {
                    let j = choose|j: int| 0 <= j < names.take(i as int).len() && enc(names.take(i as int)[j]) == k;
                    assert(t[j] == names.take(i as int)[j]);
                }
                assert(before.contains_key(k));
            }
        }
        i = i + 1;
    }
    proof {
        let ks = keys.deep_view();
        let c1 = db_contents(*db);
        assert(names.take(i as int) =~= names);
        assert forall|k: Seq<u8>|
            #[trigger] c0.contains_key(k) && (!valid_utf8(k) || keeps_key(decode_utf8(k), ids.deep_view()))
                implies c1.contains_key(k) && c1[k] == c0[k] by {
            if exists|j: int| 0 <= j < names.len() && enc(names[j]) == k {
                let j = choose|j: int| 0 <= j < names.len() && enc(names[j]) == k;
                assert(names.contains(names[j]));
                if err is None {
                    lemma_stale_not_kept(ks, ids.deep_view(), names[j]);
                } else {
                    let p = choose|p: int|
                        {
                            &&& 0 <= p < ks.len()
                            &&& !valid_utf8(#[trigger] ks[p])
                            &&& forall|i: int| 0 <= i < p ==> valid_utf8(#[trigger] ks[i])
                            &&& stale.deep_view() == stale_of(ks.take(p), ids.deep_view())
                        };
                    lemma_stale_not_kept(ks.take(p), ids.deep_view(), names[j]);
                }
                assert(valid_utf8(enc(names[j])));
                assert(decode_utf8(enc(names[j])) == names[j]);
            }
        }
        if err is None {
            assert forall|k: Seq<u8>| #[trigger] c0.contains_key(k) implies valid_utf8(k) by {
                assert(ks.to_set().contains(k));
                let i = choose|i: int| 0 <= i < ks.len() && ks[i] == k;
                assert(valid_utf8(ks[i]));
            }
        } else {
            let p = choose|p: int|
                {
                    &&& 0 <= p < ks.len()
                    &&& !valid_utf8(#[trigger] ks[p])
                    &&& forall|i: int| 0 <= i < p ==> valid_utf8(#[trigger] ks[i])
                    &&& stale.deep_view() == stale_of(ks.take(p), ids.deep_view())
                };
            assert(ks.to_set().contains(ks[p]));
            assert(c0.contains_key(ks[p]));
        }
    }
    match err {
        Some(e) => Err(e),
        None => Ok(()),
    }
}

} // verus!
