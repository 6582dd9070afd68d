//! How a node answers the requests of its peers.
use vstd::prelude::*;
use vstd::string::StringExecFns;
use vstd::utf8::valid_utf8;
use crate::wrappers::{trimmed, db_get, db_contents, strings_of_json, json_decode_strings, json_encode_strings, json_error_text};
use super::db::{
    json_set,
    fetched_text,
    enc, get, insert, present, read_set, stored_set, stored_text, update_set_from_set,
    update_set_from_str, json_holds_set, with_item, trimmed_items, contains_string,
};
use super::error::RaftError;
use super::raft_conf::{ConfigRaft, RaftVar};
use super::raft_enum::{Fields, Role, Which, field_name, role_name, lemma_names_differ};

verus! {

/// The key under which the ids of the entries are kept as a set.
pub open spec fn snapshot_key() -> Seq<char> {
    field_name(Fields::snapshots_ids)
}

/// The key under which the urls of the peers are kept as a set.
pub open spec fn peers_key() -> Seq<char> {
    field_name(Fields::peer_urls)
}

/// Whether this node's id set is stored and reads as a JSON array of strings.
pub open spec fn stored_json_readable(c: Map<Seq<u8>, Seq<u8>>) -> bool {
    &&& stored_text(c, snapshot_key()) is Some
    &&& strings_of_json(stored_text(c, snapshot_key()).unwrap()) is Some
}

/// Whether the candidate's snapshot holds every id of this node's snapshot,
/// both read as JSON arrays of strings.
pub open spec fn snapshot_covers(c: Map<Seq<u8>, Seq<u8>>, snapshot: Seq<char>) -> bool {
    &&& stored_text(c, snapshot_key()) is Some
    &&& strings_of_json(stored_text(c, snapshot_key()).unwrap()) is Some
    &&& strings_of_json(snapshot) is Some
    &&& strings_of_json(stored_text(c, snapshot_key()).unwrap()).unwrap().to_set().subset_of(
        strings_of_json(snapshot).unwrap().to_set(),
    )
}

/// The url of the leader this node follows; an error where it knows none.
pub fn resp_find_leader(rv: &RaftVar) -> (r: Result<String, RaftError>)
    ensures
        r is Err <==> rv.leader_url@.len() == 0,
        r matches Err(e) ==> e is LeaderUrlEmpty,
        r matches Ok(u) ==> u@ == rv.leader_url@,
{
    if rv.leader_url.as_str().is_empty() {
        return Err(RaftError::LeaderUrlEmpty);
    }
    Ok(rv.leader_url.clone())
}

/// This node's role.
pub fn resp_confirm_leader(rv: &RaftVar) -> (r: Result<String, RaftError>)
    ensures
        r matches Ok(s) && s@ == rv.role@,
{
    Ok(rv.role.clone())
}

/// `success` where this node is the leader, else `fail`.
pub fn resp_heart_beat(rv: &RaftVar) -> (r: Result<String, RaftError>)
    ensures
        r matches Ok(s) && s@ == (if rv.role@ == role_name(Role::leader) {
            field_name(Fields::success)
        } else {
            field_name(Fields::fail)
        }),
{
    if rv.has_role(Role::leader) {
        return Ok(Fields::success.name().to_owned());
    }
    Ok(Fields::fail.name().to_owned())
}

/// Adds the asking peer's url and this node's url to the stored peer set
/// and returns the set's JSON.
pub fn resp_peer_urls(db: &mut sled::Db, conf: &ConfigRaft, url_peer: &str) -> (r: Result<String, RaftError>)
    ensures
        r matches Ok(j) ==> {
            &&& json_holds_set(j@, stored_set(db_contents(*old(db)), peers_key()) + trimmed_items(seq![url_peer@, conf.url_me@]))
            &&& db_contents(*final(db)) == db_contents(*old(db)).insert(enc(peers_key()), enc(j@))
        },
        r matches Err(e) ==> e is Db || (e is Utf8 && present(db_contents(*old(db)), peers_key()) && !valid_utf8(db_contents(*old(db))[enc(peers_key())])),
{
    let mut s: Vec<String> = Vec::new();
    s.push(url_peer.to_owned());
    s.push(conf.url_me.clone());
    assert(s.deep_view() =~= seq![url_peer@, conf.url_me@]);
    update_set_from_set(db, Fields::peer_urls.name(), &s)
}

/// Records the id of a new entry in the stored id set and stores the entry
/// under its id; returns the id.
pub fn resp_append_entry(db: &mut sled::Db, id: &str, data: &str) -> (r: Result<String, RaftError>)
    ensures
        r matches Ok(x) ==> {
            &&& x@ == id@
            &&& exists|j: Seq<char>| #![trigger enc(j)]
                {
                    &&& json_holds_set(j, with_item(stored_set(db_contents(*old(db)), snapshot_key()), id@))
                    &&& db_contents(*final(db)) == db_contents(*old(db)).insert(enc(snapshot_key()), enc(j)).insert(
                        enc(id@),
                        enc(data@),
                    )
                }
        },
        r matches Err(e) ==> e is Db || (e is Utf8 && present(db_contents(*old(db)), snapshot_key()) && !valid_utf8(db_contents(*old(db))[enc(snapshot_key())])),
{
    let j = update_set_from_str(db, Fields::snapshots_ids.name(), id)?;
    let ghost mid = db_contents(*db);
    insert(db, id, data)?;
    proof {
        let jv = j@;
        assert(json_holds_set(jv, with_item(stored_set(db_contents(*old(db)), snapshot_key()), id@)));
        assert(db_contents(*db) == db_contents(*old(db)).insert(enc(snapshot_key()), enc(jv)).insert(enc(id@), enc(data@)));
    }
    Ok(id.to_owned())
}

/// The entry stored under the id, or the empty text.
pub fn resp_query_id(db: &sled::Db, id: &str) -> (r: Result<String, RaftError>)
    ensures
        !present(db_contents(*db), id@) ==> (r matches Ok(s) && s@ == Seq::<char>::empty()),
        r matches Ok(s) ==> s@ == Seq::<char>::empty() || stored_text(db_contents(*db), id@) == Some(s@),
        r matches Err(e) ==> e is Db || e is Utf8,
{
    get(db, id)
}

/// The JSON of the stored id set.
pub fn resp_snapshot_ids(db: &sled::Db) -> (r: Result<String, RaftError>)
    ensures
        r matches Ok(j) ==> json_holds_set(j@, stored_set(db_contents(*db), snapshot_key()))
            || json_holds_set(j@, Set::empty()),
        !present(db_contents(*db), snapshot_key()) ==> (r matches Ok(j) && json_holds_set(j@, Set::empty())),
        r matches Err(e) ==> e is Db || e is Utf8,
{
    let ids = read_set(db, Fields::snapshots_ids.name())?;
    match json_encode_strings(&ids) {
        Ok(s) => Ok(s),
        Err(e) => Err(RaftError::Json(json_error_text(&e))),
    }
}

/// Whether every id of this node's snapshot text is in the candidate's, both
/// read as JSON arrays of strings. Fails exactly where either text is not one.
#[verifier::loop_isolation(false)]
pub fn snapshot_compare(mine: &str, yours: &str) -> (r: Result<bool, RaftError>)
    ensures
        r is Ok <==> strings_of_json(mine@) is Some && strings_of_json(yours@) is Some,
        mine@.len() == 0 ==> r is Err,
        r matches Ok(b) ==> b == strings_of_json(mine@).unwrap().to_set().subset_of(
            strings_of_json(yours@).unwrap().to_set(),
        ),
        r matches Err(e) ==> e is Json,
{
    let mine = match json_decode_strings(mine) {
        Ok(v) => v,
        Err(e) => return Err(RaftError::Json(json_error_text(&e))),
    };
    let yours = match json_decode_strings(yours) {
        Ok(v) => v,
        Err(e) => return Err(RaftError::Json(json_error_text(&e))),
    };
    let ghost ms = mine.deep_view();
    let ghost ys = yours.deep_view();
    let mut i: usize = 0;
    while i < mine.len()
        invariant
            i <= mine.len(),
            ms == mine.deep_view(),
            ys == yours.deep_view(),
            forall|k: int| 0 <= k < i ==> ys.contains(ms[k]),
        decreases mine.len() - i,
    {
        if !contains_string(&yours, mine[i].as_str()) {
            proof {
                assert(ms.to_set().contains(ms[i as int]));
                assert(!ys.to_set().contains(ms[i as int]));
            }
            return Ok(false);
        }
        i = i + 1;
    }
    proof {
        assert forall|x: Seq<char>| ms.to_set().contains(x) implies ys.to_set().contains(x) by {
            let k = choose|k: int| 0 <= k < ms.len() && ms[k] == x;
        }
    }
    Ok(true)
}

/// Whether the candidate's snapshot holds every id of this node's snapshot:
/// `snapshot_compare` of the stored id set's text and the candidate's.
/// Fails where either is not a JSON array of strings, so also where no id
/// set is stored.
pub fn yours_snapshot_better(db: &sled::Db, snapshot: &str) -> (r: Result<bool, RaftError>)
    ensures
        r matches Ok(b) ==> {
            &&& stored_text(db_contents(*db), snapshot_key()) is Some
            &&& strings_of_json(stored_text(db_contents(*db), snapshot_key()).unwrap()) is Some
            &&& strings_of_json(snapshot@) is Some
            &&& b == snapshot_covers(db_contents(*db), snapshot@)
        },
        !present(db_contents(*db), snapshot_key()) ==> r is Err,
        strings_of_json(snapshot@) is None ==> r is Err,
        r matches Err(e) && e is Json ==> !stored_json_readable(db_contents(*db)) || strings_of_json(snapshot@) is None,
        r matches Err(e) ==> e is Db || e is Json || (e is Utf8 && present(db_contents(*db), snapshot_key())
            && !valid_utf8(db_contents(*db)[enc(snapshot_key())])),
{
    let mine_text = fetched_text(db_get(db, Fields::snapshots_ids.name().as_bytes()))?;
    snapshot_compare(mine_text.as_str(), snapshot)
}

/// The answer to a vote from the comparison of the snapshots: `success`
/// where the candidate's covers this node's, `fail` where not, and the
/// comparison's error where it failed.
pub fn vote_reply(better: Result<bool, RaftError>) -> (r: Result<String, RaftError>)
    ensures
        match better {
            Ok(true) => r matches Ok(s) && s@ == field_name(Fields::success),
            Ok(false) => r matches Ok(s) && s@ == field_name(Fields::fail),
            Err(e) => r == Err::<String, RaftError>(e),
        },
{
    match better {
        Ok(true) => Ok(Fields::success.name().to_owned()),
        Ok(false) => Ok(Fields::fail.name().to_owned()),
        Err(e) => Err(e),
    }
}

/// Whether answering a vote needs to ask the known leader first: only a
/// node that is not itself the leader asks.
pub fn vote_needs_leader_check(rv: &RaftVar) -> (r: bool)
    ensures
        r == (rv.role@ != role_name(Role::leader)),
{
    !rv.has_role(Role::leader)
}

/// The answer to a candidate's vote request: `fail` where this node is the
/// leader, where its leader still answers (`leader_exist`), or where the
/// candidate's snapshot misses some id of this node's; else `success`. The
/// comparison of the snapshots is `yours_snapshot_better`, whose result
/// `vote_reply` turns into the answer; its error is the answer's error.
pub fn resp_peers_vote(rv: &RaftVar, db: &sled::Db, snapshot: &str, leader_exist: bool) -> (r: Result<String, RaftError>)
    ensures
        rv.role@ == role_name(Role::leader) ==> (r matches Ok(s) && s@ == field_name(Fields::fail)),
        leader_exist ==> (r matches Ok(s) && s@ == field_name(Fields::fail)),
        r matches Ok(s) ==> (s@ == field_name(Fields::success) || s@ == field_name(Fields::fail)),
        r matches Ok(s) ==> (s@ == field_name(Fields::success) <==> (rv.role@ != role_name(Role::leader)
            && !leader_exist && snapshot_covers(db_contents(*db), snapshot@))),
        r matches Err(e) && e is Json ==> !stored_json_readable(db_contents(*db)) || strings_of_json(snapshot@) is None,
        rv.role@ != role_name(Role::leader) && !leader_exist && stored_json_readable(db_contents(*db))
            && strings_of_json(snapshot@) is Some ==> (r is Ok || (r matches Err(e) && e is Db)),
        r matches Err(e) ==> e is Db || e is Json || (e is Utf8 && present(db_contents(*db), snapshot_key())
            && !valid_utf8(db_contents(*db)[enc(snapshot_key())])),
{
    proof {
        lemma_names_differ();
    }
    if rv.has_role(Role::leader) {
        return Ok(Fields::fail.name().to_owned());
    }
    if leader_exist {
        return Ok(Fields::fail.name().to_owned());
    }
    vote_reply(yours_snapshot_better(db, snapshot))
}

/// Follows the new leader: this node becomes a follower of the given url.
/// The answer is `fail`.
pub fn resp_leader_change(rv: &mut RaftVar, leader_url: &str) -> (r: Result<String, RaftError>)
    ensures
        final(rv).role@ == role_name(Role::follower),
        final(rv).leader_url@ == leader_url@,
        final(rv).snap_ids == old(rv).snap_ids,
        final(rv).snap_size == old(rv).snap_size,
        r matches Ok(s) && s@ == field_name(Fields::fail),
{
    if !rv.has_role(Role::follower) {
        rv.set_role(Role::follower.name());
    }
    rv.set_leader_url(leader_url);
    Ok(Fields::fail.name().to_owned())
}

/// The text that reports an error to the asking peer.
pub open spec fn error_reply(e: RaftError) -> Seq<char> {
    "raft error from leader: "@ + e.spec_message()
}

/// The text sent back for a handler's result.
pub open spec fn reply_text(r: Result<String, RaftError>) -> Seq<char> {
    match r {
        Ok(s) => s@,
        Err(e) => error_reply(e),
    }
}

fn reply_of(r: Result<String, RaftError>) -> (s: String)
    ensures
        s@ == reply_text(r),
{
    match r {
        Ok(s) => s,
        Err(e) => {
            let mut s = "raft error from leader: ".to_owned();
            let m = e.message();
            s.append(m.as_str());
            s
        },
    }
}

/// What the handler of each request kind gives, and how it leaves the
/// node's state and the store: the contracts of the `resp_*` handlers, one
/// kind each. `rv0`, `db0` are before the request, `rv1`, `db1` after.
pub open spec fn handled(
    which: Which,
    data: Seq<char>,
    rv0: RaftVar,
    rv1: RaftVar,
    db0: sled::Db,
    db1: sled::Db,
    conf: ConfigRaft,
    leader_exist: bool,
    new_id: Seq<char>,
    h: Result<String, RaftError>,
) -> bool {
    let c0 = db_contents(db0);
    let c1 = db_contents(db1);
    match which {
        Which::ask_leader => {
            &&& (h is Err <==> rv0.leader_url@.len() == 0)
            &&& (h matches Err(e) ==> e is LeaderUrlEmpty)
            &&& (h matches Ok(u) ==> u@ == rv0.leader_url@)
            &&& rv1 == rv0
            &&& db1 == db0
        },
        Which::confirm_leader => {
            &&& h matches Ok(s) && s@ == rv0.role@
            &&& rv1 == rv0
            &&& db1 == db0
        },
        Which::heart_beat => {
            &&& h matches Ok(s) && s@ == (if rv0.role@ == role_name(Role::leader) {
                field_name(Fields::success)
            } else {
                field_name(Fields::fail)
            })
            &&& rv1 == rv0
            &&& db1 == db0
        },
        Which::peer_urls => {
            &&& (h matches Ok(j) ==> {
                &&& json_holds_set(j@, stored_set(c0, peers_key()) + trimmed_items(seq![data, conf.url_me@]))
                &&& c1 == c0.insert(enc(peers_key()), enc(j@))
            })
            &&& (h matches Err(e) ==> e is Db || (e is Utf8 && present(c0, peers_key()) && !valid_utf8(c0[enc(peers_key())])))
            &&& rv1 == rv0
        },
        Which::peer_vote => {
            &&& (rv0.role@ == role_name(Role::leader) ==> (h matches Ok(s) && s@ == field_name(Fields::fail)))
            &&& (leader_exist ==> (h matches Ok(s) && s@ == field_name(Fields::fail)))
            &&& (h matches Ok(s) ==> (s@ == field_name(Fields::success) || s@ == field_name(Fields::fail)))
            &&& (h matches Ok(s) ==> (s@ == field_name(Fields::success) <==> (rv0.role@ != role_name(Role::leader)
                && !leader_exist && snapshot_covers(c0, data))))
            &&& (h matches Err(e) && e is Json ==> !stored_json_readable(c0) || strings_of_json(data) is None)
            &&& (rv0.role@ != role_name(Role::leader) && !leader_exist && stored_json_readable(c0)
                && strings_of_json(data) is Some ==> (h is Ok || (h matches Err(e) && e is Db)))
            &&& (h matches Err(e) ==> e is Db || e is Json || (e is Utf8 && present(c0, snapshot_key())
                && !valid_utf8(c0[enc(snapshot_key())])))
            &&& rv1 == rv0
            &&& db1 == db0
        },
        Which::leader_change => {
            &&& h matches Ok(s) && s@ == field_name(Fields::fail)
            &&& rv1.role@ == role_name(Role::follower)
            &&& rv1.leader_url@ == data
            &&& rv1.snap_ids == rv0.snap_ids
            &&& rv1.snap_size == rv0.snap_size
            &&& db1 == db0
        },
        Which::snapshot_ids => {
            &&& (h matches Ok(j) ==> json_holds_set(j@, stored_set(c0, snapshot_key()))
                || json_holds_set(j@, Set::empty()))
            &&& (!present(c0, snapshot_key()) ==> (h matches Ok(j) && json_holds_set(j@, Set::empty())))
            &&& (h matches Err(e) ==> e is Db || e is Utf8)
            &&& rv1 == rv0
            &&& db1 == db0
        },
        Which::append_entry => {
            &&& (h matches Ok(x) ==> {
                &&& x@ == new_id
                &&& exists|j: Seq<char>| #![trigger enc(j)]
                    {
                        &&& json_holds_set(j, with_item(stored_set(c0, snapshot_key()), new_id))
                        &&& c1 == c0.insert(enc(snapshot_key()), enc(j)).insert(enc(new_id), enc(data))
                    }
            })
            &&& (h matches Err(e) ==> e is Db || (e is Utf8 && present(c0, snapshot_key()) && !valid_utf8(c0[enc(snapshot_key())])))
            &&& rv1 == rv0
        },
        Which::query_id => {
            &&& (!present(c0, data) ==> (h matches Ok(s) && s@ == Seq::<char>::empty()))
            &&& (h matches Ok(s) ==> s@ == Seq::<char>::empty() || stored_text(c0, data) == Some(s@))
            &&& (h matches Err(e) ==> e is Db || e is Utf8)
            &&& rv1 == rv0
            &&& db1 == db0
        },
        Which::send_data => {
            &&& h matches Err(e) && e is NotMatch
            &&& rv1 == rv0
            &&& db1 == db0
        },
    }
}

/// Runs the handler of the request kind. `leader_exist` is what the leader
/// said when asked before a vote; it is read only for a vote request.
/// `new_id` is the id that an appended entry gets.
pub fn handle(
    which: &Which,
    data: &str,
    rv: &mut RaftVar,
    db: &mut sled::Db,
    conf: &ConfigRaft,
    leader_exist: bool,
    new_id: &str,
) -> (r: Result<String, RaftError>)
    ensures
        handled(*which, data@, *old(rv), *final(rv), *old(db), *final(db), *conf, leader_exist, new_id@, r),
{
    match which {
        Which::ask_leader => resp_find_leader(rv),
        Which::confirm_leader => resp_confirm_leader(rv),
        Which::heart_beat => resp_heart_beat(rv),
        Which::peer_urls => resp_peer_urls(db, conf, data),
        Which::peer_vote => resp_peers_vote(rv, db, data, leader_exist),
        Which::leader_change => resp_leader_change(rv, data),
        Which::snapshot_ids => resp_snapshot_ids(db),
        Which::append_entry => resp_append_entry(db, new_id, data),
        Which::query_id => resp_query_id(db, data),
        Which::send_data => Err(RaftError::NotMatch),
    }
}

/// Answers one request of a peer: the handler's answer, or the text of its
/// error after "raft error from leader: ".
pub fn dispatch_post(
    which: &Which,
    data: &str,
    rv: &mut RaftVar,
    db: &mut sled::Db,
    conf: &ConfigRaft,
    leader_exist: bool,
    new_id: &str,
) -> (r: String)
    ensures
        exists|h: Result<String, RaftError>| #![trigger reply_text(h)]
            {
                &&& handled(*which, data@, *old(rv), *final(rv), *old(db), *final(db), *conf, leader_exist, new_id@, h)
                &&& r@ == reply_text(h)
            },
{
    let res = handle(which, data, rv, db, conf, leader_exist, new_id);
    let ghost h = res;
    let r = reply_of(res);
    assert(r@ == reply_text(h));
    r
}

} // verus!

verus! {

/// A peer that registers with the leader never drops the peers it knew: the
/// answer of `resp_peer_urls` holds every stored peer, the trimmed url of
/// the asking peer and of the leader (where not blank), and nothing else.
pub proof fn lemma_peer_urls_keep_peers(c: Map<Seq<u8>, Seq<u8>>, url_peer: Seq<char>, url_me: Seq<char>, j: Seq<char>)
    requires
        json_holds_set(j, stored_set(c, peers_key()) + trimmed_items(seq![url_peer, url_me])),
    ensures
        forall|x: Seq<char>| stored_set(c, peers_key()).contains(x) ==> #[trigger] json_set(j).contains(x),
        trimmed(url_peer).len() > 0 ==> json_set(j).contains(trimmed(url_peer)),
        trimmed(url_me).len() > 0 ==> json_set(j).contains(trimmed(url_me)),
        forall|x: Seq<char>| #[trigger] json_set(j).contains(x) ==> stored_set(c, peers_key()).contains(x)
            || x == trimmed(url_peer) || x == trimmed(url_me),
{
    let l = seq![url_peer, url_me];
    assert(l[0] == url_peer && l[1] == url_me);
    assert(trimmed(url_peer).len() > 0 ==> trimmed_items(l).contains(trimmed(url_peer)));
    assert(trimmed(url_me).len() > 0 ==> trimmed_items(l).contains(trimmed(url_me)));
    assert forall|x: Seq<char>| #[trigger] json_set(j).contains(x) implies stored_set(c, peers_key()).contains(x)
        || x == trimmed(url_peer) || x == trimmed(url_me) by {
        if !stored_set(c, peers_key()).contains(x) {
            let i = choose|i: int| 0 <= i < l.len() && trimmed(l[i]) == x;
        }
    }
}

/// A vote that is neither refused for leading nor for a live leader is
/// decided by the two snapshots alone: where this node's ids are stored as
/// JSON and the candidate's snapshot is a JSON array of strings, the answer
/// is `success` exactly when the candidate holds all of this node's ids,
/// else `fail`; the only error left is the store's.
pub proof fn lemma_vote_decided_by_snapshots(
    rv: RaftVar,
    db: sled::Db,
    conf: ConfigRaft,
    snapshot: Seq<char>,
    id: Seq<char>,
    h: Result<String, RaftError>,
)
    requires
        handled(Which::peer_vote, snapshot, rv, rv, db, db, conf, false, id, h),
        rv.role@ != role_name(Role::leader),
        stored_json_readable(db_contents(db)),
        strings_of_json(snapshot) is Some,
    ensures
        h is Ok || (h matches Err(e) && e is Db),
        h matches Ok(s) ==> (s@ == field_name(Fields::success) <==> strings_of_json(
            stored_text(db_contents(db), snapshot_key()).unwrap(),
        ).unwrap().to_set().subset_of(strings_of_json(snapshot).unwrap().to_set())),
        h matches Ok(s) ==> (s@ == field_name(Fields::success) || s@ == field_name(Fields::fail)),
{
}

} // verus!
