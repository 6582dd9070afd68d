//! What a node makes of its peers' answers to its own requests.
use vstd::prelude::*;
use vstd::utf8::valid_utf8;
use crate::wrappers::{db_contents, strings_of_json, json_decode_strings, json_error_text, str_eq};
use crate::wrappers::trimmed;
use super::db::{
    enc, get, present, stored_set, stored_text, replace_set_from_set, del_str_in_set_json, json_holds_set,
    trimmed_items, dedup_strings,
};
use super::error::RaftError;
use super::raft_enum::{Fields, Role, field_name, role_name};
use super::resp::{peers_key, snapshot_key};

verus! {

broadcast use vstd::utf8::encode_utf8_decode_utf8, vstd::utf8::encode_utf8_valid_utf8;

/// Whether a peer's answer to `confirm_leader` says it leads.
pub fn confirm_leader_reply(res: &str) -> (r: bool)
    ensures
        r == (res@ == role_name(Role::leader)),
{
    str_eq(res, Role::leader.name())
}

/// Whether the leader's answer to a heart beat is `success`.
pub fn heart_beat_reply(res: &str) -> (r: bool)
    ensures
        r == (res@ == field_name(Fields::success)),
{
    str_eq(res, Fields::success.name())
}

fn decode_set(text: &str) -> (r: Result<Vec<String>, RaftError>)
    ensures
        r is Ok <==> strings_of_json(text@) is Some,
        text@.len() == 0 ==> r is Err,
        r matches Ok(v) ==> v.deep_view().no_duplicates() && v.deep_view().to_set() == strings_of_json(
            text@,
        ).unwrap().to_set(),
        r matches Err(e) ==> e is Json,
{
    match json_decode_strings(text) {
        Ok(items) => Ok(dedup_strings(items)),
        Err(e) => Err(RaftError::Json(json_error_text(&e))),
    }
}

/// The stored set of peer urls. Fails where none is stored.
pub fn load_peers(db: &sled::Db) -> (r: Result<Vec<String>, RaftError>)
    ensures
        r matches Ok(v) ==> {
            &&& v.deep_view().no_duplicates()
            &&& stored_text(db_contents(*db), peers_key()) is Some
            &&& strings_of_json(stored_text(db_contents(*db), peers_key()).unwrap()) is Some
            &&& v.deep_view().to_set() == stored_set(db_contents(*db), peers_key())
        },
        !present(db_contents(*db), peers_key()) ==> r is Err,
        r matches Err(e) ==> e is Db || e is Json || e is Utf8,
{
    let text = get(db, Fields::peer_urls.name())?;
    decode_set(text.as_str())
}

/// Stores the peer urls that the leader sent, without this node's own url.
pub fn store_peer_urls(db: &mut sled::Db, reply: &str, url_me: &str) -> (r: Result<bool, RaftError>)
    ensures
        strings_of_json(reply@) is None ==> (r matches Err(e) && e is Json && *final(db) == *old(db)),
        r matches Err(e) && e is Json ==> strings_of_json(reply@) is None,
        r matches Ok(b) ==> {
            let sent = trimmed_items(strings_of_json(reply@).unwrap());
            &&& b
            &&& exists|j: Seq<char>| #![trigger enc(j)]
                {
                    &&& json_holds_set(j, sent.remove(url_me@))
                    &&& db_contents(*final(db)) == db_contents(*old(db)).insert(enc(peers_key()), enc(j))
                }
        },
        r matches Err(e) ==> e is Db || e is Json || (e is Utf8 && present(db_contents(*old(db)), peers_key()) && !valid_utf8(db_contents(*old(db))[enc(peers_key())])),
{
    let set = decode_set(reply)?;
    let j1 = replace_set_from_set(db, Fields::peer_urls.name(), &set)?;
    let ghost mid = db_contents(*db);
    let ghost sent = trimmed_items(strings_of_json(reply@).unwrap());
    proof {
        let x = strings_of_json(reply@).unwrap();
        assert(trimmed_items(set.deep_view()) =~= sent) by {
            assert forall|t: Seq<char>| trimmed_items(set.deep_view()).contains(t) implies sent.contains(t) by {
                let i = choose|i: int| 0 <= i < set.deep_view().len() && trimmed(set.deep_view()[i]) == t;
                assert(set.deep_view().to_set().contains(set.deep_view()[i]));
                let k = choose|k: int| 0 <= k < x.len() && x[k] == set.deep_view()[i];
            }
            assert forall|t: Seq<char>| sent.contains(t) implies trimmed_items(set.deep_view()).contains(t) by {
                let i = choose|i: int| 0 <= i < x.len() && trimmed(x[i]) == t;
                assert(x.to_set().contains(x[i]));
                let k = choose|k: int| 0 <= k < set.deep_view().len() && set.deep_view()[k] == x[i];
            }
        }
        assert(stored_text(mid, peers_key()) == Some(j1@));
    }
    let j = del_str_in_set_json(db, Fields::peer_urls.name(), url_me)?;
    proof {
        let jv = j@;
        assert(mid.insert(enc(peers_key()), enc(jv)) =~= db_contents(*old(db)).insert(enc(peers_key()), enc(jv)));
        assert(db_contents(*db) == db_contents(*old(db)).insert(enc(peers_key()), enc(jv)));
    }
    Ok(true)
}

/// Stores the id set that the leader sent in place of this node's, and
/// returns it.
pub fn store_snapshot_ids(db: &mut sled::Db, reply: &str) -> (r: Result<Vec<String>, RaftError>)
    ensures
        strings_of_json(reply@) is None ==> (r matches Err(e) && e is Json && *final(db) == *old(db)),
        r matches Err(e) && e is Json ==> strings_of_json(reply@) is None,
        r matches Ok(v) ==> {
            &&& v.deep_view().no_duplicates()
            &&& strings_of_json(reply@) is Some
            &&& v.deep_view().to_set() == strings_of_json(reply@).unwrap().to_set()
            &&& exists|j: Seq<char>| #![trigger enc(j)]
                {
                    &&& json_holds_set(j, trimmed_items(v.deep_view()))
                    &&& db_contents(*final(db)) == db_contents(*old(db)).insert(enc(snapshot_key()), enc(j))
                }
        },
        r matches Err(e) ==> e is Db || e is Json || (e is Utf8 && present(db_contents(*old(db)), snapshot_key()) && !valid_utf8(db_contents(*old(db))[enc(snapshot_key())])),
{
    let set = decode_set(reply)?;
    let j = replace_set_from_set(db, Fields::snapshots_ids.name(), &set)?;
    proof {
        let jv = j@;
        assert(json_holds_set(jv, trimmed_items(set.deep_view())));
    }
    Ok(set)
}

/// Each peer answers at most once in a score.
pub open spec fn peers_once(score: Seq<(Seq<char>, Seq<char>)>) -> bool {
    forall|i: int, j: int| 0 <= i < score.len() && 0 <= j < score.len() && i != j ==> score[i].0 != score[j].0
}

/// How many answers of the score are the given word.
pub open spec fn answers_count(score: Seq<(Seq<char>, Seq<char>)>, w: Seq<char>) -> nat
    decreases score.len(),
{
    if score.len() == 0 {
        0
    } else {
        answers_count(score.drop_last(), w) + if score.last().1 == w {
            1nat
        } else {
            0nat
        }
    }
}

/// The peers that answered the vote, with `success` or `fail`, in order.
pub open spec fn alive_peers(score: Seq<(Seq<char>, Seq<char>)>) -> Seq<Seq<char>>
    decreases score.len(),
{
    if score.len() == 0 {
        Seq::empty()
    } else {
        let p = alive_peers(score.drop_last());
        if score.last().1 == field_name(Fields::success) || score.last().1 == field_name(Fields::fail) {
            p.push(score.last().0)
        } else {
            p
        }
    }
}

proof fn lemma_counts_bounded(score: Seq<(Seq<char>, Seq<char>)>, w: Seq<char>)
    ensures
        answers_count(score, w) <= score.len(),
    decreases score.len(),
{
    if score.len() > 0 {
        lemma_counts_bounded(score.drop_last(), w);
    }
}

/// Counts a vote: the candidate wins where at least as many peers agreed
/// as refused. The peers that answered at all are stored as the peer set.
pub fn check_i_am_leader(db: &mut sled::Db, score: &Vec<(String, String)>) -> (r: Result<bool, RaftError>)
    requires
        peers_once(score.deep_view()),
    ensures
        r matches Ok(b) ==> b == (answers_count(score.deep_view(), field_name(Fields::success))
            >= answers_count(score.deep_view(), field_name(Fields::fail))),
        alive_peers(score.deep_view()).len() == 0 ==> (r is Ok && *final(db) == *old(db)),
        alive_peers(score.deep_view()).len() > 0 && r is Ok ==> exists|j: Seq<char>| #![trigger enc(j)]
            {
                &&& json_holds_set(j, trimmed_items(alive_peers(score.deep_view())))
                &&& db_contents(*final(db)) == db_contents(*old(db)).insert(enc(peers_key()), enc(j))
            },
        r matches Err(e) ==> e is Db || (e is Utf8 && present(db_contents(*old(db)), peers_key()) && !valid_utf8(db_contents(*old(db))[enc(peers_key())])),
{
    let ghost s = score.deep_view();
    let mut peers: Vec<String> = Vec::new();
    let mut agree: usize = 0;
    let mut reject: usize = 0;
    let mut i: usize = 0;
    proof {
        assert(s.take(0) =~= Seq::<(Seq<char>, Seq<char>)>::empty());
        assert(peers.deep_view() =~= alive_peers(s.take(0)));
    }
    while i < score.len()
        invariant
            i <= score.len(),
            s == score.deep_view(),
            peers.deep_view() == alive_peers(s.take(i as int)),
            agree == answers_count(s.take(i as int), field_name(Fields::success)),
            reject == answers_count(s.take(i as int), field_name(Fields::fail)),
        decreases score.len() - i,
    {
        proof {
            assert(s.take(i + 1).drop_last() =~= s.take(i as int));
            lemma_counts_bounded(s.take(i as int), field_name(Fields::success));
            lemma_counts_bounded(s.take(i as int), field_name(Fields::fail));
        }
        let k = &score[i].0;
        let v = &score[i].1;
        let ghost before = peers.deep_view();
        if str_eq(v.as_str(), Fields::success.name()) {
            peers.push(k.clone());
            agree = agree + 1;
        }
        if str_eq(v.as_str(), Fields::fail.name()) {
            peers.push(k.clone());
            reject = reject + 1;
        }
        proof {
            super::raft_enum::lemma_names_differ();
            if s[i as int].1 == field_name(Fields::success) || s[i as int].1 == field_name(Fields::fail) {
                assert(peers.deep_view() =~= before.push(s[i as int].0));
            } else {
                assert(peers.deep_view() =~= before);
            }
        }
        i = i + 1;
    }
    proof {
        assert(s.take(i as int) =~= s);
    }
    if peers.len() > 0 {
        let j = replace_set_from_set(db, Fields::peer_urls.name(), &peers)?;
        proof {
            let jv = j@;
            assert(json_holds_set(jv, trimmed_items(alive_peers(s))));
            assert(db_contents(*db) == db_contents(*old(db)).insert(enc(peers_key()), enc(jv)));
        }
    }
    Ok(agree >= reject)
}

} // verus!

verus! {

/// Whether `s2` is `s1` with some answers that were not `success` turned
/// into `success`, the peers and their order kept.
pub open spec fn more_votes(s1: Seq<(Seq<char>, Seq<char>)>, s2: Seq<(Seq<char>, Seq<char>)>) -> bool {
    &&& s1.len() == s2.len()
    &&& forall|i: int|
        0 <= i < s1.len() ==> (#[trigger] s2[i]).0 == s1[i].0 && (s2[i].1 == s1[i].1 || (s1[i].1 != field_name(
            Fields::success,
        ) && s2[i].1 == field_name(Fields::success)))
}

proof fn lemma_more_votes_counts(s1: Seq<(Seq<char>, Seq<char>)>, s2: Seq<(Seq<char>, Seq<char>)>)
    requires
        more_votes(s1, s2),
    ensures
        answers_count(s2, field_name(Fields::success)) >= answers_count(s1, field_name(Fields::success)),
        answers_count(s2, field_name(Fields::fail)) <= answers_count(s1, field_name(Fields::fail)),
    decreases s1.len(),
{
    super::raft_enum::lemma_names_differ();
    if s1.len() > 0 {
        let n = s1.len() - 1;
        assert(s2[n].0 == s1[n].0);
        assert forall|i: int| 0 <= i < s1.drop_last().len() implies (#[trigger] s2.drop_last()[i]).0 == s1.drop_last()[i].0
            && (s2.drop_last()[i].1 == s1.drop_last()[i].1 || (s1.drop_last()[i].1 != field_name(Fields::success)
            && s2.drop_last()[i].1 == field_name(Fields::success))) by {
            assert(s2[i].0 == s1[i].0);
        }
        lemma_more_votes_counts(s1.drop_last(), s2.drop_last());
    }
}

/// More votes never lose an election: where the candidate won with a score,
/// it wins with any score that turns more answers into `success`.
pub proof fn lemma_more_votes_never_lose(s1: Seq<(Seq<char>, Seq<char>)>, s2: Seq<(Seq<char>, Seq<char>)>)
    requires
        more_votes(s1, s2),
        answers_count(s1, field_name(Fields::success)) >= answers_count(s1, field_name(Fields::fail)),
    ensures
        answers_count(s2, field_name(Fields::success)) >= answers_count(s2, field_name(Fields::fail)),
{
    lemma_more_votes_counts(s1, s2);
}

} // verus!
