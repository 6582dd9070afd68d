use std::collections::VecDeque;
use rust_raft::raft::db::{get, insert, read_set, update_set_from_set, update_set_from_str};
use rust_raft::raft::error::RaftError;
use rust_raft::raft::raft_conf::{ConfigRaft, RaftVar};
use rust_raft::raft::raft_enum::{Role, Which};
use rust_raft::raft::raft_run::{
    candidate_round, clear_db, follower_round, leader_round, leader_search_step, round_role, stale_keys,
    CandidateNext, LoopClock,
};
use rust_raft::raft::req::{
    check_i_am_leader, confirm_leader_reply, heart_beat_reply, load_peers, store_peer_urls,
    store_snapshot_ids,
};
use rust_raft::raft::resp::{
    dispatch_post, handle, snapshot_compare, vote_reply, resp_append_entry, resp_confirm_leader, resp_find_leader, resp_heart_beat,
    resp_leader_change, resp_peer_urls, resp_peers_vote, resp_query_id, resp_snapshot_ids,
    vote_needs_leader_check, yours_snapshot_better,
};

fn temp_db() -> sled::Db {
    sled::Config::new().temporary(true).open().unwrap()
}

fn node(role: &str) -> RaftVar {
    let mut rv = RaftVar::default(&ConfigRaft::default());
    rv.set_role(role);
    rv
}

fn strings(v: &[&str]) -> Vec<String> {
    v.iter().map(|s| s.to_string()).collect()
}

#[test]
fn find_leader_answers_the_known_url() {
    let mut rv = node("follower");
    assert_eq!(resp_find_leader(&rv), Err(RaftError::LeaderUrlEmpty));
    rv.set_leader_url("1.2.3.4:5");
    assert_eq!(resp_find_leader(&rv).unwrap(), "1.2.3.4:5");
}

#[test]
fn confirm_and_heart_beat_follow_the_role() {
    let rv = node("leader");
    assert_eq!(resp_confirm_leader(&rv).unwrap(), "leader");
    assert_eq!(resp_heart_beat(&rv).unwrap(), "success");
    let rv = node("follower");
    assert_eq!(resp_confirm_leader(&rv).unwrap(), "follower");
    assert_eq!(resp_heart_beat(&rv).unwrap(), "fail");
}

#[test]
fn peer_urls_records_both_urls() {
    let mut db = temp_db();
    let conf = ConfigRaft::default();
    let j = resp_peer_urls(&mut db, &conf, "10.0.0.2:1").unwrap();
    assert_eq!(j, "[\"10.0.0.2:1\",\"127.0.0.1:8442\"]");
    assert_eq!(read_set(&db, "peer_urls").unwrap(), strings(&["10.0.0.2:1", "127.0.0.1:8442"]));
}

#[test]
fn append_entry_then_query_and_snapshot() {
    let mut db = temp_db();
    assert_eq!(resp_append_entry(&mut db, "17", "payload").unwrap(), "17");
    assert_eq!(resp_query_id(&db, "17").unwrap(), "payload");
    assert_eq!(resp_query_id(&db, "18").unwrap(), "");
    assert_eq!(resp_snapshot_ids(&db).unwrap(), "[\"17\"]");
    resp_append_entry(&mut db, "19", "more").unwrap();
    assert_eq!(resp_snapshot_ids(&db).unwrap(), "[\"17\",\"19\"]");
}

#[test]
fn snapshot_ids_of_empty_store() {
    let db = temp_db();
    assert_eq!(resp_snapshot_ids(&db).unwrap(), "[]");
}

#[test]
fn snapshot_better_is_inclusion() {
    let mut db = temp_db();
    update_set_from_set(&mut db, "snapshots_ids", &strings(&["1", "2"])).unwrap();
    assert_eq!(yours_snapshot_better(&db, "[\"1\",\"2\",\"3\"]").unwrap(), true);
    assert_eq!(yours_snapshot_better(&db, "[\"2\"]").unwrap(), false);
    assert!(matches!(yours_snapshot_better(&db, "nope"), Err(RaftError::Json(_))));
}

#[test]
fn snapshot_better_without_own_snapshot_fails() {
    let db = temp_db();
    assert!(matches!(yours_snapshot_better(&db, "[]"), Err(RaftError::Json(_))));
}

#[test]
fn peers_vote_rules() {
    let mut db = temp_db();
    update_set_from_set(&mut db, "snapshots_ids", &strings(&["1"])).unwrap();
    let leader = node("leader");
    assert_eq!(resp_peers_vote(&leader, &db, "[\"1\"]", false).unwrap(), "fail");
    assert!(!vote_needs_leader_check(&leader));
    let follower = node("follower");
    assert!(vote_needs_leader_check(&follower));
    assert_eq!(resp_peers_vote(&follower, &db, "[\"1\"]", true).unwrap(), "fail");
    assert_eq!(resp_peers_vote(&follower, &db, "[\"2\"]", false).unwrap(), "fail");
    assert_eq!(resp_peers_vote(&follower, &db, "[\"1\",\"2\"]", false).unwrap(), "success");
}

#[test]
fn leader_change_makes_a_follower() {
    let mut rv = node("candidate");
    assert_eq!(resp_leader_change(&mut rv, "9.9.9.9:9").unwrap(), "fail");
    assert_eq!(rv.role(), "follower");
    assert_eq!(rv.leader_url(), "9.9.9.9:9");
}

#[test]
fn dispatch_routes_requests() {
    let mut db = temp_db();
    let conf = ConfigRaft::default();
    let mut rv = node("leader");
    assert_eq!(dispatch_post(&Which::heart_beat, "", &mut rv, &mut db, &conf, false, "1"), "success");
    assert_eq!(dispatch_post(&Which::confirm_leader, "", &mut rv, &mut db, &conf, false, "1"), "leader");
    assert_eq!(
        dispatch_post(&Which::ask_leader, "", &mut rv, &mut db, &conf, false, "1"),
        "raft error from leader: the leader url of mine is emtpy too"
    );
    assert_eq!(
        dispatch_post(&Which::send_data, "x", &mut rv, &mut db, &conf, false, "1"),
        "raft error from leader: not match"
    );
    assert_eq!(dispatch_post(&Which::append_entry, "data", &mut rv, &mut db, &conf, false, "42"), "42");
    assert_eq!(dispatch_post(&Which::query_id, "42", &mut rv, &mut db, &conf, false, "1"), "data");
    assert_eq!(dispatch_post(&Which::snapshot_ids, "", &mut rv, &mut db, &conf, false, "1"), "[\"42\"]");
    assert_eq!(dispatch_post(&Which::leader_change, "5.5.5.5:5", &mut rv, &mut db, &conf, false, "1"), "fail");
    assert_eq!(rv.role(), "follower");
    assert_eq!(rv.leader_url(), "5.5.5.5:5");
}

#[test]
fn reply_words() {
    assert!(confirm_leader_reply("leader"));
    assert!(!confirm_leader_reply("follower"));
    assert!(heart_beat_reply("success"));
    assert!(!heart_beat_reply("fail"));
}

#[test]
fn store_peer_urls_drops_own_url() {
    let mut db = temp_db();
    let ok = store_peer_urls(&mut db, "[\"a:1\",\"me:2\",\"b:3\"]", "me:2").unwrap();
    assert!(ok);
    let mut peers = load_peers(&db).unwrap();
    peers.sort();
    assert_eq!(peers, strings(&["a:1", "b:3"]));
    assert!(matches!(store_peer_urls(&mut db, "oops", "me:2"), Err(RaftError::Json(_))));
}

#[test]
fn load_peers_without_peers_fails() {
    let db = temp_db();
    assert!(matches!(load_peers(&db), Err(RaftError::Json(_))));
}

#[test]
fn store_snapshot_ids_replaces_the_set() {
    let mut db = temp_db();
    update_set_from_str(&mut db, "snapshots_ids", "old").unwrap();
    let mut got = store_snapshot_ids(&mut db, "[\"x\",\"y\",\"x\"]").unwrap();
    got.sort();
    assert_eq!(got, strings(&["x", "y"]));
    let mut stored = read_set(&db, "snapshots_ids").unwrap();
    stored.sort();
    assert_eq!(stored, strings(&["x", "y"]));
}

#[test]
fn check_i_am_leader_counts_votes() {
    let mut db = temp_db();
    let score = vec![
        ("a".to_string(), "success".to_string()),
        ("b".to_string(), "fail".to_string()),
        ("c".to_string(), "none".to_string()),
    ];
    assert_eq!(check_i_am_leader(&mut db, &score).unwrap(), true);
    let mut peers = read_set(&db, "peer_urls").unwrap();
    peers.sort();
    assert_eq!(peers, strings(&["a", "b"]));
    let score = vec![
        ("a".to_string(), "fail".to_string()),
        ("b".to_string(), "fail".to_string()),
        ("c".to_string(), "success".to_string()),
    ];
    assert_eq!(check_i_am_leader(&mut db, &score).unwrap(), false);
}

#[test]
fn check_i_am_leader_without_answers_keeps_peers() {
    let mut db = temp_db();
    update_set_from_str(&mut db, "peer_urls", "p").unwrap();
    let score = vec![("a".to_string(), "none".to_string())];
    assert_eq!(check_i_am_leader(&mut db, &score).unwrap(), true);
    assert_eq!(read_set(&db, "peer_urls").unwrap(), strings(&["p"]));
}

#[test]
fn follower_round_plans() {
    let conf = ConfigRaft::default();
    let mut rv = node("follower");
    let mut clock = LoopClock::new(100);
    // answered heart beat, nothing due
    let p = follower_round(&mut rv, &mut clock, &conf, true, 105);
    assert!(!p.become_candidate && !p.ask_peer_urls && !p.ask_snapshot_ids);
    assert_eq!(clock.last_heart_beat, 105);
    assert_eq!(clock.last_snapshot_ids, 100);
    // a live leader does not hold back the fetches
    let p = follower_round(&mut rv, &mut clock, &conf, true, 111);
    assert!(!p.become_candidate && p.ask_peer_urls && p.ask_snapshot_ids);
    assert_eq!(clock, LoopClock { last_heart_beat: 111, last_peer_urls: 111, last_snapshot_ids: 111, last_clear: 100 });
    assert_eq!(rv.role(), "follower");
    // no answer, election tick not yet passed since the last answer
    let p = follower_round(&mut rv, &mut clock, &conf, false, 115);
    assert!(!p.become_candidate && !p.ask_snapshot_ids);
    assert_eq!(clock.last_heart_beat, 111);
    // no answer for more than the election tick
    let p = follower_round(&mut rv, &mut clock, &conf, false, 122);
    assert!(p.become_candidate && p.ask_peer_urls && p.ask_snapshot_ids);
    assert_eq!(rv.role(), "candidate");
    assert_eq!(clock.last_heart_beat, 122);
}

#[test]
fn snapshot_fetch_every_tick_with_a_live_leader() {
    let conf = ConfigRaft::default();
    let mut rv = node("follower");
    let mut clock = LoopClock::new(0);
    let mut fetches = Vec::new();
    for now in 1..=40 {
        let p = follower_round(&mut rv, &mut clock, &conf, true, now);
        if p.ask_snapshot_ids {
            fetches.push(now);
        }
        assert!(now - clock.last_snapshot_ids <= conf.update_snapshot_tick);
    }
    assert_eq!(fetches, vec![11, 22, 33]);
    assert_eq!(rv.role(), "follower");
}

#[test]
fn leader_clears_once_per_tick() {
    let conf = ConfigRaft::default();
    let mut clock = LoopClock::new(0);
    assert!(!leader_round(&mut clock, &conf, 1000));
    assert!(leader_round(&mut clock, &conf, 1001));
    assert_eq!(clock.last_clear, 1001);
    assert!(!leader_round(&mut clock, &conf, 1500));
    assert!(leader_round(&mut clock, &conf, 2002));
}

#[test]
fn candidate_round_winner_leads() {
    let conf = ConfigRaft::default();
    let mut rv = node("candidate");
    assert_eq!(candidate_round(&mut rv, &conf, true), CandidateNext::ChangeLeader);
    assert_eq!(rv.role(), "leader");
    assert_eq!(rv.leader_url(), "127.0.0.1:8442");
    let mut rv = node("candidate");
    assert_eq!(candidate_round(&mut rv, &conf, false), CandidateNext::FindLeaderAgain);
    assert_eq!(rv.role(), "candidate");
}

#[test]
fn leader_search_step_follows_a_confirmed_leader() {
    let mut rv = node("candidate");
    rv.set_leader_url("x:1");
    assert!(!leader_search_step(&mut rv, false));
    assert_eq!(rv.role(), "candidate");
    assert!(leader_search_step(&mut rv, true));
    assert_eq!(rv.role(), "follower");
    assert_eq!(rv.leader_url(), "x:1");
}

#[test]
fn round_role_reads_the_role() {
    assert_eq!(round_role(&node("leader")), Some(Role::leader));
    assert_eq!(round_role(&node("candidate")), Some(Role::candidate));
    assert_eq!(round_role(&node("follower")), Some(Role::follower));
    assert_eq!(round_role(&node("other")), None);
}

#[test]
fn stale_keys_lists_what_clearing_removes() {
    let keys = vec![b"1".to_vec(), b"2".to_vec(), b"peer_urls".to_vec(), b"3".to_vec()];
    let ids: VecDeque<String> = vec!["2".to_string()].into();
    let (stale, err) = stale_keys(&keys, &ids);
    assert!(err.is_none());
    assert_eq!(stale, strings(&["1", "3"]));
    let keys = vec![b"1".to_vec(), vec![0xff], b"3".to_vec()];
    let (stale, err) = stale_keys(&keys, &ids);
    assert!(matches!(err, Some(RaftError::Utf8(_))));
    assert_eq!(stale, strings(&["1"]));
}

#[test]
fn clear_db_keeps_kept_ids_and_peers() {
    let mut db = temp_db();
    insert(&mut db, "1", "a").unwrap();
    insert(&mut db, "2", "b").unwrap();
    insert(&mut db, "peer_urls", "[]").unwrap();
    let ids: VecDeque<String> = vec!["2".to_string()].into();
    clear_db(&mut db, &ids).unwrap();
    assert_eq!(get(&db, "1").unwrap(), "");
    assert_eq!(get(&db, "2").unwrap(), "b");
    assert_eq!(db.len(), 2);
    assert_eq!(get(&db, "peer_urls").unwrap(), "[]");
}

#[test]
fn clear_db_reports_a_non_utf8_key() {
    let mut db = temp_db();
    insert(&mut db, "1", "a").unwrap();
    db.insert(vec![0xffu8], b"v".to_vec()).unwrap();
    let ids: VecDeque<String> = VecDeque::new();
    assert!(matches!(clear_db(&mut db, &ids), Err(RaftError::Utf8(_))));
    assert_eq!(get(&db, "1").unwrap(), "");
}

#[test]
fn handle_gives_each_handler_result() {
    let mut db = temp_db();
    let conf = ConfigRaft::default();
    let mut rv = node("follower");
    assert_eq!(handle(&Which::send_data, "", &mut rv, &mut db, &conf, false, "1"), Err(RaftError::NotMatch));
    assert_eq!(handle(&Which::ask_leader, "", &mut rv, &mut db, &conf, false, "1"), Err(RaftError::LeaderUrlEmpty));
    assert_eq!(handle(&Which::snapshot_ids, "", &mut rv, &mut db, &conf, false, "1"), Ok("[]".to_string()));
    assert_eq!(
        handle(&Which::peer_urls, "p:1", &mut rv, &mut db, &conf, false, "1"),
        Ok("[\"p:1\",\"127.0.0.1:8442\"]".to_string())
    );
    assert_eq!(dispatch_post(&Which::peer_vote, "[]", &mut rv, &mut db, &conf, false, "1"), "raft error from leader: EOF while parsing a value at line 1 column 0");
}

#[test]
fn snapshot_compare_is_inclusion_of_json_sets() {
    assert_eq!(snapshot_compare("[\"1\"]", "[\"1\",\"2\"]"), Ok(true));
    assert_eq!(snapshot_compare("[\"1\",\"3\"]", "[\"1\",\"2\"]"), Ok(false));
    assert_eq!(snapshot_compare("[]", "[]"), Ok(true));
    assert!(matches!(snapshot_compare("", "[]"), Err(RaftError::Json(_))));
    assert!(matches!(snapshot_compare("[]", "{}"), Err(RaftError::Json(_))));
}

#[test]
fn vote_reply_per_comparison() {
    assert_eq!(vote_reply(Ok(true)), Ok("success".to_string()));
    assert_eq!(vote_reply(Ok(false)), Ok("fail".to_string()));
    assert_eq!(vote_reply(Err(RaftError::NotMatch)), Err(RaftError::NotMatch));
}

#[test]
fn store_replies_succeed_on_json_arrays() {
    let mut db = temp_db();
    assert_eq!(store_peer_urls(&mut db, "[]", "me").unwrap(), true);
    assert!(store_snapshot_ids(&mut db, "[]").unwrap().is_empty());
    assert!(matches!(store_snapshot_ids(&mut db, "[1]"), Err(RaftError::Json(_))));
}
