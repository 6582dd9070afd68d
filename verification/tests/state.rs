use std::collections::VecDeque;
use rust_raft::raft::raft_conf::{ConfigRaft, RaftVar};
use rust_raft::raft::raft_enum::{Fields, Role, Which};
use rust_raft::raft::error::RaftError;
use rust_raft::trans::server::init_app;
use rust_raft::trans::client::{get_target, post_target};
use rust_raft::trans::handle_post::Msg;

fn conf_with(size: i64) -> ConfigRaft {
    let mut c = ConfigRaft::default();
    c.snapshot_numbers = size;
    c
}

fn ids(v: &VecDeque<String>) -> Vec<String> {
    v.iter().cloned().collect()
}

#[test]
fn names_of_enums() {
    assert_eq!(Role::leader.name(), "leader");
    assert_eq!(Role::candidate.name(), "candidate");
    assert_eq!(Role::follower.name(), "follower");
    assert_eq!(Which::ask_leader.name(), "ask_leader");
    assert_eq!(Which::peer_vote.name(), "peer_vote");
    assert_eq!(Which::query_id.name(), "query_id");
    assert_eq!(Fields::snapshots_ids.name(), "snapshots_ids");
    assert_eq!(Fields::peer_urls.name(), "peer_urls");
    assert_eq!(Fields::success.name(), "success");
    assert_eq!(Fields::fail.name(), "fail");
    assert_eq!(Fields::none.name(), "none");
}

#[test]
fn default_config() {
    let c = ConfigRaft::default();
    assert_eq!(c.heartbeat_tick, 1);
    assert_eq!(c.election_tick, 10);
    assert_eq!(c.update_peers_tick, 10);
    assert_eq!(c.update_snapshot_tick, 10);
    assert_eq!(c.clear_db_tick, 1000);
    assert_eq!(c.snapshot_numbers, 1000);
    assert!(c.first_node);
    assert_eq!(c.url_me, "127.0.0.1:8442");
    assert_eq!(c.url_peer, "127.0.0.1:8442");
    assert_eq!(c.tls_cert, "./data/tls/cert.pem");
    assert_eq!(c.tls_key, "./data/tls/key.pem");
}

#[test]
fn default_raft_var_is_an_empty_follower() {
    let rv = RaftVar::default(&ConfigRaft::default());
    assert_eq!(rv.role(), "follower");
    assert_eq!(rv.leader_url(), "");
    assert!(rv.snap_ids().is_empty());
    assert_eq!(rv.snap_size, 1000);
    assert!(rv.has_role(Role::follower));
    assert!(!rv.has_role(Role::leader));
}

#[test]
fn add_snap_ids_keeps_the_latest_newest_first() {
    let mut rv = RaftVar::default(&conf_with(3));
    for id in ["a", "b", "c", "d", "e"] {
        rv.add_snap_ids(id);
        assert!(rv.snap_ids().len() <= 3);
    }
    assert_eq!(ids(&rv.snap_ids()), vec!["e", "d", "c"]);
}

#[test]
fn add_snap_ids_below_the_size_keeps_all() {
    let mut rv = RaftVar::default(&conf_with(3));
    rv.add_snap_ids("a");
    rv.add_snap_ids("b");
    assert_eq!(ids(&rv.snap_ids()), vec!["b", "a"]);
}

#[test]
fn snapshot_of_size_zero_stays_empty() {
    let mut rv = RaftVar::default(&conf_with(0));
    rv.add_snap_ids("a");
    assert!(rv.snap_ids().is_empty());
}

#[test]
fn replace_snap_ids_cuts_to_the_size() {
    let mut rv = RaftVar::default(&conf_with(2));
    let given: VecDeque<String> = vec!["x".to_string(), "y".to_string(), "z".to_string()].into();
    rv.replace_snap_ids(given);
    assert_eq!(ids(&rv.snap_ids()), vec!["x", "y"]);
    let short: VecDeque<String> = vec!["q".to_string()].into();
    rv.replace_snap_ids(short);
    assert_eq!(ids(&rv.snap_ids()), vec!["q"]);
}

#[test]
fn setters_are_read_back() {
    let mut rv = RaftVar::default(&ConfigRaft::default());
    rv.set_role("candidate");
    rv.set_leader_url("10.0.0.1:1");
    assert_eq!(rv.role(), "candidate");
    assert_eq!(rv.leader_url(), "10.0.0.1:1");
    assert!(rv.has_role(Role::candidate));
}

#[test]
fn init_app_first_node_leads() {
    let conf = ConfigRaft::default();
    let mut rv = RaftVar::default(&conf);
    assert!(init_app(&conf, &mut rv).is_ok());
    assert_eq!(rv.role(), "leader");
    assert_eq!(rv.leader_url(), "127.0.0.1:8442");
}

#[test]
fn init_app_other_node_keeps_state() {
    let mut conf = ConfigRaft::default();
    conf.first_node = false;
    let mut rv = RaftVar::default(&conf);
    assert!(init_app(&conf, &mut rv).is_ok());
    assert_eq!(rv.role(), "follower");
    assert_eq!(rv.leader_url(), "");
}

#[test]
fn post_target_refuses_self_and_builds_https_url() {
    assert_eq!(post_target("127.0.0.1:1", "127.0.0.1:1"), Err(RaftError::PostToSelf));
    assert_eq!(post_target("127.0.0.1:1", "127.0.0.1:2").unwrap(), "https://127.0.0.1:2/");
    assert_eq!(get_target("a", "a"), Err(RaftError::GetToSelf));
    assert_eq!(get_target("a", "b"), Ok(()));
}

#[test]
fn error_messages() {
    assert_eq!(RaftError::LeaderUrlEmpty.message(), "the leader url of mine is emtpy too");
    assert_eq!(RaftError::NotMatch.message(), "not match");
    assert_eq!(RaftError::PostToSelf.message(), "can not post to self");
    assert_eq!(RaftError::Db("x".to_string()).message(), "x");
}

#[test]
fn msg_holds_its_fields() {
    let m = Msg { which: Which::heart_beat, data: "d".to_string() };
    assert_eq!(m.which, Which::heart_beat);
    assert_eq!(m.data, "d");
}
