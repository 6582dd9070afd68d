pub mod db;
pub mod error;
pub mod raft_conf;
pub mod raft_enum;
pub mod raft_run;
pub mod req;
pub mod resp;
