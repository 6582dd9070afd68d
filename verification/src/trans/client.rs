//! Where a node sends its requests.
use vstd::prelude::*;
use vstd::string::StringExecFns;
use crate::wrappers::str_eq;
use crate::raft::error::RaftError;

verus! {

/// The address a request to the url is posted to; a node never posts to
/// itself.
pub fn post_target(url_me: &str, url: &str) -> (r: Result<String, RaftError>)
    ensures
        r is Err <==> url@ == url_me@,
        r matches Err(e) ==> e is PostToSelf,
        r matches Ok(t) ==> t@ == "https://"@ + url@ + "/"@,
{
    if str_eq(url_me, url) {
        return Err(RaftError::PostToSelf);
    }
    let mut target = "https://".to_owned();
    target.append(url);
    target.append("/");
    Ok(target)
}

/// Checks that a get request does not go to the node itself.
pub fn get_target(url_me: &str, url: &str) -> (r: Result<(), RaftError>)
    ensures
        r is Err <==> url@ == url_me@,
        r matches Err(e) ==> e is GetToSelf,
{
    if str_eq(url_me, url) {
        return Err(RaftError::GetToSelf);
    }
    Ok(())
}

} // verus!
