use vstd::prelude::*;

verus! {

/// Why an operation of this library failed.
#[derive(Clone, Debug, PartialEq, Eq)]
pub enum RaftError {
    /// The key-value store reported an error; its text.
    Db(String),
    /// A JSON text could not be read or written; the error's text.
    Json(String),
    /// A stored value is not valid UTF-8; the error's text.
    Utf8(String),
    /// This node does not know a leader.
    LeaderUrlEmpty,
    /// A request kind that no handler answers.
    NotMatch,
    /// A node tried to post to its own url.
    PostToSelf,
    /// A node tried to get from its own url.
    GetToSelf,
}

impl RaftError {
    /// The text that reports this error.
    pub open spec fn spec_message(&self) -> Seq<char> {
        match self {
            RaftError::Db(t) => t@,
            RaftError::Json(t) => t@,
            RaftError::Utf8(t) => t@,
            RaftError::LeaderUrlEmpty => "the leader url of mine is emtpy too"@,
            RaftError::NotMatch => "not match"@,
            RaftError::PostToSelf => "can not post to self"@,
            RaftError::GetToSelf => "can not get to self"@,
        }
    }

    pub fn message(&self) -> (r: String)
        ensures
            r@ == self.spec_message(),
    {
        match self {
            RaftError::Db(t) => t.clone(),
            RaftError::Json(t) => t.clone(),
            RaftError::Utf8(t) => t.clone(),
            RaftError::LeaderUrlEmpty => "the leader url of mine is emtpy too".to_owned(),
            RaftError::NotMatch => "not match".to_owned(),
            RaftError::PostToSelf => "can not post to self".to_owned(),
            RaftError::GetToSelf => "can not get to self".to_owned(),
        }
    }
}

} // verus!
