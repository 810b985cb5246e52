//! The error the zookeeper service answers a refused request with.
use vstd::prelude::*;

verus! {

/// The id an internal error is read back with when its JSON form does not carry one.
pub fn default_error_id() -> (r: &'static str)
    ensures
        r@ == ""@,
{
    proof {
        reveal_strlit("");
    }
    ""
}

/// What went wrong with a request, and so which status it is answered with.
#[derive(Debug)]
pub enum AntZookeeperError {
    /// A fault on the service's side; `id` names where it happened.
    InternalServerError { id: String },
    /// The request was malformed or not allowed.
    ValidationError(String),
    /// The request named something that does not exist.
    ResourceNotFound(String),
}

/// The HTTP status code that answers an error of each kind.
pub open spec fn status_of(e: AntZookeeperError) -> u16 {
    match e {
        AntZookeeperError::InternalServerError { .. } => 500,
        AntZookeeperError::ValidationError(_) => 400,
        AntZookeeperError::ResourceNotFound(_) => 400,
    }
}

impl AntZookeeperError {
    /// A validation error carrying `msg`.
    pub fn validation_msg(msg: &str) -> (r: AntZookeeperError)
        ensures
            r matches AntZookeeperError::ValidationError(m) && m@ == msg@,
    {
        AntZookeeperError::ValidationError(msg.to_string())
    }

    /// An internal error raised at the place named `id`.
    pub fn internal(id: &str) -> (r: AntZookeeperError)
        ensures
            r matches AntZookeeperError::InternalServerError { id: i } && i@ == id@,
    {
        AntZookeeperError::InternalServerError { id: id.to_string() }
    }

    /// The status code the error is answered with: 500 for an internal error, 400 otherwise.
    pub fn status_code(&self) -> (r: u16)
        ensures
            r == status_of(*self),
    {
        match self {
            AntZookeeperError::InternalServerError { .. } => 500,
            AntZookeeperError::ValidationError(_) => 400,
            AntZookeeperError::ResourceNotFound(_) => 400,
        }
    }
}

} // verus!
