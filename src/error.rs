use vstd::prelude::*;

verus! {

/// The kinds of failure that a catalog operation reports to its caller.
#[derive(Debug)]
pub enum ServiceError {
    /// Persistence failed, or an internal invariant was found broken.
    InternalError(String),
    /// A referenced identity does not exist.
    NotFound(String),
    /// An identity is already taken.
    AlreadyExists(String),
    /// Malformed input text, or an invalid cross-reference.
    BadRequest(String),
}

pub type ServiceResult<T> = Result<T, ServiceError>;

impl ServiceError {
    /// The message carried by the error, whatever its kind.
    pub open spec fn msg(&self) -> Seq<char> {
        match self {
            ServiceError::InternalError(m) => m@,
            ServiceError::NotFound(m) => m@,
            ServiceError::AlreadyExists(m) => m@,
            ServiceError::BadRequest(m) => m@,
        }
    }

    pub fn internal_error(msg: &str) -> (r: Self)
        ensures
            r is InternalError,
            r.msg() == msg@,
    {
        ServiceError::InternalError(String::from_str(msg))
    }

    pub fn not_found(msg: &str) -> (r: Self)
        ensures
            r is NotFound,
            r.msg() == msg@,
    {
        ServiceError::NotFound(String::from_str(msg))
    }

    pub fn already_exist(msg: &str) -> (r: Self)
        ensures
            r is AlreadyExists,
            r.msg() == msg@,
    {
        ServiceError::AlreadyExists(String::from_str(msg))
    }

    pub fn bad_request(msg: &str) -> (r: Self)
        ensures
            r is BadRequest,
            r.msg() == msg@,
    {
        ServiceError::BadRequest(String::from_str(msg))
    }

    /// The message as text, as it is shown to a client.
    pub fn message(&self) -> (r: String)
        ensures
            r@ == self.msg(),
    {
        match self {
            ServiceError::InternalError(m) => m.clone(),
            ServiceError::NotFound(m) => m.clone(),
            ServiceError::AlreadyExists(m) => m.clone(),
            ServiceError::BadRequest(m) => m.clone(),
        }
    }
}

} // verus!
