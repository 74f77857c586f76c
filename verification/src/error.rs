//! The ways in which an operation can fail.

use vstd::prelude::*;

verus! {

/// A request that the caller has to change before it can succeed.
#[derive(Clone, Copy, Debug, PartialEq, Eq, Structural)]
pub enum ParameterError {
    /// The title of a place is empty.
    Title,
    /// The license is none of those under which places are published.
    License,
    /// A coordinate lies outside the legal range.
    InvalidPosition,
    /// A link is no URL.
    InvalidUrl,
    /// A contact address is no e-mail address.
    InvalidEmail,
    /// No user has the given e-mail address.
    UserDoesNotExist,
    /// The acting user's role does not allow the action.
    Forbidden,
    /// Nobody is logged in.
    Unauthorized,
    /// A tag belongs to an organization that has not authorized its use.
    OwnedTag,
    /// A token is not of the form in which tokens are handed out.
    InvalidNonce,
    /// A token is no longer good.
    TokenExpired,
    /// A rating comes without a comment.
    EmptyComment,
    /// The value of a rating lies outside the legal range.
    RatingValue,
}

/// A failure of the store.
#[derive(Debug, PartialEq, Eq)]
pub enum RepoError {
    /// Nothing is stored under the given key.
    NotFound,
    /// More than one record is stored under a key that should be unique.
    TooManyFound,
    /// The record was changed by someone else in the meantime.
    Conflict,
    /// Anything else, with a description of the cause.
    Other(String),
}

/// Any failure of the library.
#[derive(Debug, PartialEq, Eq)]
pub enum Error {
    Parameter(ParameterError),
    Repo(RepoError),
}

/// The kind of a failure, without its cause.
#[derive(Clone, Copy, Debug, PartialEq, Eq, Structural)]
pub enum ErrorKind {
    NotFound,
    TooManyFound,
    Conflict,
    InvalidInput,
    Forbidden,
    Unauthorized,
    Other,
}

impl ParameterError {
    pub open spec fn spec_kind(self) -> ErrorKind {
        match self {
            ParameterError::Forbidden | ParameterError::OwnedTag => ErrorKind::Forbidden,
            ParameterError::Unauthorized => ErrorKind::Unauthorized,
            _ => ErrorKind::InvalidInput,
        }
    }

    pub fn kind(self) -> (k: ErrorKind)
        ensures
            k == self.spec_kind(),
    {
        match self {
            ParameterError::Forbidden | ParameterError::OwnedTag => ErrorKind::Forbidden,
            ParameterError::Unauthorized => ErrorKind::Unauthorized,
            _ => ErrorKind::InvalidInput,
        }
    }
}

impl RepoError {
    pub open spec fn spec_kind(self) -> ErrorKind {
        match self {
            RepoError::NotFound => ErrorKind::NotFound,
            RepoError::TooManyFound => ErrorKind::TooManyFound,
            RepoError::Conflict => ErrorKind::Conflict,
            RepoError::Other(_) => ErrorKind::Other,
        }
    }

    pub fn kind(&self) -> (k: ErrorKind)
        ensures
            k == self.spec_kind(),
    {
        match self {
            RepoError::NotFound => ErrorKind::NotFound,
            RepoError::TooManyFound => ErrorKind::TooManyFound,
            RepoError::Conflict => ErrorKind::Conflict,
            RepoError::Other(_) => ErrorKind::Other,
        }
    }
}

impl ErrorKind {
    /// The HTTP status code under which a failure of this kind is reported.
    pub open spec fn spec_http_status(self) -> u16 {
        match self {
            ErrorKind::NotFound => 404,
            ErrorKind::Forbidden => 403,
            ErrorKind::InvalidInput => 400,
            ErrorKind::Unauthorized => 401,
            ErrorKind::Conflict => 409,
            _ => 500,
        }
    }

    pub fn http_status(self) -> (code: u16)
        ensures
            code == self.spec_http_status(),
    {
        match self {
            ErrorKind::NotFound => 404,
            ErrorKind::Forbidden => 403,
            ErrorKind::InvalidInput => 400,
            ErrorKind::Unauthorized => 401,
            ErrorKind::Conflict => 409,
            _ => 500,
        }
    }
}

impl Error {
    pub open spec fn spec_kind(self) -> ErrorKind {
        match self {
            Error::Parameter(e) => e.spec_kind(),
            Error::Repo(e) => e.spec_kind(),
        }
    }

    pub fn kind(&self) -> (k: ErrorKind)
        ensures
            k == self.spec_kind(),
    {
        match self {
            Error::Parameter(e) => e.kind(),
            Error::Repo(e) => e.kind(),
        }
    }

    /// The HTTP status code under which the failure is reported.
    pub fn http_status(&self) -> (code: u16)
        ensures
            code == self.spec_kind().spec_http_status(),
    {
        self.kind().http_status()
    }
}

} // verus!
