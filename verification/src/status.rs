//! The status codes that a response can carry.

use vstd::prelude::*;

verus! {

/// The status of a response. The set is closed: a response built from a
/// `StatusCode` carries one of these four numbers with its reason phrase.
#[derive(Clone, Copy, Debug, PartialEq, Eq, Structural)]
pub enum StatusCode {
    OK,
    BadRequest,
    NotFound,
    InternalServerError,
}

impl StatusCode {
    /// The number of the status.
    pub open spec fn code(self) -> u16 {
        match self {
            StatusCode::OK => 200,
            StatusCode::BadRequest => 400,
            StatusCode::NotFound => 404,
            StatusCode::InternalServerError => 500,
        }
    }

    /// The reason phrase of the status.
    pub open spec fn reason(self) -> Seq<char> {
        match self {
            StatusCode::OK => "OK"@,
            StatusCode::BadRequest => "Bad Request"@,
            StatusCode::NotFound => "Not Found"@,
            StatusCode::InternalServerError => "Internal Server Error"@,
        }
    }

    /// The reason phrase that goes with the status.
    pub fn to_msg(&self) -> (msg: &'static str)
        ensures
            msg@ == self.reason(),
    {
        match self {
            StatusCode::OK => "OK",
            StatusCode::BadRequest => "Bad Request",
            StatusCode::NotFound => "Not Found",
            StatusCode::InternalServerError => "Internal Server Error",
        }
    }

    /// The number that goes with the status.
    pub fn to_code(&self) -> (code: u16)
        ensures
            code == self.code(),
    {
        match self {
            StatusCode::OK => 200,
            StatusCode::BadRequest => 400,
            StatusCode::NotFound => 404,
            StatusCode::InternalServerError => 500,
        }
    }
}

} // verus!
