//! The parts of HTTP that the service decides on.
use vstd::prelude::*;

verus! {

/// A request's method.
#[derive(Debug, Clone, Copy, PartialEq, Eq, Structural)]
pub enum Method {
    /// `GET`.
    Get,
    /// `POST`.
    Post,
    /// Any other.
    Other,
}

/// The status of an answer.
#[derive(Debug, Clone, Copy, PartialEq, Eq, Structural)]
pub enum Status {
    /// Done.
    Success,
    /// The request makes no sense.
    BadRequest,
    /// There is nothing at this path.
    NotFound,
    /// There is something at this path, but not for this method.
    MethodNotAllowed,
    /// The body is too long.
    PayloadTooLarge,
    /// The body is not of a type that is taken here.
    UnsupportedMediaType,
    /// The request is fine, but what it asks for failed.
    InternalServerError,
}

impl Status {
    /// The number of a status.
    pub open spec fn spec_code(self) -> u16 {
        match self {
            Status::Success => 200,
            Status::BadRequest => 400,
            Status::NotFound => 404,
            Status::MethodNotAllowed => 405,
            Status::PayloadTooLarge => 413,
            Status::UnsupportedMediaType => 415,
            Status::InternalServerError => 500,
        }
    }

    /// The number of a status.
    pub fn code(self) -> (code: u16)
        ensures
            code == self.spec_code(),
    {
        match self {
            Status::Success => 200,
            Status::BadRequest => 400,
            Status::NotFound => 404,
            Status::MethodNotAllowed => 405,
            Status::PayloadTooLarge => 413,
            Status::UnsupportedMediaType => 415,
            Status::InternalServerError => 500,
        }
    }
}

/// What reading a request's body came to.
pub enum Body {
    /// The whole body.
    Complete(Vec<u8>),
    /// It is longer than what is read.
    TooLarge,
    /// It broke off.
    Failed,
}

/// Each status has the number that HTTP gives it.
pub proof fn law_numbers_of_statuses(status: Status)
    ensures
        status.spec_code() == 200 <==> status == Status::Success,
        status.spec_code() == 400 <==> status == Status::BadRequest,
        status.spec_code() == 404 <==> status == Status::NotFound,
        status.spec_code() == 405 <==> status == Status::MethodNotAllowed,
        status.spec_code() == 413 <==> status == Status::PayloadTooLarge,
        status.spec_code() == 415 <==> status == Status::UnsupportedMediaType,
        status.spec_code() == 500 <==> status == Status::InternalServerError,
{
}

} // verus!
