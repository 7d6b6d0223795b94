//! The status codes the server answers with.

use vstd::prelude::*;
use vstd::utf8::is_ascii_chars;

verus! {

/// The status of a response.
#[derive(Clone, Copy, Debug, PartialEq, Eq, Structural)]
pub enum StatusCode {
    Okay,
    Created,
    NotFound,
    InternalServerError,
}

impl StatusCode {
    /// The number of the status.
    pub open spec fn spec_code(&self) -> u16 {
        match self {
            StatusCode::Okay => 200,
            StatusCode::Created => 201,
            StatusCode::NotFound => 404,
            StatusCode::InternalServerError => 500,
        }
    }

    /// The reason phrase that follows the number in a status line.
    pub open spec fn spec_reason_phrase(&self) -> Seq<char> {
        match self {
            StatusCode::Okay => "OK"@,
            StatusCode::Created => "Created"@,
            StatusCode::NotFound => "Not Found"@,
            StatusCode::InternalServerError => "Internal Server Error"@,
        }
    }

    /// The status with the number `code`, if there is one.
    pub open spec fn spec_from_code(code: u64) -> Option<StatusCode> {
        if code == 200 {
            Some(StatusCode::Okay)
        } else if code == 201 {
            Some(StatusCode::Created)
        } else if code == 404 {
            Some(StatusCode::NotFound)
        } else if code == 500 {
            Some(StatusCode::InternalServerError)
        } else {
            None
        }
    }

    /// The number of the status.
    #[verifier::when_used_as_spec(spec_code)]
    pub fn code(&self) -> (n: u16)
        ensures
            n == self.spec_code(),
    {
        match self {
            StatusCode::Okay => 200,
            StatusCode::Created => 201,
            StatusCode::NotFound => 404,
            StatusCode::InternalServerError => 500,
        }
    }

    /// The reason phrase that follows the number in a status line.
    pub fn reason_phrase(&self) -> (s: &'static str)
        ensures
            s@ == self.spec_reason_phrase(),
            is_ascii_chars(s@),
    {
        proof {
            reveal_strlit("OK");
            reveal_strlit("Created");
            reveal_strlit("Not Found");
            reveal_strlit("Internal Server Error");
        }
        match self {
            StatusCode::Okay => "OK",
            StatusCode::Created => "Created",
            StatusCode::NotFound => "Not Found",
            StatusCode::InternalServerError => "Internal Server Error",
        }
    }

    /// The status with the number `code`, if there is one.
    pub fn from_code(code: u64) -> (r: Option<StatusCode>)
        ensures
            r == Self::spec_from_code(code),
    {
        if code == 200 {
            Some(StatusCode::Okay)
        } else if code == 201 {
            Some(StatusCode::Created)
        } else if code == 404 {
            Some(StatusCode::NotFound)
        } else if code == 500 {
            Some(StatusCode::InternalServerError)
        } else {
            None
        }
    }
}

} // verus!
