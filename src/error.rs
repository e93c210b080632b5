use vstd::prelude::*;

verus! {

/// Errors reported by the broker to its callers.
#[derive(Debug)]
pub enum MegaphoneError {
    NotFound,
    Busy,
    InternalError(String),
    BadRequest(String),
    Timeout { secs: usize },
    Skipped,
}

/// The stable code of each error kind, used in the HTTP envelope and in
/// batch-write failure reports.
pub open spec fn code_of(e: &MegaphoneError) -> Seq<char> {
    match e {
        MegaphoneError::NotFound => "NOT_FOUND"@,
        MegaphoneError::Busy => "BUSY"@,
        MegaphoneError::InternalError(_) => "INTERNAL_SERVER_ERROR"@,
        MegaphoneError::BadRequest(_) => "BAD_REQUEST"@,
        MegaphoneError::Timeout { .. } => "TIMEOUT"@,
        MegaphoneError::Skipped => "SKIPPED"@,
    }
}

/// The HTTP status that carries each error kind.
pub open spec fn status_of(e: &MegaphoneError) -> u16 {
    match e {
        MegaphoneError::NotFound => 404,
        MegaphoneError::Busy => 409,
        MegaphoneError::InternalError(_) => 500,
        MegaphoneError::BadRequest(_) => 400,
        MegaphoneError::Timeout { .. } => 503,
        MegaphoneError::Skipped => 503,
    }
}

impl MegaphoneError {
    pub fn code(&self) -> (r: &'static str)
        ensures
            r@ == code_of(self),
    {
        match self {
            MegaphoneError::NotFound => "NOT_FOUND",
            MegaphoneError::Busy => "BUSY",
            MegaphoneError::InternalError(_) => "INTERNAL_SERVER_ERROR",
            MegaphoneError::BadRequest(_) => "BAD_REQUEST",
            MegaphoneError::Timeout { .. } => "TIMEOUT",
            MegaphoneError::Skipped => "SKIPPED",
        }
    }

    pub fn http_status(&self) -> (r: u16)
        ensures
            r == status_of(self),
    {
        match self {
            MegaphoneError::NotFound => 404,
            MegaphoneError::Busy => 409,
            MegaphoneError::InternalError(_) => 500,
            MegaphoneError::BadRequest(_) => 400,
            MegaphoneError::Timeout { .. } => 503,
            MegaphoneError::Skipped => 503,
        }
    }

    pub fn is_timeout(&self) -> (r: bool)
        ensures
            r == (self is Timeout),
    {
        match self {
            MegaphoneError::Timeout { .. } => true,
            _ => false,
        }
    }
}

} // verus!
