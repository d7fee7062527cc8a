//! What a request can fail with, and what the client is told of it.

use vstd::prelude::*;

verus! {

/// Why a request was not served.
#[derive(Debug)]
pub enum AppError {
    NotFound,
    Forbidden,
    PasswordRequired,
    IncorrectPassword,
    RateLimited,
    BadRequest(String),
    Internal(String),
}

/// An [`AppError`] with its text as characters.
pub enum ErrorView {
    NotFound,
    Forbidden,
    PasswordRequired,
    IncorrectPassword,
    RateLimited,
    BadRequest(Seq<char>),
    Internal(Seq<char>),
}

impl View for AppError {
    type V = ErrorView;

    open spec fn view(&self) -> ErrorView {
        match *self {
            AppError::NotFound => ErrorView::NotFound,
            AppError::Forbidden => ErrorView::Forbidden,
            AppError::PasswordRequired => ErrorView::PasswordRequired,
            AppError::IncorrectPassword => ErrorView::IncorrectPassword,
            AppError::RateLimited => ErrorView::RateLimited,
            AppError::BadRequest(m) => ErrorView::BadRequest(m@),
            AppError::Internal(m) => ErrorView::Internal(m@),
        }
    }
}

/// The answer to a failed request: the HTTP status, and the text that stands
/// under `error` in the JSON body.
#[derive(Debug)]
pub struct ErrorReply {
    pub status: u16,
    pub error: String,
}

/// The status that a client is answered with.
pub open spec fn status_of(e: ErrorView) -> u16 {
    match e {
        ErrorView::NotFound => 404,
        ErrorView::Forbidden => 403,
        ErrorView::PasswordRequired => 401,
        ErrorView::IncorrectPassword => 401,
        ErrorView::RateLimited => 429,
        ErrorView::BadRequest(_) => 400,
        ErrorView::Internal(_) => 500,
    }
}

/// The text that a client is answered with. What went wrong inside the server
/// is not part of it.
pub open spec fn text_told(e: ErrorView) -> Seq<char> {
    match e {
        ErrorView::NotFound => "not found"@,
        ErrorView::Forbidden => "forbidden"@,
        ErrorView::PasswordRequired => "password required"@,
        ErrorView::IncorrectPassword => "incorrect password"@,
        ErrorView::RateLimited => "too many requests, slow down"@,
        ErrorView::BadRequest(m) => m,
        ErrorView::Internal(_) => "internal server error"@,
    }
}

/// The error in one line, as it stands in a log.
pub open spec fn log_line(e: ErrorView) -> Seq<char> {
    match e {
        ErrorView::NotFound => "not found"@,
        ErrorView::Forbidden => "forbidden"@,
        ErrorView::PasswordRequired => "password required"@,
        ErrorView::IncorrectPassword => "incorrect password"@,
        ErrorView::RateLimited => "rate limited"@,
        ErrorView::BadRequest(m) => "bad request: "@ + m,
        ErrorView::Internal(_) => "internal error"@,
    }
}

impl AppError {
    /// The answer to the client.
    pub fn into_response(self) -> (r: ErrorReply)
        ensures
            r.status == status_of(self@),
            r.error@ == text_told(self@),
    {
        match self {
            AppError::NotFound => ErrorReply { status: 404, error: "not found".to_string() },
            AppError::Forbidden => ErrorReply { status: 403, error: "forbidden".to_string() },
            AppError::PasswordRequired => ErrorReply {
                status: 401,
                error: "password required".to_string(),
            },
            AppError::IncorrectPassword => ErrorReply {
                status: 401,
                error: "incorrect password".to_string(),
            },
            AppError::RateLimited => ErrorReply {
                status: 429,
                error: "too many requests, slow down".to_string(),
            },
            AppError::BadRequest(m) => ErrorReply { status: 400, error: m },
            AppError::Internal(_) => ErrorReply {
                status: 500,
                error: "internal server error".to_string(),
            },
        }
    }

    /// The error in one line.
    pub fn to_text(&self) -> (r: String)
        ensures
            r@ == log_line(self@),
    {
        match self {
            AppError::NotFound => "not found".to_string(),
            AppError::Forbidden => "forbidden".to_string(),
            AppError::PasswordRequired => "password required".to_string(),
            AppError::IncorrectPassword => "incorrect password".to_string(),
            AppError::RateLimited => "rate limited".to_string(),
            AppError::BadRequest(m) => {
                let mut out = "bad request: ".to_string();
                out.append(m.as_str());
                out
            },
            AppError::Internal(_) => "internal error".to_string(),
        }
    }
}

/// A client cannot tell two failures inside the server apart.
pub proof fn law_internal_detail_is_not_told(a: Seq<char>, b: Seq<char>)
    ensures
        status_of(ErrorView::Internal(a)) == status_of(ErrorView::Internal(b)),
        text_told(ErrorView::Internal(a)) == text_told(ErrorView::Internal(b)),
{
}

} // verus!
