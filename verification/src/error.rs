//! What a request is refused with.
use vstd::prelude::*;

verus! {

/// A refused request.
#[derive(Debug, PartialEq, Eq)]
pub enum ApiError {
    /// The addressed row does not exist.
    NotFound(String),
    /// The payload is wrong.
    BadRequest(String),
    /// The row is not in a state that admits this.
    Conflict(String),
    /// Not built yet.
    NotImplemented(String),
    /// A platform or the network failed.
    Upstream(String),
    /// Anything else; the cause is for the log, never for the client.
    Internal(String),
}

pub type ApiResult<T> = Result<T, ApiError>;

/// An error as plain mathematical values.
pub enum ErrorView {
    NotFound(Seq<char>),
    BadRequest(Seq<char>),
    Conflict(Seq<char>),
    NotImplemented(Seq<char>),
    Upstream(Seq<char>),
    Internal(Seq<char>),
}

impl View for ApiError {
    type V = ErrorView;

    open spec fn view(&self) -> ErrorView {
        match self {
            ApiError::NotFound(m) => ErrorView::NotFound(m@),
            ApiError::BadRequest(m) => ErrorView::BadRequest(m@),
            ApiError::Conflict(m) => ErrorView::Conflict(m@),
            ApiError::NotImplemented(m) => ErrorView::NotImplemented(m@),
            ApiError::Upstream(m) => ErrorView::Upstream(m@),
            ApiError::Internal(m) => ErrorView::Internal(m@),
        }
    }
}

impl ErrorView {
    pub open spec fn code_text(self) -> Seq<char> {
        match self {
            Self::NotFound(_) => "not_found"@,
            Self::BadRequest(_) => "bad_request"@,
            Self::Conflict(_) => "conflict"@,
            Self::NotImplemented(_) => "not_implemented"@,
            Self::Upstream(_) => "upstream_error"@,
            Self::Internal(_) => "internal_error"@,
        }
    }

    pub open spec fn http_status(self) -> u16 {
        match self {
            Self::NotFound(_) => 404,
            Self::BadRequest(_) => 400,
            Self::Conflict(_) => 409,
            Self::NotImplemented(_) => 501,
            Self::Upstream(_) => 502,
            Self::Internal(_) => 500,
        }
    }

    /// The text for a log.
    pub open spec fn full_text(self) -> Seq<char> {
        match self {
            Self::NotFound(m) => m + " not found"@,
            Self::NotImplemented(m) => m + " is not implemented yet"@,
            Self::BadRequest(m) => m,
            Self::Conflict(m) => m,
            Self::Upstream(m) => m,
            Self::Internal(m) => m,
        }
    }

    /// The text for the client: of an internal error, nothing of its cause.
    pub open spec fn client_text(self) -> Seq<char> {
        match self {
            Self::Internal(_) => "internal error"@,
            _ => self.full_text(),
        }
    }
}

impl ApiError {
    pub fn not_found(what: &str) -> (r: Self)
        ensures
            r@ == ErrorView::NotFound(what@),
    {
        Self::NotFound(what.to_owned())
    }

    pub fn bad_request(why: &str) -> (r: Self)
        ensures
            r@ == ErrorView::BadRequest(why@),
    {
        Self::BadRequest(why.to_owned())
    }

    pub fn conflict(why: &str) -> (r: Self)
        ensures
            r@ == ErrorView::Conflict(why@),
    {
        Self::Conflict(why.to_owned())
    }

    pub fn not_implemented(what: &str) -> (r: Self)
        ensures
            r@ == ErrorView::NotImplemented(what@),
    {
        Self::NotImplemented(what.to_owned())
    }

    pub fn upstream(what: &str) -> (r: Self)
        ensures
            r@ == ErrorView::Upstream(what@),
    {
        Self::Upstream(what.to_owned())
    }

    /// The machine-readable discriminator.
    pub fn code(&self) -> (r: &'static str)
        ensures
            r@ == self@.code_text(),
    {
        match self {
            Self::NotFound(_) => "not_found",
            Self::BadRequest(_) => "bad_request",
            Self::Conflict(_) => "conflict",
            Self::NotImplemented(_) => "not_implemented",
            Self::Upstream(_) => "upstream_error",
            Self::Internal(_) => "internal_error",
        }
    }

    /// The HTTP status.
    pub fn status(&self) -> (r: u16)
        ensures
            r == self@.http_status(),
    {
        match self {
            Self::NotFound(_) => 404,
            Self::BadRequest(_) => 400,
            Self::Conflict(_) => 409,
            Self::NotImplemented(_) => 501,
            Self::Upstream(_) => 502,
            Self::Internal(_) => 500,
        }
    }

    /// The text for a log.
    pub fn message(&self) -> (r: String)
        ensures
            r@ == self@.full_text(),
    {
        match self {
            Self::NotFound(m) => {
                let mut r: String = m.clone();
                r.append(" not found");
                r
            },
            Self::NotImplemented(m) => {
                let mut r: String = m.clone();
                r.append(" is not implemented yet");
                r
            },
            Self::BadRequest(m) => m.clone(),
            Self::Conflict(m) => m.clone(),
            Self::Upstream(m) => m.clone(),
            Self::Internal(m) => m.clone(),
        }
    }

    /// The text for the client.
    pub fn client_message(&self) -> (r: String)
        ensures
            r@ == self@.client_text(),
    {
        match self {
            Self::Internal(_) => "internal error".to_owned(),
            _ => self.message(),
        }
    }
}

/// The row that was looked up, or "not found".
pub fn found<T>(row: Option<T>, what: &str) -> (r: ApiResult<T>)
    ensures
        match row {
            Some(x) => r == Ok::<T, ApiError>(x),
            None => r is Err && r->Err_0@ == ErrorView::NotFound(what@),
        },
{
    match row {
        Some(x) => Ok(x),
        None => Err(ApiError::not_found(what)),
    }
}

/// What the client sees of an internal error does not depend on its cause.
pub proof fn internal_errors_tell_the_client_nothing(a: Seq<char>, b: Seq<char>)
    ensures
        ErrorView::Internal(a).client_text() == ErrorView::Internal(b).client_text(),
{
}

/// What the client did wrong is answered with a status of the four hundreds, what went
/// wrong here or beyond with one of the five hundreds, and every kind of error with a
/// status of its own.
pub proof fn a_status_tells_whose_fault_it_is(e: ErrorView)
    ensures
        400 <= e.http_status() < 500 <==> e is NotFound || e is BadRequest || e is Conflict,
        500 <= e.http_status() < 600 <==> e is NotImplemented || e is Upstream || e is Internal,
        e.http_status() == 404 <==> e is NotFound,
        e.http_status() == 400 <==> e is BadRequest,
        e.http_status() == 409 <==> e is Conflict,
        e.http_status() == 501 <==> e is NotImplemented,
        e.http_status() == 502 <==> e is Upstream,
        e.http_status() == 500 <==> e is Internal,
{
}

/// The kind of an error is told by its code.
pub proof fn a_code_tells_the_kind(e: ErrorView)
    ensures
        e.code_text() == "not_found"@ <==> e is NotFound,
        e.code_text() == "bad_request"@ <==> e is BadRequest,
        e.code_text() == "conflict"@ <==> e is Conflict,
        e.code_text() == "not_implemented"@ <==> e is NotImplemented,
        e.code_text() == "upstream_error"@ <==> e is Upstream,
        e.code_text() == "internal_error"@ <==> e is Internal,
{
    reveal_strlit("not_found");
    reveal_strlit("bad_request");
    reveal_strlit("conflict");
    reveal_strlit("not_implemented");
    reveal_strlit("upstream_error");
    reveal_strlit("internal_error");
    assert("not_found"@[0] == 'n' && "bad_request"@[0] == 'b' && "conflict"@[0] == 'c');
    assert("upstream_error"@[0] == 'u' && "internal_error"@[0] == 'i');
    assert("not_found"@.len() != "not_implemented"@.len());
}

/// The message names what is missing; of anything but an internal error the client is
/// told all of it.
pub proof fn a_message_tells_what_it_is_about(m: Seq<char>)
    ensures
        ErrorView::NotFound(m).full_text() == m + " not found"@,
        ErrorView::NotImplemented(m).full_text() == m + " is not implemented yet"@,
        ErrorView::BadRequest(m).full_text() == m,
        ErrorView::Conflict(m).full_text() == m,
        ErrorView::Upstream(m).full_text() == m,
        ErrorView::Internal(m).full_text() == m,
        ErrorView::NotFound(m).client_text() == m + " not found"@,
        ErrorView::NotImplemented(m).client_text() == m + " is not implemented yet"@,
        ErrorView::BadRequest(m).client_text() == m,
        ErrorView::Conflict(m).client_text() == m,
        ErrorView::Upstream(m).client_text() == m,
        ErrorView::Internal(m).client_text() == "internal error"@,
{
}

} // verus!
