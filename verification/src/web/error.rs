//! Error types and helpers for mapping errors to HTTP responses.
//!
//! The [`ApiError`] type carries both an HTTP status code and a message. An [`Error`] is a chain
//! of messages, the outermost first, one of which may be an [`ApiError`]. Use [`ResultExt`] to
//! attach status codes to such chains.

use crate::text::{join, string_views};
use vstd::prelude::*;

verus! {

broadcast use vstd::string::group_string_axioms;

/// HTTP status of a successful request.
pub const OK: u16 = 200;

/// HTTP status of a request that created something.
pub const CREATED: u16 = 201;

/// HTTP status of a request that the client got wrong.
pub const BAD_REQUEST: u16 = 400;

/// HTTP status of a request without valid credentials.
pub const UNAUTHORIZED: u16 = 401;

/// HTTP status of a request for something that is not there.
pub const NOT_FOUND: u16 = 404;

/// HTTP status of a request that the server failed to answer.
pub const INTERNAL_SERVER_ERROR: u16 = 500;

/// An error that can be returned as an HTTP response.
#[derive(Debug)]
pub struct ApiError {
    /// HTTP status code for the response (not part of the response body).
    pub status: u16,
    /// Human-readable error message. May be localized; do not match on it.
    pub message: String,
    /// Stable machine-readable identifier (e.g. `auth.invalid_credentials`), where there is one.
    ///
    /// Exists because `message` cannot serve both audiences: a CLI or a chat bot needs prose it
    /// can show as-is, while a service relaying the failure to *its* users needs something it can
    /// key its own wording off.
    pub code: Option<String>,
}

/// What an [`ApiError`] says.
pub struct ApiErrorView {
    pub status: u16,
    pub message: Seq<char>,
    pub code: Option<Seq<char>>,
}

impl View for ApiError {
    type V = ApiErrorView;

    open spec fn view(&self) -> ApiErrorView {
        ApiErrorView {
            status: self.status,
            message: self.message@,
            code: match self.code {
                Some(code) => Some(code@),
                None => None,
            },
        }
    }
}

impl ApiError {
    /// Creates a new API error with the given HTTP status and message, without a code.
    pub fn new(status: u16, message: &str) -> (r: ApiError)
        ensures
            r@ == (ApiErrorView { status, message: message@, code: None }),
    {
        ApiError { status, message: message.to_owned(), code: None }
    }

    /// Creates an API error carrying a stable `code` alongside the (possibly localized) message.
    pub fn with_code(status: u16, code: &str, message: &str) -> (r: ApiError)
        ensures
            r@ == (ApiErrorView { status, message: message@, code: Some(code@) }),
    {
        ApiError { status, message: message.to_owned(), code: Some(code.to_owned()) }
    }
}

impl Clone for ApiError {
    fn clone(&self) -> (r: ApiError)
        ensures
            r@ == self@,
    {
        let code = match &self.code {
            Some(code) => Some(code.clone()),
            None => None,
        };
        ApiError { status: self.status, message: self.message.clone(), code }
    }
}

/// What an [`Error`] says: its messages, the outermost first, and the outermost [`ApiError`] among
/// them.
pub struct ErrorView {
    pub messages: Seq<Seq<char>>,
    pub api: Option<ApiErrorView>,
}

/// An error of a single message.
pub open spec fn plain(message: Seq<char>) -> ErrorView {
    ErrorView { messages: seq![message], api: None }
}

/// An error of a single message with an HTTP status.
pub open spec fn status_error(status: u16, message: Seq<char>) -> ErrorView {
    plain(message).with_status(status)
}

impl ErrorView {
    /// The error with a message put before it.
    pub open spec fn with_context(self, message: Seq<char>) -> ErrorView {
        ErrorView { messages: seq![message] + self.messages, api: self.api }
    }

    /// The error with an [`ApiError`] put before it.
    pub open spec fn with_api(self, api: ApiErrorView) -> ErrorView {
        ErrorView { messages: seq![api.message] + self.messages, api: Some(api) }
    }

    /// All messages in one line.
    pub open spec fn rendered(self) -> Seq<char> {
        join(self.messages, ": "@)
    }

    /// The error with an [`ApiError`] put before it that says in one line what went wrong.
    pub open spec fn with_status(self, status: u16) -> ErrorView {
        self.with_api(ApiErrorView { status, message: self.rendered(), code: None })
    }

    /// The response to the error.
    pub open spec fn response(self) -> ApiErrorView {
        match self.api {
            Some(api) => api,
            None => ApiErrorView {
                status: INTERNAL_SERVER_ERROR,
                message: self.rendered(),
                code: None,
            },
        }
    }
}

/// An error as a chain of messages, with the [`ApiError`] that it may carry.
#[derive(Debug)]
pub struct Error {
    messages: Vec<String>,
    api: Option<ApiError>,
}

impl View for Error {
    type V = ErrorView;

    closed spec fn view(&self) -> ErrorView {
        ErrorView {
            messages: string_views(self.messages@),
            api: match self.api {
                Some(api) => Some(api@),
                None => None,
            },
        }
    }
}

impl Error {
    #[verifier::type_invariant]
    spec fn says_something(self) -> bool {
        self.messages@.len() > 0
    }

    /// An error of a single message.
    pub fn new(message: &str) -> (r: Error)
        ensures
            r@ == plain(message@),
    {
        let mut messages: Vec<String> = Vec::new();
        messages.push(message.to_owned());
        let r = Error { messages, api: None };
        assert(r@.messages =~= seq![message@]);
        r
    }

    /// Puts a message before the error.
    pub fn context(self, message: &str) -> (r: Error)
        ensures
            r@ == self@.with_context(message@),
    {
        let mut messages = self.messages;
        let ghost before = messages@;
        messages.insert(0, message.to_owned());
        let r = Error { messages, api: self.api };
        assert(r@.messages =~= seq![message@] + string_views(before));
        r
    }

    /// Puts an [`ApiError`] before the error.
    pub fn context_api(self, api: ApiError) -> (r: Error)
        ensures
            r@ == self@.with_api(api@),
    {
        let mut messages = self.messages;
        let ghost before = messages@;
        messages.insert(0, api.message.clone());
        let r = Error { messages, api: Some(api) };
        assert(r@.messages =~= seq![api@.message] + string_views(before));
        r
    }

    /// The outermost message.
    pub fn message(&self) -> (r: String)
        ensures
            r@ == self@.messages[0],
    {
        proof {
            use_type_invariant(self);
        }
        self.messages[0].clone()
    }

    /// All messages in one line, the outermost first.
    pub fn full_message(&self) -> (r: String)
        ensures
            r@ == self@.rendered(),
    {
        let mut r = String::new();
        let mut i: usize = 0;
        let ghost all = self@.messages;
        while i < self.messages.len()
            invariant
                i <= self.messages@.len(),
                all == string_views(self.messages@),
                r@ == join(all.take(i as int), ": "@),
            decreases self.messages@.len() - i,
        {
            proof {
                let next = all.take(i + 1);
                assert(next.drop_last() =~= all.take(i as int));
                assert(next.last() == self.messages@[i as int]@);
            }
            if i > 0 {
                r.append(": ");
            }
            r.append(self.messages[i].as_str());
            assert(r@ =~= join(all.take(i + 1), ": "@));
            i += 1;
        }
        assert(all.take(i as int) =~= all);
        r
    }

    /// The outermost [`ApiError`] of the chain.
    pub fn api_error(&self) -> (r: Option<&ApiError>)
        ensures
            match r {
                Some(api) => self@.api == Some(api@),
                None => self@.api is None,
            },
    {
        match &self.api {
            Some(api) => Some(api),
            None => None,
        }
    }

    /// Puts an [`ApiError`] of the given status before the error, with all messages in one line.
    pub fn with_status(self, status: u16) -> (r: Error)
        ensures
            r@ == self@.with_status(status),
    {
        let message = self.full_message();
        self.context_api(ApiError { status, message, code: None })
    }
}

/// A failure with the status for a client's mistake.
pub fn client_error(message: &str) -> (r: Error)
    ensures
        r@ == status_error(BAD_REQUEST, message@),
{
    Error::new(message).with_status(BAD_REQUEST)
}

/// Extension trait for attaching HTTP status codes to error results.
pub trait ResultExt<T>: Sized {
    /// Wraps the error with an [`ApiError`] carrying the given status code.
    fn with_status(self, status: u16) -> Result<T, Error>;

    /// Wraps the error with an [`ApiError`] that says that the client got it wrong.
    fn mark_client_error(self) -> Result<T, Error>;
}

impl<T> ResultExt<T> for Result<T, Error> {
    fn with_status(self, status: u16) -> (r: Result<T, Error>)
        ensures
            match self {
                Ok(t) => r == Ok::<T, Error>(t),
                Err(err) => r is Err && r->Err_0@ == err@.with_status(status),
            },
    {
        match self {
            Ok(t) => Ok(t),
            Err(err) => Err(err.with_status(status)),
        }
    }

    fn mark_client_error(self) -> (r: Result<T, Error>)
        ensures
            match self {
                Ok(t) => r == Ok::<T, Error>(t),
                Err(err) => r is Err && r->Err_0@ == err@.with_status(BAD_REQUEST),
            },
    {
        self.with_status(BAD_REQUEST)
    }
}

/// An error marked with a status is answered with that status and with all that was said before.
pub proof fn law_status_reaches_the_response(err: ErrorView, status: u16)
    ensures
        err.with_status(status).response() == (ApiErrorView {
            status,
            message: err.rendered(),
            code: None,
        }),
{
}

/// Context put around an error that carries an [`ApiError`] leaves the response as it is.
pub proof fn law_context_keeps_the_response(err: ErrorView, message: Seq<char>)
    requires
        err.api is Some,
    ensures
        err.with_context(message).response() == err.response(),
{
}

/// All that was said is told in one line, the outermost message first and each followed by its cause.
pub proof fn law_messages_are_told_in_order(
    err: Error,
    message: &str,
    full: String,
    r: Error,
    all: String,
)
    requires
        err@.messages.len() > 0,
        call_ensures(Error::full_message, (&err,), full),
        call_ensures(Error::context, (err, message), r),
        call_ensures(Error::full_message, (&r,), all),
    ensures
        all@ == message@ + seq![':', ' '] + full@,
        r@.api == err@.api,
        r@.messages.len() == err@.messages.len() + 1,
{
    reveal_strlit(": ");
    assert(": "@ =~= seq![':', ' ']);
    lemma_join_first(message@, err@.messages, ": "@);
}

proof fn lemma_join_first(first: Seq<char>, rest: Seq<Seq<char>>, sep: Seq<char>)
    requires
        rest.len() > 0,
    ensures
        join(seq![first] + rest, sep) == first + sep + join(rest, sep),
    decreases rest.len(),
{
    let all = seq![first] + rest;
    assert(all.last() == rest.last());
    if rest.len() == 1 {
        assert(all.drop_last() =~= seq![first]);
        assert(join(seq![first], sep) == first);
        assert(join(rest, sep) == rest[0]);
    } else {
        assert(all.drop_last() =~= seq![first] + rest.drop_last());
        lemma_join_first(first, rest.drop_last(), sep);
        assert((first + sep + join(rest.drop_last(), sep)) + sep + rest.last() =~= first + sep + (
        join(rest.drop_last(), sep) + sep + rest.last()));
    }
}

/// An error of one message says that message and no more, and is an internal error.
pub proof fn law_new_errors_are_internal(message: &str, r: Error, first: String, full: String)
    requires
        call_ensures(Error::new, (message,), r),
        call_ensures(Error::message, (&r,), first),
        call_ensures(Error::full_message, (&r,), full),
    ensures
        first@ == message@,
        full@ == message@,
        r@.response().status == 500,
        r@.response().message == message@,
        r@.response().code is None,
{
}

/// The outermost status counts, and the response tells all that was said when it was set.
pub proof fn law_outermost_status_counts(
    err: Error,
    status: u16,
    full: String,
    r: Error,
    api: ApiError,
    s: Error,
)
    requires
        call_ensures(Error::full_message, (&err,), full),
        call_ensures(Error::with_status, (err, status), r),
        call_ensures(Error::context_api, (err, api), s),
    ensures
        r@.response().status == status,
        r@.response().message == full@,
        r@.response().code is None,
        r@.messages.drop_first() == err@.messages,
        s@.response() == api@,
        s@.messages.drop_first() == err@.messages,
{
    assert(r@.messages.drop_first() =~= err@.messages);
    assert(s@.messages.drop_first() =~= err@.messages);
}

/// An error for the response carries exactly the status, the message and the code that it is made of.
pub proof fn law_api_errors_carry_what_they_are_made_of(
    status: u16,
    code: &str,
    message: &str,
    a: ApiError,
    b: ApiError,
    c: Error,
)
    requires
        call_ensures(ApiError::new, (status, message), a),
        call_ensures(ApiError::with_code, (status, code, message), b),
        call_ensures(client_error, (message,), c),
    ensures
        a@.status == status && a@.message == message@ && a@.code is None,
        b@.status == status && b@.message == message@ && b@.code == Some(code@),
        c@.response().status == 400 && c@.response().message == message@,
{
}

/// An error for the response is what its fields say, and so is its copy.
pub proof fn law_api_errors_are_what_they_say(api: ApiError, copy: ApiError)
    requires
        call_ensures(<ApiError as Clone>::clone, (&api,), copy),
    ensures
        api@.status == api.status,
        api@.message == api.message@,
        api.code is None ==> api@.code is None,
        api.code is Some ==> api@.code == Some(api.code->0@),
        copy.status == api.status && copy.message@ == api.message@,
        copy@.code == api@.code,
{
}

} // verus!
