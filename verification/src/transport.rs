//! What a failed or answered HTTP request means.

use vstd::prelude::*;
use vstd::string::*;

use crate::text::{decimal, decimal_properties, decimal_text, decimal_value};

verus! {

broadcast use vstd::string::group_string_axioms;

/// The kinds of failure that a remote source reports, with their messages.
pub enum Failure {
    Auth(Seq<char>),
    Network(Seq<char>),
    NotFound(Seq<char>),
    RateLimited,
    Other(Seq<char>),
}

// ---- requests without an answer ----

/// `reqwest::Error`, which is only asked about itself.
#[verifier::external_type_specification]
#[verifier::external_body]
pub struct ExReqwestError(reqwest::Error);

/// `reqwest::Error::is_timeout`: whether a timeout caused the error. What a given error answers is
/// left open.
#[verifier::external_body]
fn error_is_timeout(error: &reqwest::Error) -> (yes: bool) {
    error.is_timeout()
}

/// `reqwest::Error::is_connect`: whether the connection could not be made. What a given error
/// answers is left open.
#[verifier::external_body]
fn error_is_connect(error: &reqwest::Error) -> (yes: bool) {
    error.is_connect()
}

/// The `Display` text of a `reqwest::Error`. What a given error reads is left open.
#[verifier::external_body]
fn error_text(error: &reqwest::Error) -> (text: String) {
    error.to_string()
}

/// Why a request got no answer.
pub struct LostRequest {
    pub timeout: bool,
    pub connect: bool,
    pub text: String,
}

/// What `question` answers of `error`.
fn ask<A, F: Fn(&reqwest::Error) -> A>(question: F, error: &reqwest::Error) -> (answer: A)
    requires
        call_requires(question, (error,)),
    ensures
        call_ensures(question, (error,), answer),
{
    question(error)
}

impl LostRequest {
    /// Whether each part is an answer that `error` gives to the question for it.
    pub closed spec fn told_by(&self, error: &reqwest::Error) -> bool {
        &&& call_ensures(error_is_timeout, (error,), self.timeout)
        &&& call_ensures(error_is_connect, (error,), self.connect)
        &&& call_ensures(error_text, (error,), self.text)
    }

    /// What `error` says of itself.
    pub(crate) fn of(error: &reqwest::Error) -> (lost: LostRequest)
        ensures
            lost.told_by(error),
    {
        LostRequest {
            timeout: ask(error_is_timeout, error),
            connect: ask(error_is_connect, error),
            text: ask(error_text, error),
        }
    }
}

/// What a lost request says is told by its error, each of the three parts.
proof fn told_wholly(lost: LostRequest, error: &reqwest::Error)
    requires
        lost.told_by(error),
    ensures
        call_ensures(error_is_timeout, (error,), lost.timeout),
        call_ensures(error_is_connect, (error,), lost.connect),
        call_ensures(error_text, (error,), lost.text),
{
}

/// A request without an answer is a network failure where it timed out or could not connect.
pub open spec fn lost_failure(timeout: bool, connect: bool, text: Seq<char>) -> Failure {
    if timeout {
        Failure::Network("request timed out"@)
    } else if connect {
        Failure::Network("connection failed: "@ + text)
    } else {
        Failure::Other("HTTP request failed: "@ + text)
    }
}

// ---- answers ----

/// Whether a status is one of success.
pub open spec fn is_success(status: u16) -> bool {
    200 <= status < 300
}

/// What a status other than success means.
pub open spec fn status_failure(status: u16) -> Option<Failure> {
    if is_success(status) {
        None
    } else if status == 401 {
        Some(Failure::Auth("session expired"@))
    } else if status == 404 {
        Some(Failure::NotFound("node not found"@))
    } else if status == 429 {
        Some(Failure::RateLimited)
    } else {
        Some(Failure::Other("HTTP "@ + decimal(status as nat)))
    }
}

/// Whether `status` is one of success.
pub fn success(status: u16) -> (yes: bool)
    ensures
        yes == is_success(status),
{
    200 <= status && status < 300
}

/// The message for a status without a meaning of its own.
pub fn status_message(status: u16) -> (message: String)
    ensures
        message@ == "HTTP "@ + decimal(status as nat),
{
    let mut message: String = "HTTP ".to_owned();
    message.append(decimal_text(status as u64).as_str());
    message
}

/// The reason that `reqwest::StatusCode` gives with the status `status`.
pub uninterp spec fn status_reason(status: u16) -> Seq<char>;

/// A status as text: its number, a space and its reason.
pub open spec fn status_text(status: u16) -> Seq<char> {
    decimal(status as nat) + " "@ + status_reason(status)
}

/// The `Display` text of `reqwest::StatusCode::from_u16(status)`: the number, a space and the
/// standard reason, which depends on the number alone. A number below 100 or above 999 is no
/// status.
#[verifier::external_body]
pub(crate) fn status_display(status: u16) -> (text: String)
    requires
        100 <= status <= 999,
    ensures
        text@ == decimal(status as nat) + " "@ + status_reason(status),
{
    match reqwest::StatusCode::from_u16(status) {
        Ok(code) => code.to_string(),
        Err(_) => String::new(),
    }
}

// ---- laws ----

/// A request without an answer is a failure of the network exactly where it timed out or could not
/// connect, and otherwise one without a kind. Unless it timed out, the message ends with what the
/// error says, whole.
pub proof fn law_lost_request(timeout: bool, connect: bool, text: Seq<char>)
    ensures
        lost_failure(timeout, connect, text) is Network <==> timeout || connect,
        lost_failure(timeout, connect, text) is Other <==> !(timeout || connect),
        timeout ==> lost_failure(timeout, connect, text) == Failure::Network(
            "request timed out"@,
        ),
        !timeout && connect ==> {
            let message = lost_failure(timeout, connect, text)->Network_0;
            &&& message.len() == 19 + text.len()
            &&& message.take(19) == "connection failed: "@
            &&& message.skip(19) == text
        },
        !timeout && !connect ==> {
            let message = lost_failure(timeout, connect, text)->Other_0;
            &&& message.len() == 21 + text.len()
            &&& message.take(21) == "HTTP request failed: "@
            &&& message.skip(21) == text
        },
{
    reveal_strlit("connection failed: ");
    reveal_strlit("HTTP request failed: ");
    assert(("connection failed: "@ + text).take(19) =~= "connection failed: "@);
    assert(("connection failed: "@ + text).skip(19) =~= text);
    assert(("HTTP request failed: "@ + text).take(21) =~= "HTTP request failed: "@);
    assert(("HTTP request failed: "@ + text).skip(21) =~= text);
}

/// The statuses of success are the two hundreds. Of the others 401 is one of the session, 404 one of
/// the node and 429 one of the rate, and each other one is told by its number.
pub proof fn law_statuses(status: u16)
    ensures
        is_success(status) <==> status / 100 == 2,
        status_failure(status) is None <==> status / 100 == 2,
        status_failure(status) == Some(Failure::Auth("session expired"@)) <==> status == 401,
        status_failure(status) == Some(Failure::NotFound("node not found"@)) <==> status == 404,
        status_failure(status) == Some(Failure::RateLimited) <==> status == 429,
        status / 100 != 2 && status != 401 && status != 404 && status != 429 ==> {
            &&& status_failure(status) matches Some(Failure::Other(message))
            &&& message.len() > 5
            &&& message.take(5) == "HTTP "@
            &&& decimal_value(message.skip(5)) == status
        },
{
    reveal_strlit("HTTP ");
    let message = "HTTP "@ + decimal(status as nat);
    assert(message.take(5) =~= "HTTP "@);
    assert(message.skip(5) =~= decimal(status as nat));
    decimal_properties(status as nat);
}

/// The text of a status begins with its number.
pub proof fn law_status_text(status: u16)
    ensures
        ({
            let n = decimal(status as nat).len() as int;
            &&& status_text(status).len() > n
            &&& decimal_value(status_text(status).take(n)) == status
            &&& status_text(status)[n] == ' '
            &&& status_text(status).skip(n + 1) == status_reason(status)
        }),
{
    reveal_strlit(" ");
    let n = decimal(status as nat).len() as int;
    assert(status_text(status).take(n) =~= decimal(status as nat));
    assert(status_text(status).skip(n + 1) =~= status_reason(status));
    decimal_properties(status as nat);
}

} // verus!
