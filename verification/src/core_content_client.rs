//! Core Content as a source.
//!
//! The client decides; whoever drives it sends the requests that it names and reports the answers.

use std::path::PathBuf;

use vstd::prelude::*;
use vstd::string::*;

use crate::cache_key::{cache_key, cache_key_of, date_text};
use crate::json::{read_object, text_object};
use crate::source_path::{normalized, segments, source_part, source_relative, views};
use crate::text::{
    absent, begins_with, chars_of, decimal, decimal_text, decimal_value, find, find_char,
    first_at_unique, first_position, is_digit, joined, same_text, stands_at, until,
};
use crate::text_map::{distinct_keys, entry_found, entry_map, has_key, key_index, texts, TextMap};
use crate::transport::{lost_failure, status_failure, status_message, success, Failure, LostRequest};

verus! {

broadcast use vstd::string::group_string_axioms;

/// A folder or document on the server.
#[derive(Debug, Clone)]
pub struct CoreContentNode {
    pub id: String,
    pub name: String,
    pub is_container: bool,
    pub size: u64,
    pub modify_date: Option<String>,
    pub mime_type: Option<String>,
    pub content_size: Option<u64>,
    pub cms_links: Option<TextMap<String>>,
}

/// Which server and folder to use, and with which session.
#[derive(Debug, Clone)]
pub struct CoreContentConfig {
    pub enabled: bool,
    pub base_url: String,
    pub folder_node_id: String,
    pub folder_name: String,
    pub username: String,
    pub password: String,
    pub csrf_token: String,
    pub cookies_json: String,
    pub poll_interval_seconds: u64,
}

impl CoreContentConfig {
    /// The same configuration once more.
    pub fn copied(&self) -> (copy: CoreContentConfig)
        ensures
            copy == *self,
    {
        CoreContentConfig {
            enabled: self.enabled,
            base_url: self.base_url.clone(),
            folder_node_id: self.folder_node_id.clone(),
            folder_name: self.folder_name.clone(),
            username: self.username.clone(),
            password: self.password.clone(),
            csrf_token: self.csrf_token.clone(),
            cookies_json: self.cookies_json.clone(),
            poll_interval_seconds: self.poll_interval_seconds,
        }
    }
}

/// A document as a survey records it.
#[derive(Debug, Clone)]
pub struct CoreContentSnapshotEntry {
    pub name: String,
    pub modify_date: Option<String>,
    pub size: u64,
}

/// Why a request to the server failed.
#[derive(Debug)]
pub enum CoreContentError {
    Auth(String),
    Network(String),
    NotFound(String),
    RateLimited,
    Other(String),
}

impl View for CoreContentError {
    type V = Failure;

    open spec fn view(&self) -> Failure {
        match self {
            CoreContentError::Auth(m) => Failure::Auth(m@),
            CoreContentError::Network(m) => Failure::Network(m@),
            CoreContentError::NotFound(m) => Failure::NotFound(m@),
            CoreContentError::RateLimited => Failure::RateLimited,
            CoreContentError::Other(m) => Failure::Other(m@),
        }
    }
}

/// The message of a failure.
pub open spec fn core_content_message(failure: Failure) -> Seq<char> {
    match failure {
        Failure::Auth(m) => "Core Content auth error: "@ + m,
        Failure::Network(m) => "Core Content network error: "@ + m,
        Failure::NotFound(m) => "Core Content not found: "@ + m,
        Failure::RateLimited => "Core Content rate limited"@,
        Failure::Other(m) => "Core Content error: "@ + m,
    }
}

impl CoreContentError {
    /// The message shown to the user.
    pub fn message(&self) -> (text: String)
        ensures
            text@ == core_content_message(self@),
    {
        match self {
            CoreContentError::Auth(m) => joined("Core Content auth error: ", m.as_str()),
            CoreContentError::Network(m) => joined("Core Content network error: ", m.as_str()),
            CoreContentError::NotFound(m) => joined("Core Content not found: ", m.as_str()),
            CoreContentError::RateLimited => "Core Content rate limited".to_owned(),
            CoreContentError::Other(m) => joined("Core Content error: ", m.as_str()),
        }
    }

    /// The error of a request without an answer.
    pub fn lost(request: LostRequest) -> (error: CoreContentError)
        ensures
            error@ == lost_failure(request.timeout, request.connect, request.text@),
    {
        if request.timeout {
            CoreContentError::Network("request timed out".to_owned())
        } else if request.connect {
            CoreContentError::Network(joined("connection failed: ", request.text.as_str()))
        } else {
            CoreContentError::Other(joined("HTTP request failed: ", request.text.as_str()))
        }
    }
}

/// What is asked of an error of `reqwest` is left open, so no one error follows from it.
impl vstd::std_specs::convert::FromSpecImpl<reqwest::Error> for CoreContentError {
    open spec fn obeys_from_spec() -> bool {
        false
    }

    open spec fn from_spec(error: reqwest::Error) -> CoreContentError {
        arbitrary()
    }
}

impl From<reqwest::Error> for CoreContentError {
    fn from(error: reqwest::Error) -> (result: CoreContentError)
        ensures
            exists|lost: LostRequest| #[trigger]
                lost.told_by(&error) && result@ == lost_failure(
                    lost.timeout,
                    lost.connect,
                    lost.text@,
                ),
    {
        let lost: LostRequest = LostRequest::of(&error);
        assert(lost.told_by(&error));
        CoreContentError::lost(lost)
    }
}

// ---- numbers ----

/// A number as the server writes it.
#[derive(Debug)]
pub enum NumOrStr {
    N(u64),
    S(String),
}

/// `text` without a plus sign in front.
pub open spec fn unsigned(text: Seq<char>) -> Seq<char> {
    if text.len() > 0 && text[0] == '+' {
        text.skip(1)
    } else {
        text
    }
}

/// Whether `text` is digits, with or without a plus sign in front, of a value below 2^64.
pub open spec fn is_number(text: Seq<char>) -> bool {
    &&& unsigned(text).len() > 0
    &&& forall|i: int| 0 <= i < unsigned(text).len() ==> is_digit(#[trigger] unsigned(text)[i])
    &&& decimal_value(unsigned(text)) <= u64::MAX
}

/// What `str::parse::<u64>` says of a text that is no number.
pub uninterp spec fn number_complaint(text: Seq<char>) -> Seq<char>;

/// `str::parse::<u64>`: the value of digits, with or without a plus sign in front, where it fits;
/// otherwise a complaint that depends on the text alone.
#[verifier::external_body]
fn parse_number(text: &str) -> (number: Result<u64, String>)
    ensures
        match number {
            Ok(n) => is_number(text@) && n == decimal_value(unsigned(text@)),
            Err(complaint) => !is_number(text@) && complaint@ == number_complaint(text@),
        },
{
    match text.parse::<u64>() {
        Ok(n) => Ok(n),
        Err(e) => Err(e.to_string()),
    }
}

/// What a number from the server means, or the complaint about it.
pub open spec fn number_of(value: NumOrStr) -> Result<u64, Seq<char>> {
    match value {
        NumOrStr::N(n) => Ok(n),
        NumOrStr::S(text) => if is_number(text@) {
            Ok(decimal_value(unsigned(text@)) as u64)
        } else {
            Err(number_complaint(text@))
        },
    }
}

/// The number that the server sent.
pub fn read_number(value: NumOrStr) -> (number: Result<u64, String>)
    ensures
        match number {
            Ok(n) => number_of(value) == Ok::<u64, Seq<char>>(n),
            Err(complaint) => number_of(value) == Err::<u64, Seq<char>>(complaint@),
        },
{
    match value {
        NumOrStr::N(n) => Ok(n),
        NumOrStr::S(text) => parse_number(text.as_str()),
    }
}

/// The number that the server sent, where it sent one.
pub fn read_optional_number(value: Option<NumOrStr>) -> (number: Result<Option<u64>, String>)
    ensures
        match value {
            None => number == Ok::<Option<u64>, String>(None),
            Some(v) => match number {
                Ok(n) => n matches Some(k) && number_of(v) == Ok::<u64, Seq<char>>(k),
                Err(complaint) => number_of(v) == Err::<u64, Seq<char>>(complaint@),
            },
        },
{
    match value {
        None => Ok(None),
        Some(v) => match read_number(v) {
            Ok(n) => Ok(Some(n)),
            Err(complaint) => Err(complaint),
        },
    }
}

// ---- addresses ----

/// The scheme and host of an address: all before the first slash behind `://`.
pub open spec fn origin(url: Seq<char>) -> Option<Seq<char>> {
    if absent(url, "://"@) {
        None
    } else {
        let host = first_position(url, "://"@) + 3;
        Some(url.take(host + until(url.skip(host), '/')))
    }
}

/// The scheme and host of an address.
pub fn base_origin<'a>(url_str: &'a str) -> (result: Option<&'a str>)
    ensures
        match result {
            Some(text) => origin(url_str@) == Some(text@),
            None => origin(url_str@) is None,
        },
{
    proof {
        reveal_strlit("://");
    }
    let url: Vec<char> = chars_of(url_str);
    let mark: Vec<char> = chars_of("://");
    match find(&url, &mark) {
        Some(i) => {
            let total: usize = url.len();
            assert(i + 3 <= total);
            proof {
                first_at_unique(url@, mark@, i as int, first_position(url@, mark@));
            }
            let end: usize = find_char(&url, '/', i + 3);
            assert(url@.subrange(0, end as int) =~= url@.take(end as int));
            Some(url_str.substring_char(0, end))
        },
        None => None,
    }
}

/// What `reqwest::Url::parse` says against `text` as an address; none where it is one.
pub uninterp spec fn address_complaint(text: Seq<char>) -> Option<Seq<char>>;

/// Whether `text` is an address.
pub open spec fn is_address(text: Seq<char>) -> bool {
    address_complaint(text) is None
}

/// `reqwest::Url::parse`: what there is to say against `text` as an address, which depends on the
/// text alone.
#[verifier::external_body]
pub(crate) fn check_address(text: &str) -> (result: Result<(), String>)
    ensures
        match result {
            Ok(_) => address_complaint(text@) is None,
            Err(complaint) => address_complaint(text@) == Some(complaint@),
        },
{
    match reqwest::Url::parse(text) {
        Ok(_) => Ok(()),
        Err(e) => Err(e.to_string()),
    }
}

// ---- sessions ----

/// The cookies of a session and the origin that they are sent to.
#[derive(Debug)]
pub struct SessionCookies {
    pub origin: String,
    pub cookies: TextMap<String>,
}

/// The content of a `SessionCookies`.
pub struct Session {
    pub origin: Seq<char>,
    pub cookies: Map<Seq<char>, Seq<char>>,
}

impl View for SessionCookies {
    type V = Session;

    open spec fn view(&self) -> Session {
        Session { origin: self.origin@, cookies: texts(self.cookies@) }
    }
}

/// An optional session by its view.
pub open spec fn session_view(session: Option<SessionCookies>) -> Option<Session> {
    match session {
        Some(s) => Some(s@),
        None => None,
    }
}

/// A session of cookies that could be read, for an origin that is an address.
pub open spec fn session_for(
    cookies: Option<Map<Seq<char>, Seq<char>>>,
    origin: Option<Seq<char>>,
    address: bool,
) -> Option<Session> {
    match (cookies, origin) {
        (Some(cookies), Some(origin)) => if address {
            Some(Session { origin, cookies })
        } else {
            None
        },
        _ => None,
    }
}

/// The session that a configuration holds.
pub open spec fn session_of(cookies_json: Seq<char>, base_url: Seq<char>) -> Option<Session> {
    if cookies_json.len() == 0 {
        None
    } else {
        session_for(
            text_object(cookies_json),
            origin(base_url),
            match origin(base_url) {
                Some(o) => is_address(o),
                None => false,
            },
        )
    }
}

/// The session of cookies that were read, for an origin, given whether that is an address.
pub fn make_session(
    cookies: Option<TextMap<String>>,
    origin: Option<String>,
    address: bool,
) -> (session: Option<SessionCookies>)
    ensures
        session_view(session) == session_for(
            match cookies {
                Some(c) => Some(texts(c@)),
                None => None,
            },
            match origin {
                Some(o) => Some(o@),
                None => None,
            },
            address,
        ),
{
    match (cookies, origin) {
        (Some(cookies), Some(origin)) => if address {
            Some(SessionCookies { origin, cookies })
        } else {
            None
        },
        _ => None,
    }
}

fn read_session(cookies_json: &str, base_url: &str) -> (session: Option<SessionCookies>)
    ensures
        session_view(session) == session_of(cookies_json@, base_url@),
{
    if cookies_json.is_empty() {
        return None;
    }
    let cookies: Option<TextMap<String>> = read_object(cookies_json);
    let origin: Option<String> = match base_origin(base_url) {
        Some(o) => Some(o.to_owned()),
        None => None,
    };
    let address: bool = match &origin {
        Some(o) => check_address(o.as_str()).is_ok(),
        None => false,
    };
    make_session(cookies, origin, address)
}

/// The lines `name=value` of a list of cookies.
pub open spec fn cookie_lines(cookies: Seq<(String, String)>) -> Seq<Seq<char>> {
    cookies.map_values(|c: (String, String)| c.0@ + "="@ + c.1@)
}

impl SessionCookies {
    /// One line `name=value` for each cookie, in some order.
    pub fn lines(&self) -> (lines: Vec<String>)
        ensures
            views(lines@) == cookie_lines(self.cookies.listed()),
            distinct_keys(self.cookies.listed()),
            self.cookies@ == entry_map(self.cookies.listed()),
    {
        let entries: &Vec<(String, String)> = self.cookies.entries();
        let mut lines: Vec<String> = Vec::new();
        let mut i: usize = 0;
        while i < entries.len()
            invariant
                i <= entries.len(),
                views(lines@) == cookie_lines(entries@.take(i as int)),
            decreases entries.len() - i,
        {
            let mut line: String = joined(entries[i].0.as_str(), "=");
            line.append(entries[i].1.as_str());
            let ghost before = views(lines@);
            let ghost text = line@;
            lines.push(line);
            i = i + 1;
            assert(views(lines@) =~= before.push(text));
            assert(cookie_lines(entries@.take(i as int)) =~= cookie_lines(
                entries@.take(i - 1),
            ).push(text));
        }
        assert(entries@.take(i as int) =~= entries@);
        lines
    }
}

/// The state of a connection to the server.
pub struct CoreContentClient {
    pub config: CoreContentConfig,
    pub csrf_token: String,
    pub session: Option<SessionCookies>,
    pub cache_dir: PathBuf,
}

/// How long the server may take to answer, in seconds.
pub const CORE_CONTENT_TIMEOUT_SECONDS: u64 = 60;

// ---- requests ----

/// A GET request with headers.
#[derive(Debug)]
pub struct ApiRequest {
    pub url: String,
    pub headers: Vec<(String, String)>,
}

/// The content of an `ApiRequest`.
pub struct Request {
    pub url: Seq<char>,
    pub headers: Seq<(Seq<char>, Seq<char>)>,
}

/// Headers by their views.
pub open spec fn headers_view(headers: Seq<(String, String)>) -> Seq<(Seq<char>, Seq<char>)> {
    headers.map_values(|h: (String, String)| (h.0@, h.1@))
}

impl View for ApiRequest {
    type V = Request;

    open spec fn view(&self) -> Request {
        Request { url: self.url@, headers: headers_view(self.headers@) }
    }
}

/// Whether a header may hold `c`: no control character but the tab.
pub open spec fn header_char(c: char) -> bool {
    c == '\t' || (c >= ' ' && c != '\u{7f}')
}

/// Whether `text` can be the value of a header.
pub open spec fn header_text(text: Seq<char>) -> bool {
    forall|i: int| 0 <= i < text.len() ==> header_char(#[trigger] text[i])
}

/// `reqwest::header::HeaderValue::from_str`: whether `text` can be the value of a header. It can
/// where each of its bytes is a tab or at least 32 and not 127.
#[verifier::external_body]
fn fits_header(text: &str) -> (yes: bool)
    ensures
        yes == header_text(text@),
{
    reqwest::header::HeaderValue::from_str(text).is_ok()
}

/// `text` where it can be the value of a header, otherwise nothing.
pub open spec fn header_value(text: Seq<char>) -> Seq<char> {
    if header_text(text) {
        text
    } else {
        ""@
    }
}

fn usable_header(text: &str) -> (value: String)
    ensures
        value@ == header_value(text@),
{
    if fits_header(text) {
        text.to_owned()
    } else {
        "".to_owned()
    }
}

/// The headers of every request.
pub open spec fn request_headers(csrf_token: Seq<char>, base_url: Seq<char>) -> Seq<
    (Seq<char>, Seq<char>),
> {
    seq![
        ("X-CCM-XSRF-TOKEN"@, header_value(csrf_token)),
        ("X-Requested-With"@, "XMLHttpRequest"@),
        ("Authorization"@, "dummy"@),
        ("Referer"@, header_value(base_url)),
    ]
}

/// The address of a path of the interface; an address stands for itself.
pub open spec fn api_url(base_url: Seq<char>, path: Seq<char>) -> Seq<char> {
    if begins_with(path, "http"@) {
        path
    } else {
        base_url + path
    }
}

/// What a status other than success means, with what came with it.
pub open spec fn api_failure(status: u16, body: Seq<char>) -> Option<Failure> {
    match status_failure(status) {
        Some(Failure::Other(message)) => Some(Failure::Other(message + ": "@ + body)),
        other => other,
    }
}

impl CoreContentClient {
    /// A client with the token and the cookies of its configuration.
    pub fn new(config: CoreContentConfig, cache_dir: PathBuf) -> (client: Self)
        ensures
            client.config == config,
            client.csrf_token@ == config.csrf_token@,
            session_view(client.session) == session_of(config.cookies_json@, config.base_url@),
            client.cache_dir == cache_dir,
    {
        let session: Option<SessionCookies> = read_session(
            config.cookies_json.as_str(),
            config.base_url.as_str(),
        );
        let csrf_token: String = config.csrf_token.clone();
        CoreContentClient { config, csrf_token, session, cache_dir }
    }

    /// The headers of every request.
    pub fn cc_headers(&self) -> (headers: Vec<(String, String)>)
        ensures
            headers_view(headers@) == request_headers(self.csrf_token@, self.config.base_url@),
    {
        let mut headers: Vec<(String, String)> = Vec::new();
        headers.push(("X-CCM-XSRF-TOKEN".to_owned(), usable_header(self.csrf_token.as_str())));
        headers.push(("X-Requested-With".to_owned(), "XMLHttpRequest".to_owned()));
        headers.push(("Authorization".to_owned(), "dummy".to_owned()));
        headers.push(("Referer".to_owned(), usable_header(self.config.base_url.as_str())));
        assert(headers_view(headers@) =~= request_headers(
            self.csrf_token@,
            self.config.base_url@,
        ));
        headers
    }

    /// The request that this client makes to `url`.
    pub open spec fn request(&self, url: Seq<char>) -> Request {
        Request { url, headers: request_headers(self.csrf_token@, self.config.base_url@) }
    }

    /// The request for a path of the interface.
    pub fn api_get(&self, path: &str) -> (request: ApiRequest)
        ensures
            request@ == self.request(api_url(self.config.base_url@, path@)),
    {
        let start: Vec<char> = chars_of("http");
        let url: String = if stands_at(&chars_of(path), &start, 0) {
            path.to_owned()
        } else {
            joined(self.config.base_url.as_str(), path)
        };
        ApiRequest { url, headers: self.cc_headers() }
    }

    /// The request for bytes at `url`.
    pub fn download_bytes(&self, url: String) -> (request: ApiRequest)
        ensures
            request@ == self.request(url@),
    {
        ApiRequest { url, headers: self.cc_headers() }
    }

    /// The error of a status other than success.
    pub fn check_status(status: u16) -> (result: Result<(), CoreContentError>)
        ensures
            match status_failure(status) {
                Some(failure) => result matches Err(e) && e@ == failure,
                None => result is Ok,
            },
    {
        if success(status) {
            return Ok(());
        }
        if status == 401 {
            Err(CoreContentError::Auth("session expired".to_owned()))
        } else if status == 404 {
            Err(CoreContentError::NotFound("node not found".to_owned()))
        } else if status == 429 {
            Err(CoreContentError::RateLimited)
        } else {
            Err(CoreContentError::Other(status_message(status)))
        }
    }

    /// The error of a status other than success to a request for a path of the interface.
    pub fn check_answer(status: u16, body: &str) -> (result: Result<(), CoreContentError>)
        ensures
            match api_failure(status, body@) {
                Some(failure) => result matches Err(e) && e@ == failure,
                None => result is Ok,
            },
    {
        match CoreContentClient::check_status(status) {
            Err(CoreContentError::Other(message)) => {
                let mut message: String = message;
                message.append(": ");
                message.append(body);
                Err(CoreContentError::Other(message))
            },
            other => other,
        }
    }
}

// ---- expired sessions ----

/// What to do when a request has been answered.
#[derive(Debug)]
pub enum AnswerStep {
    /// The answer holds what was asked for.
    ReadBody,
    /// Log in with the stored credentials, then send the request again.
    Authenticate,
    Fail(CoreContentError),
}

/// The content of an `AnswerStep`.
pub enum Answer {
    ReadBody,
    Authenticate,
    Fail(Failure),
}

impl View for AnswerStep {
    type V = Answer;

    open spec fn view(&self) -> Answer {
        match self {
            AnswerStep::ReadBody => Answer::ReadBody,
            AnswerStep::Authenticate => Answer::Authenticate,
            AnswerStep::Fail(error) => Answer::Fail(error@),
        }
    }
}

/// Whether a configuration holds credentials to log in with.
pub open spec fn has_credentials(config: CoreContentConfig) -> bool {
    config.username@.len() > 0 && config.password@.len() > 0
}

/// What an answer leads to: an expired session is renewed once, where credentials are stored.
pub open spec fn answered(
    credentials: bool,
    retried: bool,
    status: u16,
    failure: Option<Failure>,
) -> Answer {
    if status == 401 && !retried && credentials {
        Answer::Authenticate
    } else {
        match failure {
            Some(f) => Answer::Fail(f),
            None => Answer::ReadBody,
        }
    }
}

impl CoreContentClient {
    fn may_renew(&self, retried: bool, status: u16) -> (yes: bool)
        ensures
            yes == (status == 401 && !retried && has_credentials(self.config)),
    {
        status == 401 && !retried && !self.config.username.as_str().is_empty()
            && !self.config.password.as_str().is_empty()
    }

    /// What to do when a request for a path of the interface, sent again or not, has been answered.
    pub fn on_answer(&self, retried: bool, status: u16, body: &str) -> (step: AnswerStep)
        ensures
            step@ == answered(
                has_credentials(self.config),
                retried,
                status,
                api_failure(status, body@),
            ),
    {
        if self.may_renew(retried, status) {
            return AnswerStep::Authenticate;
        }
        match CoreContentClient::check_answer(status, body) {
            Ok(()) => AnswerStep::ReadBody,
            Err(error) => AnswerStep::Fail(error),
        }
    }

    /// What to do when a request for bytes, sent again or not, has been answered.
    pub fn on_download(&self, retried: bool, status: u16) -> (step: AnswerStep)
        ensures
            step@ == answered(
                has_credentials(self.config),
                retried,
                status,
                status_failure(status),
            ),
    {
        if self.may_renew(retried, status) {
            return AnswerStep::Authenticate;
        }
        match CoreContentClient::check_status(status) {
            Ok(()) => AnswerStep::ReadBody,
            Err(error) => AnswerStep::Fail(error),
        }
    }

    /// Takes the session of a new login and gives the request to send again. A login without a token
    /// has failed, and changes nothing.
    pub fn on_login(
        &mut self,
        request: ApiRequest,
        csrf_token: String,
        cookies_json: String,
    ) -> (again: Result<ApiRequest, CoreContentError>)
        ensures
            if csrf_token@.len() == 0 {
                &&& again matches Err(e) && e@ == Failure::Auth("session expired"@)
                &&& *final(self) == *old(self)
            } else {
                &&& again matches Ok(r) && r@ == final(self).request(request.url@)
                &&& final(self).config == (CoreContentConfig {
                    csrf_token,
                    cookies_json,
                    ..old(self).config
                })
                &&& final(self).csrf_token@ == csrf_token@
                &&& session_view(final(self).session) == session_of(
                    cookies_json@,
                    old(self).config.base_url@,
                )
                &&& final(self).cache_dir == old(self).cache_dir
            },
    {
        if csrf_token.as_str().is_empty() {
            return Err(CoreContentError::Auth("session expired".to_owned()));
        }
        self.session = read_session(cookies_json.as_str(), self.config.base_url.as_str());
        self.csrf_token = csrf_token.clone();
        self.config.csrf_token = csrf_token;
        self.config.cookies_json = cookies_json;
        Ok(self.download_bytes(request.url))
    }
}

// ---- listings ----

/// A listing as the server sent it: the items under `_embedded.collection` and those under `data`,
/// where it has such a list, and none for an item that is no node; and how many items there are in
/// all, under `page.totalElements`, where it says so.
#[derive(Debug)]
pub struct ListingReply {
    pub collection: Option<Vec<Option<CoreContentNode>>>,
    pub data: Option<Vec<Option<CoreContentNode>>>,
    pub total: Option<u64>,
}

/// The items of a listing: its collection, or else its data, or else nothing.
pub open spec fn listing_items(reply: ListingReply) -> Seq<Option<CoreContentNode>> {
    match (reply.collection, reply.data) {
        (Some(items), _) => items@,
        (None, Some(items)) => items@,
        (None, None) => seq![],
    }
}

/// The nodes among `items`.
pub open spec fn nodes_among(items: Seq<Option<CoreContentNode>>) -> Seq<CoreContentNode>
    decreases items.len(),
{
    if items.len() == 0 {
        seq![]
    } else {
        match items.last() {
            Some(node) => nodes_among(items.drop_last()).push(node),
            None => nodes_among(items.drop_last()),
        }
    }
}

/// Whether one of `nodes` has the id `id`.
pub open spec fn has_id(nodes: Seq<CoreContentNode>, id: Seq<char>) -> bool {
    exists|i: int| 0 <= i < nodes.len() && (#[trigger] nodes[i]).id@ == id
}

/// `nodes` without those whose id stands further to the front.
pub open spec fn first_of_each(nodes: Seq<CoreContentNode>) -> Seq<CoreContentNode>
    decreases nodes.len(),
{
    if nodes.len() == 0 {
        seq![]
    } else {
        let front = first_of_each(nodes.drop_last());
        if has_id(front, nodes.last().id@) {
            front
        } else {
            front.push(nodes.last())
        }
    }
}

/// The nodes of a listing, each id once.
pub open spec fn listed_nodes(reply: ListingReply) -> Seq<CoreContentNode> {
    first_of_each(nodes_among(listing_items(reply)))
}

/// The containers among `nodes`.
pub open spec fn containers(nodes: Seq<CoreContentNode>) -> Seq<CoreContentNode> {
    nodes.filter(|n: CoreContentNode| n.is_container)
}

fn holds_id(nodes: &Vec<CoreContentNode>, id: &str) -> (yes: bool)
    ensures
        yes == has_id(nodes@, id@),
{
    let mut i: usize = 0;
    while i < nodes.len()
        invariant
            i <= nodes.len(),
            forall|k: int| 0 <= k < i ==> (#[trigger] nodes@[k]).id@ != id@,
        decreases nodes.len() - i,
    {
        if same_text(nodes[i].id.as_str(), id) {
            return true;
        }
        i = i + 1;
    }
    false
}

/// The nodes of a listing, each id once.
pub fn nodes_of(reply: ListingReply) -> (nodes: Vec<CoreContentNode>)
    ensures
        nodes@ == listed_nodes(reply),
{
    let mut rest: Vec<Option<CoreContentNode>> = match reply.collection {
        Some(items) => items,
        None => match reply.data {
            Some(items) => items,
            None => Vec::new(),
        },
    };
    let ghost whole = rest@;
    assert(whole =~= listing_items(reply));
    let mut nodes: Vec<CoreContentNode> = Vec::new();
    while rest.len() > 0
        invariant
            rest@.len() <= whole.len(),
            rest@ == whole.skip(whole.len() - rest@.len()),
            nodes@ == first_of_each(nodes_among(whole.take(whole.len() - rest@.len()))),
        decreases rest.len(),
    {
        let ghost done = whole.len() - rest@.len();
        let item: Option<CoreContentNode> = rest.remove(0);
        proof {
            assert(whole.take(done + 1).drop_last() =~= whole.take(done));
            assert(whole.take(done + 1).last() == item);
        }
        match item {
            Some(node) => {
                proof {
                    let before = nodes_among(whole.take(done));
                    assert(before.push(node).drop_last() =~= before);
                }
                if !holds_id(&nodes, node.id.as_str()) {
                    nodes.push(node);
                }
            },
            None => {},
        }
    }
    assert(whole.take(whole.len() as int) =~= whole);
    nodes
}

/// The containers among `nodes`.
fn only_containers(nodes: Vec<CoreContentNode>) -> (folders: Vec<CoreContentNode>)
    ensures
        folders@ == containers(nodes@),
{
    let mut folders: Vec<CoreContentNode> = Vec::new();
    let ghost whole = nodes@;
    let mut rest: Vec<CoreContentNode> = nodes;
    assert(containers(whole.take(0)) =~= seq![]) by {
        reveal(Seq::filter);
    }
    while rest.len() > 0
        invariant
            rest@.len() <= whole.len(),
            rest@ == whole.skip(whole.len() - rest@.len()),
            folders@ == containers(whole.take(whole.len() - rest@.len())),
        decreases rest.len(),
    {
        let ghost done = whole.len() - rest@.len();
        let node: CoreContentNode = rest.remove(0);
        proof {
            reveal(Seq::filter);
            assert(whole.take(done + 1).drop_last() =~= whole.take(done));
            assert(whole.take(done + 1).last() == node);
        }
        if node.is_container {
            folders.push(node);
        }
    }
    assert(whole.take(whole.len() as int) =~= whole);
    folders
}

/// Where a node is described.
pub open spec fn node_path(node_id: Seq<char>) -> Seq<char> {
    "/cm/v1/node/"@ + node_id
}

/// Where the first `size` children of a node are listed.
pub open spec fn children_path(node_id: Seq<char>, size: u64) -> Seq<char> {
    node_path(node_id) + "/nodes?page=0&size="@ + decimal(size as nat)
}

/// How many children are asked for at first.
pub const FIRST_LISTING_SIZE: u64 = 200;

/// All children of a node, which are being listed. The server heeds how many items are asked for but
/// not which page, so that all of them are to come in one answer.
#[derive(Debug)]
pub struct ListingWalk {
    pub node_id: String,
    pub size: u64,
}

/// What to do when a listing has come.
#[derive(Debug)]
pub enum ListingStep {
    /// Ask again for as many children as the walk says.
    Again(ListingWalk),
    Done(Vec<CoreContentNode>),
}

/// The content of a `ListingStep`.
pub enum Listing {
    Next { node_id: Seq<char>, size: u64 },
    Done(Seq<CoreContentNode>),
}

impl View for ListingWalk {
    type V = Listing;

    open spec fn view(&self) -> Listing {
        Listing::Next { node_id: self.node_id@, size: self.size }
    }
}

impl View for ListingStep {
    type V = Listing;

    open spec fn view(&self) -> Listing {
        match self {
            ListingStep::Again(walk) => walk@,
            ListingStep::Done(nodes) => Listing::Done(nodes@),
        }
    }
}

/// A listing before its first answer.
pub open spec fn listing_begun(node_id: Seq<char>) -> Listing {
    Listing::Next { node_id, size: FIRST_LISTING_SIZE }
}

/// Twice `size`, as far as numbers go.
pub open spec fn doubled(size: u64) -> u64 {
    if size <= u64::MAX / 2 {
        (size + size) as u64
    } else {
        u64::MAX
    }
}

/// How many children to ask for when `count` of at most `size` have come; none where these are all.
/// They are not where there are more in all, or, where that is not said, where as many came as were
/// asked for.
pub open spec fn larger_size(size: u64, count: nat, total: Option<u64>) -> Option<u64> {
    match total {
        Some(t) => if t > count && t > size {
            Some(t)
        } else {
            None
        },
        None => if count >= size && doubled(size) > size {
            Some(doubled(size))
        } else {
            None
        },
    }
}

/// How a listing goes on when `reply` has come.
pub open spec fn listing_continued(node_id: Seq<char>, size: u64, reply: ListingReply) -> Listing {
    match larger_size(size, listing_items(reply).len(), reply.total) {
        Some(larger) => Listing::Next { node_id, size: larger },
        None => Listing::Done(listed_nodes(reply)),
    }
}

fn item_count(reply: &ListingReply) -> (count: usize)
    ensures
        count == listing_items(*reply).len(),
{
    match &reply.collection {
        Some(items) => items.len(),
        None => match &reply.data {
            Some(items) => items.len(),
            None => 0,
        },
    }
}

impl ListingWalk {
    /// Takes the answer to the request for the walk.
    pub fn on_reply(self, reply: ListingReply) -> (step: ListingStep)
        ensures
            step@ == listing_continued(self.node_id@, self.size, reply),
    {
        let count: u64 = item_count(&reply) as u64;
        let size: u64 = self.size;
        let larger: Option<u64> = match reply.total {
            Some(total) => if total > count && total > size {
                Some(total)
            } else {
                None
            },
            None => {
                let twice: u64 = if size <= u64::MAX / 2 {
                    size + size
                } else {
                    u64::MAX
                };
                if count >= size && twice > size {
                    Some(twice)
                } else {
                    None
                }
            },
        };
        match larger {
            Some(size) => ListingStep::Again(ListingWalk { node_id: self.node_id, size }),
            None => ListingStep::Done(nodes_of(reply)),
        }
    }
}

impl CoreContentClient {
    /// The request for the next answer to a listing.
    pub fn list_nodes_paginated(&self, walk: &ListingWalk) -> (request: ApiRequest)
        ensures
            request@ == self.request(
                api_url(self.config.base_url@, children_path(walk.node_id@, walk.size)),
            ),
    {
        let mut path: String = joined("/cm/v1/node/", walk.node_id.as_str());
        path.append("/nodes?page=0&size=");
        path.append(decimal_text(walk.size).as_str());
        self.api_get(path.as_str())
    }

    /// Begins to list all children of a node.
    pub fn list_directory(&self, node_id: &str) -> (walk: ListingWalk)
        ensures
            walk@ == listing_begun(node_id@),
    {
        ListingWalk { node_id: node_id.to_owned(), size: FIRST_LISTING_SIZE }
    }

    /// The request for the root node.
    pub fn list_root_folders(&self) -> (request: ApiRequest)
        ensures
            request@ == self.request(api_url(self.config.base_url@, "/cm/v1/node/root"@)),
    {
        self.api_get("/cm/v1/node/root")
    }

    /// Begins to list all children of the root node, given the id that it came with.
    pub fn on_root(&self, root_id: Option<String>) -> (walk: Result<ListingWalk, CoreContentError>)
        ensures
            match root_id {
                Some(id) => walk matches Ok(w) && w@ == listing_begun(id@),
                None => walk matches Err(e) && e@ == Failure::NotFound("root node has no id"@),
            },
    {
        match root_id {
            Some(id) => Ok(self.list_directory(id.as_str())),
            None => Err(CoreContentError::NotFound("root node has no id".to_owned())),
        }
    }

    /// The folders among the children of the root node.
    pub fn on_root_children(nodes: Vec<CoreContentNode>) -> (folders: Vec<CoreContentNode>)
        ensures
            folders@ == containers(nodes@),
    {
        only_containers(nodes)
    }
}

// ---- contents ----

/// How to get the content of a node.
#[derive(Debug)]
pub enum ContentStep {
    /// The cached content.
    Cached(Vec<u8>),
    /// Send the request and cache what comes.
    Download(ApiRequest),
}

/// The name under which the content of `node` is cached.
pub fn cache_key_for(node: &CoreContentNode) -> (key: String)
    ensures
        key@ == cache_key(node.id@, date_text(node.modify_date)),
        key@.len() == 32,
{
    cache_key_of(node.id.as_str(), &node.modify_date)
}

/// Where the content of a node is, by its links.
pub open spec fn download_url(
    links: Option<TextMap<String>>,
    base_url: Seq<char>,
) -> Result<Seq<char>, Failure> {
    match links {
        None => Err(Failure::NotFound("node has no cms_links"@)),
        Some(links) => if !links@.contains_key("urn:eim:linkrel:download-media"@) {
            Err(Failure::NotFound("no download-media link"@))
        } else {
            match origin(base_url) {
                Some(o) => Ok(o + links@["urn:eim:linkrel:download-media"@]@),
                None => Err(Failure::Other("invalid base_url"@)),
            }
        },
    }
}

impl CoreContentClient {
    /// The request for the description of the node whose content is wanted.
    pub fn get_content(&self, node_id: &str) -> (request: ApiRequest)
        ensures
            request@ == self.request(api_url(self.config.base_url@, node_path(node_id@))),
    {
        self.api_get(joined("/cm/v1/node/", node_id).as_str())
    }

    /// How to get the content of `node`, given what the cache holds under its name.
    pub fn on_cache(&self, node: &CoreContentNode, cached: Option<Vec<u8>>) -> (step: Result<
        ContentStep,
        CoreContentError,
    >)
        ensures
            match cached {
                Some(bytes) => step == Ok::<ContentStep, CoreContentError>(
                    ContentStep::Cached(bytes),
                ),
                None => match download_url(node.cms_links, self.config.base_url@) {
                    Ok(url) => step matches Ok(ContentStep::Download(r)) && r@ == self.request(url),
                    Err(failure) => step matches Err(e) && e@ == failure,
                },
            },
    {
        match cached {
            Some(bytes) => {
                return Ok(ContentStep::Cached(bytes));
            },
            None => {},
        }
        let links: &TextMap<String> = match &node.cms_links {
            Some(links) => links,
            None => {
                return Err(CoreContentError::NotFound("node has no cms_links".to_owned()));
            },
        };
        let path: &String = match links.get("urn:eim:linkrel:download-media") {
            Some(path) => path,
            None => {
                return Err(CoreContentError::NotFound("no download-media link".to_owned()));
            },
        };
        match base_origin(self.config.base_url.as_str()) {
            Some(o) => Ok(
                ContentStep::Download(self.download_bytes(joined(o, path.as_str()))),
            ),
            None => Err(CoreContentError::Other("invalid base_url".to_owned())),
        }
    }
}

// ---- snapshots ----

/// A survey of all documents in the folder, as far as it has come.
#[derive(Debug)]
pub struct SnapshotWalk {
    pub pending: Vec<String>,
    pub entries: TextMap<CoreContentSnapshotEntry>,
}

/// The content of a `CoreContentSnapshotEntry`.
pub struct Entry {
    pub name: Seq<char>,
    pub modify_date: Option<Seq<char>>,
    pub size: u64,
}

impl View for CoreContentSnapshotEntry {
    type V = Entry;

    open spec fn view(&self) -> Entry {
        Entry {
            name: self.name@,
            modify_date: match self.modify_date {
                Some(date) => Some(date@),
                None => None,
            },
            size: self.size,
        }
    }
}

/// Entries by their views.
pub open spec fn entries_view(entries: Map<Seq<char>, CoreContentSnapshotEntry>) -> Map<
    Seq<char>,
    Entry,
> {
    entries.map_values(|e: CoreContentSnapshotEntry| e@)
}

/// The content of a `SnapshotWalk`.
pub struct Survey {
    pub pending: Seq<Seq<char>>,
    pub entries: Map<Seq<char>, Entry>,
}

impl View for SnapshotWalk {
    type V = Survey;

    open spec fn view(&self) -> Survey {
        Survey { pending: views(self.pending@), entries: entries_view(self.entries@) }
    }
}

/// The larger of the two sizes that a node may have.
pub open spec fn entry_size(size: u64, content_size: Option<u64>) -> u64 {
    match content_size {
        Some(other) => if other > size {
            other
        } else {
            size
        },
        None => size,
    }
}

/// What is recorded of a document.
pub open spec fn entry_of(node: CoreContentNode) -> Entry {
    Entry {
        name: node.name@,
        modify_date: match node.modify_date {
            Some(date) => Some(date@),
            None => None,
        },
        size: entry_size(node.size, node.content_size),
    }
}

/// A survey with the children of a folder taken in: folders are yet to be listed, documents are
/// recorded by their ids, later ones over earlier ones.
pub open spec fn taken_in(survey: Survey, children: Seq<CoreContentNode>) -> Survey
    decreases children.len(),
{
    if children.len() == 0 {
        survey
    } else {
        let before = taken_in(survey, children.drop_last());
        let child = children.last();
        if child.is_container {
            Survey { pending: before.pending.push(child.id@), entries: before.entries }
        } else {
            Survey {
                pending: before.pending,
                entries: before.entries.insert(child.id@, entry_of(child)),
            }
        }
    }
}

/// A survey before its first folder.
pub open spec fn survey_begun(folder: Seq<char>) -> Survey {
    Survey { pending: seq![folder], entries: Map::empty() }
}

fn entry_for(
    name: String,
    modify_date: Option<String>,
    size: u64,
    content_size: Option<u64>,
) -> (entry: CoreContentSnapshotEntry)
    ensures
        entry == (CoreContentSnapshotEntry {
            name,
            modify_date,
            size: entry_size(size, content_size),
        }),
        entry.size >= size,
        content_size matches Some(other) ==> entry.size >= other,
        entry.size == size || content_size == Some(entry.size),
{
    let size: u64 = match content_size {
        Some(other) => if other > size {
            other
        } else {
            size
        },
        None => size,
    };
    CoreContentSnapshotEntry { name, modify_date, size }
}

impl CoreContentClient {
    /// Begins to survey the configured folder.
    pub fn recursive_snapshot(&self) -> (walk: SnapshotWalk)
        ensures
            walk@ == survey_begun(self.config.folder_node_id@),
    {
        let mut pending: Vec<String> = Vec::new();
        pending.push(self.config.folder_node_id.clone());
        let walk = SnapshotWalk { pending, entries: TextMap::new() };
        assert(walk@.pending =~= seq![self.config.folder_node_id@]);
        assert(walk@.entries =~= Map::empty());
        walk
    }
}

impl SnapshotWalk {
    /// The next folder whose children are to be listed; none where the survey is complete.
    pub fn next(&mut self) -> (folder: Option<String>)
        ensures
            match folder {
                Some(id) => {
                    &&& old(self)@.pending.len() > 0
                    &&& id@ == old(self)@.pending.last()
                    &&& final(self)@.pending == old(self)@.pending.drop_last()
                },
                None => old(self)@.pending.len() == 0 && final(self)@.pending
                    == old(self)@.pending,
            },
            final(self)@.entries == old(self)@.entries,
    {
        let ghost before = self.pending@;
        let folder: Option<String> = self.pending.pop();
        assert(folder is Some ==> views(self.pending@) =~= views(before).drop_last());
        folder
    }

    /// Takes in the children of the folder that `next` gave.
    pub fn on_children(&mut self, children: Vec<CoreContentNode>)
        ensures
            final(self)@ == taken_in(old(self)@, children@),
    {
        let ghost whole = children@;
        let ghost begun = self@;
        let mut rest: Vec<CoreContentNode> = children;
        while rest.len() > 0
            invariant
                rest@.len() <= whole.len(),
                rest@ == whole.skip(whole.len() - rest@.len()),
                self@ == taken_in(begun, whole.take(whole.len() - rest@.len())),
            decreases rest.len(),
        {
            let ghost done = whole.len() - rest@.len();
            let ghost before = *self;
            let child: CoreContentNode = rest.remove(0);
            proof {
                assert(whole.take(done + 1).drop_last() =~= whole.take(done));
                assert(whole.take(done + 1).last() == child);
            }
            if child.is_container {
                let ghost id = child.id@;
                self.pending.push(child.id);
                assert(views(self.pending@) =~= views(before.pending@).push(id));
            } else {
                let ghost id = child.id@;
                let entry: CoreContentSnapshotEntry = entry_for(
                    child.name,
                    child.modify_date,
                    child.size,
                    child.content_size,
                );
                let ghost recorded = entry;
                assert(entry@ == entry_of(child));
                self.entries.insert(child.id, entry);
                assert(entries_view(self.entries@) =~= entries_view(before.entries@).insert(
                    id,
                    recorded@,
                ));
            }
        }
        assert(whole.take(whole.len() as int) =~= whole);
    }
}

// ---- paths ----

/// Whether `path` has a last name that no platform changes. It holds no backslash. Two slashes in
/// front may make the first two names those of a share, and a colon behind the first character may
/// make the first name begin with a drive: then further names follow.
pub open spec fn is_plain_path(path: Seq<char>) -> bool {
    &&& forall|i: int| 0 <= i < path.len() ==> #[trigger] path[i] != '\\'
    &&& begins_with(path, "//"@) ==> proper_names(path).len() >= 3
    &&& path.len() >= 2 && path[0] != '/' && path[1] == ':' ==> proper_names(path).len() >= 2
}

/// Whether `path` with backslashes has one of two last names: that where a backslash is part of a
/// name, and that where it is a slash. A path behind `\\?\` may have others.
pub open spec fn is_slashed_path(path: Seq<char>) -> bool {
    is_plain_path(normalized(path)) && !begins_with(path, "\\\\?\\"@)
}

/// The names of a path but for those that stand for the directory itself.
pub open spec fn proper_names(path: Seq<char>) -> Seq<Seq<char>> {
    segments(path).filter(|name: Seq<char>| name != "."@)
}

/// The last name of a path; none where it ends by going up, or names nothing.
pub open spec fn last_name(path: Seq<char>) -> Option<Seq<char>> {
    if proper_names(path).len() == 0 || proper_names(path).last() == ".."@ {
        None
    } else {
        Some(proper_names(path).last())
    }
}

/// Whether `name` is the last name of `path`.
pub open spec fn names_last(name: Option<String>, path: Seq<char>) -> bool {
    match name {
        Some(n) => last_name(path) == Some(n@),
        None => last_name(path) is None,
    }
}

/// `Path::file_name`: the last component of a path. Whether a backslash separates components depends
/// on the platform. So does what comes of a path that is all share or drive, which is left open.
#[verifier::external_body]
fn file_name(path: &str) -> (name: Option<String>)
    ensures
        is_plain_path(path@) ==> names_last(name, path@),
        is_slashed_path(path@) ==> names_last(name, path@) || names_last(name, normalized(path@)),
{
    match std::path::Path::new(path).file_name() {
        Some(name) => name.to_str().map(|n| n.to_owned()),
        None => None,
    }
}

/// The name of the document that a path stands for.
pub open spec fn wanted_name(path: Seq<char>) -> Seq<char> {
    match last_name(path) {
        Some(name) => name,
        None => ""@,
    }
}

/// A search for a document by its name.
#[derive(Debug)]
pub struct NameSearch {
    pub name: String,
    pub walk: SnapshotWalk,
}

/// Whether one of `entries` has the name `name`.
pub open spec fn has_name(entries: Map<Seq<char>, Entry>, name: Seq<char>) -> bool {
    exists|id: Seq<char>| #[trigger] entries.contains_key(id) && entries[id].name == name
}

/// The message for a document that is not there.
pub open spec fn missing_file(name: Seq<char>, folder: Seq<char>) -> Seq<char> {
    "file '"@ + name + "' not found in Core Content folder '"@ + folder + "'"@
}

impl CoreContentClient {
    /// Begins to look for the document that `path` stands for; a backslash is a slash where it is one
    /// to the platform. The survey is to be completed, and what it has recorded to be handed to
    /// `on_snapshot`.
    pub fn resolve_path(&self, path: &str) -> (search: NameSearch)
        ensures
            is_plain_path(path@) ==> search.name@ == wanted_name(path@),
            is_slashed_path(path@) ==> search.name@ == wanted_name(path@) || search.name@
                == wanted_name(normalized(path@)),
            search.walk@ == survey_begun(self.config.folder_node_id@),
    {
        let name: String = match file_name(path) {
            Some(name) => name,
            None => "".to_owned(),
        };
        NameSearch { name, walk: self.recursive_snapshot() }
    }

    /// The id of a recorded document with the name `name`.
    pub fn on_snapshot(&self, name: &str, entries: &TextMap<CoreContentSnapshotEntry>) -> (id: Result<
        String,
        CoreContentError,
    >)
        ensures
            match id {
                Ok(id) => {
                    &&& entries@.contains_key(id@)
                    &&& entries@[id@].name@ == name@
                },
                Err(e) => {
                    &&& !has_name(entries_view(entries@), name@)
                    &&& e@ == Failure::NotFound(missing_file(name@, self.config.folder_name@))
                },
            },
    {
        let list: &Vec<(String, CoreContentSnapshotEntry)> = entries.entries();
        let mut i: usize = 0;
        while i < list.len()
            invariant
                i <= list.len(),
                entries@ == entry_map(list@),
                distinct_keys(list@),
                forall|k: int| 0 <= k < i ==> (#[trigger] list@[k]).1.name@ != name@,
            decreases list.len() - i,
        {
            if same_text(list[i].1.name.as_str(), name) {
                proof {
                    entry_found(list@, i as int);
                }
                return Ok(list[i].0.clone());
            }
            i = i + 1;
        }
        proof {
            let view = entries_view(entries@);
            if has_name(view, name@) {
                let id = choose|id: Seq<char>| #[trigger]
                    view.contains_key(id) && view[id].name == name@;
                let k = key_index(list@, id);
                assert(has_key(list@, id));
                assert(list@[k].0@ == id);
            }
        }
        let mut message: String = joined("file '", name);
        message.append("' not found in Core Content folder '");
        message.append(self.config.folder_name.as_str());
        message.append("'");
        Err(CoreContentError::NotFound(message))
    }

    /// Whether `path` names a source.
    pub fn is_source_path(&self, path: &str) -> (yes: bool)
        ensures
            yes == source_relative(path@) is Some,
    {
        source_part(path).is_some()
    }
}

} // verus!
