//! The xECM document server as a source.
//!
//! The client decides; whoever drives it sends the requests that it names and reports the answers.

use std::collections::HashMap;
use std::path::PathBuf;

use vstd::prelude::*;
use vstd::string::*;
use vstd::utf8::*;

use crate::cache_key::{cache_key, cache_key_of, date_text};
use crate::encoding::{url_encoded, urlencoding};
use crate::source_path::{
    normalize, normalized, path_segments, segments, source_part, source_relative, views,
};
use crate::text::{decimal, decimal_text, joined, same_text};
use crate::text_map::TextMap;
use crate::transport::{
    is_success, lost_failure, status_display, status_failure, status_message, status_text, success,
    Failure, LostRequest,
};

verus! {

broadcast use {vstd::string::group_string_axioms, vstd::std_specs::hash::group_hash_axioms};

/// `std::path::PathBuf`, which is only carried along.
#[verifier::external_type_specification]
#[verifier::external_body]
pub struct ExPathBuf(std::path::PathBuf);

/// A folder or document on the server.
#[derive(Debug, Clone)]
pub struct XecmNode {
    pub id: u64,
    pub name: String,
    pub type_: u64,
    pub container: bool,
    pub size: u64,
    pub modify_date: Option<String>,
    pub mime_type: Option<String>,
    pub parent_id: i64,
}

/// Which server and workspace to use, and as whom.
#[derive(Debug, Clone)]
pub struct XecmConfig {
    pub enabled: bool,
    pub base_url: String,
    pub workspace_node_id: u64,
    pub workspace_name: String,
    pub username: String,
    pub ticket: Option<String>,
    pub password: String,
    pub poll_interval_seconds: u64,
}

/// Why a request to the server failed.
#[derive(Debug)]
pub enum XecmError {
    Auth(String),
    Network(String),
    NotFound(String),
    RateLimited,
    Other(String),
}

impl View for XecmError {
    type V = Failure;

    open spec fn view(&self) -> Failure {
        match self {
            XecmError::Auth(m) => Failure::Auth(m@),
            XecmError::Network(m) => Failure::Network(m@),
            XecmError::NotFound(m) => Failure::NotFound(m@),
            XecmError::RateLimited => Failure::RateLimited,
            XecmError::Other(m) => Failure::Other(m@),
        }
    }
}

/// The message of a failure.
pub open spec fn xecm_message(failure: Failure) -> Seq<char> {
    match failure {
        Failure::Auth(m) => "xECM auth error: "@ + m,
        Failure::Network(m) => "xECM network error: "@ + m,
        Failure::NotFound(m) => "xECM not found: "@ + m,
        Failure::RateLimited => "xECM rate limited"@,
        Failure::Other(m) => "xECM error: "@ + m,
    }
}

impl XecmError {
    /// The message shown to the user.
    pub fn message(&self) -> (text: String)
        ensures
            text@ == xecm_message(self@),
    {
        match self {
            XecmError::Auth(m) => joined("xECM auth error: ", m.as_str()),
            XecmError::Network(m) => joined("xECM network error: ", m.as_str()),
            XecmError::NotFound(m) => joined("xECM not found: ", m.as_str()),
            XecmError::RateLimited => "xECM rate limited".to_owned(),
            XecmError::Other(m) => joined("xECM error: ", m.as_str()),
        }
    }

    /// The error of a request without an answer.
    pub fn lost(request: LostRequest) -> (error: XecmError)
        ensures
            error@ == lost_failure(request.timeout, request.connect, request.text@),
    {
        if request.timeout {
            XecmError::Network("request timed out".to_owned())
        } else if request.connect {
            XecmError::Network(joined("connection failed: ", request.text.as_str()))
        } else {
            XecmError::Other(joined("HTTP request failed: ", request.text.as_str()))
        }
    }
}

/// What is asked of an error of `reqwest` is left open, so no one error follows from it.
impl vstd::std_specs::convert::FromSpecImpl<reqwest::Error> for XecmError {
    open spec fn obeys_from_spec() -> bool {
        false
    }

    open spec fn from_spec(error: reqwest::Error) -> XecmError {
        arbitrary()
    }
}

impl From<reqwest::Error> for XecmError {
    fn from(error: reqwest::Error) -> (result: XecmError)
        ensures
            exists|lost: LostRequest| #[trigger]
                lost.told_by(&error) && result@ == lost_failure(
                    lost.timeout,
                    lost.connect,
                    lost.text@,
                ),
    {
        let lost: LostRequest = LostRequest::of(&error);
        assert(lost.told_by(&error));
        XecmError::lost(lost)
    }
}

// ---- addresses ----

/// How long the server may take to answer, in seconds.
pub const XECM_TIMEOUT_SECONDS: u64 = 30;

/// Where a node is described.
pub open spec fn node_url(base_url: Seq<char>, node_id: u64) -> Seq<char> {
    base_url + "/nodes/"@ + decimal(node_id as nat)
}

/// Where a page of the children of a node is listed.
pub open spec fn children_url(base_url: Seq<char>, node_id: u64, page: u32) -> Seq<char> {
    node_url(base_url, node_id) + "/nodes?limit=100&page="@ + decimal(page as nat)
}

/// Where the content of a node is.
pub open spec fn content_url(base_url: Seq<char>, node_id: u64) -> Seq<char> {
    node_url(base_url, node_id) + "/content"@
}

/// The body of a form with a user name and a password.
pub open spec fn credentials(username: Seq<char>, password: Seq<char>) -> Seq<char> {
    "username="@ + url_encoded(encode_utf8(username)) + "&password="@ + url_encoded(
        encode_utf8(password),
    )
}

fn node_address(base_url: &str, node_id: u64) -> (url: String)
    ensures
        url@ == node_url(base_url@, node_id),
{
    let mut url: String = joined(base_url, "/nodes/");
    url.append(decimal_text(node_id).as_str());
    url
}

// ---- calls with a ticket ----

/// A GET request with a ticket, sent in the header `OTCSTicket`.
#[derive(Debug)]
pub struct TicketRequest {
    pub url: String,
    pub ticket: String,
}

/// A POST request for a ticket, with a body of type `application/x-www-form-urlencoded`.
#[derive(Debug)]
pub struct TicketForm {
    pub url: String,
    pub body: String,
}

/// A GET request with a ticket that is sent again, once, with a new ticket where the first one has
/// expired.
#[derive(Debug)]
pub struct TicketCall {
    pub url: String,
    pub ticket: String,
    pub retried: bool,
}

/// A call that waits for a new ticket.
#[derive(Debug)]
pub struct ExpiredCall {
    pub form: TicketForm,
    pub url: String,
}

/// What to do when a call has been answered.
#[derive(Debug)]
pub enum CallStep {
    /// The answer holds what was asked for.
    ReadBody,
    /// Send the form, then the call again.
    Authenticate(ExpiredCall),
    Fail(XecmError),
}

/// The content of a `TicketCall`.
pub struct Call {
    pub url: Seq<char>,
    pub ticket: Seq<char>,
    pub retried: bool,
}

/// The content of a `CallStep`.
pub enum Step {
    ReadBody,
    Authenticate { form_url: Seq<char>, body: Seq<char>, url: Seq<char> },
    Fail(Failure),
}

impl View for TicketCall {
    type V = Call;

    open spec fn view(&self) -> Call {
        Call { url: self.url@, ticket: self.ticket@, retried: self.retried }
    }
}

impl View for CallStep {
    type V = Step;

    open spec fn view(&self) -> Step {
        match self {
            CallStep::ReadBody => Step::ReadBody,
            CallStep::Authenticate(next) => Step::Authenticate {
                form_url: next.form.url@,
                body: next.form.body@,
                url: next.url@,
            },
            CallStep::Fail(error) => Step::Fail(error@),
        }
    }
}

/// A result by its views.
pub open spec fn result_view<T, V>(result: Result<T, XecmError>, view: spec_fn(T) -> V) -> Result<
    V,
    Failure,
> {
    match result {
        Ok(value) => Ok(view(value)),
        Err(error) => Err(error@),
    }
}

/// A first call needs a ticket.
pub open spec fn first_call(ticket: Option<String>, url: Seq<char>) -> Result<Call, Failure> {
    match ticket {
        Some(t) => Ok(Call { url, ticket: t@, retried: false }),
        None => Err(Failure::Auth("no ticket configured"@)),
    }
}

/// What an answer to a call leads to: an expired ticket is renewed once, where a password is known.
pub open spec fn answered(config: XecmConfig, call: Call, status: u16) -> Step {
    if status == 401 && !call.retried {
        if config.password@.len() == 0 {
            Step::Fail(Failure::Auth("no password stored, cannot re-authenticate"@))
        } else {
            Step::Authenticate {
                form_url: config.base_url@ + "/auth"@,
                body: credentials(config.username@, config.password@),
                url: call.url,
            }
        }
    } else {
        match status_failure(status) {
            Some(failure) => Step::Fail(failure),
            None => Step::ReadBody,
        }
    }
}

/// The answer to a request for a ticket.
pub open spec fn authenticated(status: u16) -> Result<(), Failure> {
    if is_success(status) {
        Ok(())
    } else {
        Err(Failure::Auth("authentication failed with status "@ + status_text(status)))
    }
}

/// The state of a connection to the server.
pub struct XecmClient {
    pub config: XecmConfig,
    pub ticket: Option<String>,
    pub path_cache: TextMap<u64>,
    pub cache_dir: PathBuf,
}

impl XecmClient {
    /// A client with the ticket of its configuration and nothing resolved.
    pub fn new(config: XecmConfig, cache_dir: PathBuf) -> (client: Self)
        ensures
            client.config == config,
            client.ticket == config.ticket,
            client.path_cache@ == Map::<Seq<char>, u64>::empty(),
            client.cache_dir == cache_dir,
    {
        let ticket: Option<String> = match &config.ticket {
            Some(t) => Some(t.clone()),
            None => None,
        };
        XecmClient { config, ticket, path_cache: TextMap::new(), cache_dir }
    }

    /// The current ticket.
    pub fn ticket(&self) -> (ticket: Result<String, XecmError>)
        ensures
            match self.ticket {
                Some(t) => ticket == Ok::<String, XecmError>(t),
                None => ticket matches Err(e) && e@ == Failure::Auth("no ticket configured"@),
            },
    {
        match &self.ticket {
            Some(t) => Ok(t.clone()),
            None => Err(XecmError::Auth("no ticket configured".to_owned())),
        }
    }

    fn call(&self, url: String) -> (call: Result<TicketCall, XecmError>)
        ensures
            result_view(call, |c: TicketCall| c@) == first_call(self.ticket, url@),
    {
        match self.ticket() {
            Ok(ticket) => Ok(TicketCall { url, ticket, retried: false }),
            Err(error) => Err(error),
        }
    }

    /// The error of a status other than success.
    pub fn check_status(status: u16) -> (result: Result<(), XecmError>)
        ensures
            match status_failure(status) {
                Some(failure) => result matches Err(e) && e@ == failure,
                None => result is Ok,
            },
    {
        if success(status) {
            return Ok(());
        }
        if status == 401 {
            Err(XecmError::Auth("session expired".to_owned()))
        } else if status == 404 {
            Err(XecmError::NotFound("node not found".to_owned()))
        } else if status == 429 {
            Err(XecmError::RateLimited)
        } else {
            Err(XecmError::Other(status_message(status)))
        }
    }

    /// The request for a ticket.
    pub fn authenticate(base_url: &str, username: &str, password: &str) -> (form: TicketForm)
        ensures
            form.url@ == base_url@ + "/auth"@,
            form.body@ == credentials(username@, password@),
    {
        let mut body: String = joined("username=", urlencoding(username).as_str());
        body.append("&password=");
        body.append(urlencoding(password).as_str());
        TicketForm { url: joined(base_url, "/auth"), body }
    }

    /// What the status of the answer to a request for a ticket means.
    pub fn check_authentication(status: u16) -> (result: Result<(), XecmError>)
        requires
            100 <= status <= 999,
        ensures
            result_view(result, |u: ()| u) == authenticated(status),
    {
        if success(status) {
            Ok(())
        } else {
            Err(
                XecmError::Auth(
                    joined("authentication failed with status ", status_display(status).as_str()),
                ),
            )
        }
    }

    /// What to do when `call` has been answered with `status`.
    pub fn on_status(&self, call: TicketCall, status: u16) -> (step: CallStep)
        ensures
            step@ == answered(self.config, call@, status),
            step matches CallStep::Authenticate(expired) ==> expired.url@ == call.url@,
    {
        if status == 401 && !call.retried {
            if self.config.password.as_str().is_empty() {
                return CallStep::Fail(
                    XecmError::Auth("no password stored, cannot re-authenticate".to_owned()),
                );
            }
            let form: TicketForm = XecmClient::authenticate(
                self.config.base_url.as_str(),
                self.config.username.as_str(),
                self.config.password.as_str(),
            );
            return CallStep::Authenticate(ExpiredCall { form, url: call.url });
        }
        match XecmClient::check_status(status) {
            Ok(()) => CallStep::ReadBody,
            Err(error) => CallStep::Fail(error),
        }
    }

    /// Takes a new ticket and repeats the call that waited for it.
    pub fn on_ticket(&mut self, call: ExpiredCall, ticket: String) -> (again: TicketCall)
        ensures
            *final(self) == (XecmClient { ticket: Some(ticket), ..*old(self) }),
            again@ == (Call { url: call.url@, ticket: ticket@, retried: true }),
    {
        self.ticket = Some(ticket.clone());
        TicketCall { url: call.url, ticket, retried: true }
    }
}

// ---- nodes and workspaces ----

/// The first of `nodes` with the name `name`.
pub open spec fn node_named(nodes: Seq<XecmNode>, name: Seq<char>) -> Option<XecmNode>
    decreases nodes.len(),
{
    if nodes.len() == 0 {
        None
    } else if nodes[0].name@ == name {
        Some(nodes[0])
    } else {
        node_named(nodes.skip(1), name)
    }
}

fn find_named(nodes: &Vec<XecmNode>, name: &str) -> (position: Option<usize>)
    ensures
        match position {
            Some(i) => {
                &&& i < nodes.len()
                &&& node_named(nodes@, name@) == Some(nodes@[i as int])
                &&& nodes@[i as int].name@ == name@
                &&& forall|j: int| 0 <= j < i ==> (#[trigger] nodes@[j]).name@ != name@
            },
            None => {
                &&& node_named(nodes@, name@) is None
                &&& forall|j: int| 0 <= j < nodes.len() ==> (#[trigger] nodes@[j]).name@ != name@
            },
        },
{
    let mut i: usize = 0;
    assert(nodes@.skip(0) =~= nodes@);
    while i < nodes.len()
        invariant
            i <= nodes.len(),
            forall|j: int| 0 <= j < i ==> (#[trigger] nodes@[j]).name@ != name@,
            node_named(nodes@, name@) == node_named(nodes@.skip(i as int), name@),
        decreases nodes.len() - i,
    {
        if same_text(nodes[i].name.as_str(), name) {
            return Some(i);
        }
        assert(nodes@.skip(i as int).skip(1) =~= nodes@.skip(i + 1));
        i = i + 1;
    }
    None
}

/// A workspace to choose from.
#[derive(Debug)]
pub struct WorkspaceChoice {
    pub name: String,
    pub id: u64,
    pub type_: u64,
}

/// Whether `choice` shows `node`.
pub open spec fn shows(choice: WorkspaceChoice, node: XecmNode) -> bool {
    &&& choice.name == node.name
    &&& choice.id == node.id
    &&& choice.type_ == node.type_
}

/// The containers among `nodes`.
pub open spec fn containers(nodes: Seq<XecmNode>) -> Seq<XecmNode> {
    nodes.filter(|n: XecmNode| n.container)
}

/// The containers among `nodes`, to choose a workspace from.
pub fn workspace_choices(nodes: Vec<XecmNode>) -> (choices: Vec<WorkspaceChoice>)
    ensures
        choices@.len() == containers(nodes@).len(),
        forall|i: int|
            0 <= i < choices@.len() ==> shows(#[trigger] choices@[i], containers(nodes@)[i]),
{
    let mut choices: Vec<WorkspaceChoice> = Vec::new();
    let ghost whole = nodes@;
    let mut rest: Vec<XecmNode> = nodes;
    assert(containers(whole.take(0)) =~= seq![]) by {
        reveal(Seq::filter);
    }
    while rest.len() > 0
        invariant
            rest@.len() <= whole.len(),
            rest@ == whole.skip(whole.len() - rest@.len()),
            choices@.len() == containers(whole.take(whole.len() - rest@.len())).len(),
            forall|i: int|
                0 <= i < choices@.len() ==> shows(
                    #[trigger] choices@[i],
                    containers(whole.take(whole.len() - rest@.len()))[i],
                ),
        decreases rest.len(),
    {
        let ghost done = whole.len() - rest@.len();
        let node: XecmNode = rest.remove(0);
        proof {
            reveal(Seq::filter);
            assert(whole.take(done + 1).drop_last() =~= whole.take(done));
            assert(whole.take(done + 1).last() == node);
        }
        if node.container {
            choices.push(WorkspaceChoice { name: node.name, id: node.id, type_: node.type_ });
        }
    }
    assert(whole.take(whole.len() as int) =~= whole);
    choices
}

impl XecmClient {
    /// The request for the workspaces of a server.
    pub fn list_workspaces(base_url: &str, ticket: &str) -> (request: TicketRequest)
        ensures
            request.url@ == base_url@ + "/volumes"@,
            request.ticket@ == ticket@,
    {
        TicketRequest { url: joined(base_url, "/volumes"), ticket: ticket.to_owned() }
    }

    /// The workspaces among the nodes that came: the containers.
    pub fn on_workspaces(nodes: Vec<XecmNode>) -> (workspaces: Vec<XecmNode>)
        ensures
            workspaces@ == containers(nodes@),
    {
        let mut workspaces: Vec<XecmNode> = Vec::new();
        let ghost whole = nodes@;
        let mut rest: Vec<XecmNode> = nodes;
        assert(containers(whole.take(0)) =~= seq![]) by {
            reveal(Seq::filter);
        }
        while rest.len() > 0
            invariant
                rest@.len() <= whole.len(),
                rest@ == whole.skip(whole.len() - rest@.len()),
                workspaces@ == containers(whole.take(whole.len() - rest@.len())),
            decreases rest.len(),
        {
            let ghost done = whole.len() - rest@.len();
            let node: XecmNode = rest.remove(0);
            proof {
                reveal(Seq::filter);
                assert(whole.take(done + 1).drop_last() =~= whole.take(done));
                assert(whole.take(done + 1).last() == node);
            }
            if node.container {
                workspaces.push(node);
            }
        }
        assert(whole.take(whole.len() as int) =~= whole);
        workspaces
    }

    /// The request for the workspaces among which the configured one is.
    pub fn resolve_workspace(&self) -> (request: Result<TicketRequest, XecmError>)
        ensures
            match self.ticket {
                Some(t) => request matches Ok(r) && r.url@ == self.config.base_url@ + "/volumes"@
                    && r.ticket@ == t@,
                None => request matches Err(e) && e@ == Failure::Auth("no ticket configured"@),
            },
    {
        match self.ticket() {
            Ok(ticket) => Ok(
                XecmClient::list_workspaces(self.config.base_url.as_str(), ticket.as_str()),
            ),
            Err(error) => Err(error),
        }
    }

    /// The first workspace with the configured name.
    pub fn pick_workspace(&self, workspaces: Vec<XecmNode>) -> (node: Result<XecmNode, XecmError>)
        ensures
            match node_named(workspaces@, self.config.workspace_name@) {
                Some(found) => node == Ok::<XecmNode, XecmError>(found),
                None => node matches Err(e) && e@ == Failure::NotFound(
                    "workspace '"@ + self.config.workspace_name@ + "' not found"@,
                ),
            },
            node matches Ok(found) ==> found.name@ == self.config.workspace_name@
                && workspaces@.contains(found),
            node is Err ==> forall|i: int|
                0 <= i < workspaces@.len() ==> (#[trigger] workspaces@[i]).name@
                    != self.config.workspace_name@,
    {
        let mut workspaces: Vec<XecmNode> = workspaces;
        match find_named(&workspaces, self.config.workspace_name.as_str()) {
            Some(i) => Ok(workspaces.remove(i)),
            None => {
                let mut message: String = joined("workspace '", self.config.workspace_name.as_str());
                message.append("' not found");
                Err(XecmError::NotFound(message))
            },
        }
    }

    /// The call for the description of a node.
    pub fn get_node(&self, node_id: u64) -> (call: Result<TicketCall, XecmError>)
        ensures
            result_view(call, |c: TicketCall| c@) == first_call(
                self.ticket,
                node_url(self.config.base_url@, node_id),
            ),
    {
        self.call(node_address(self.config.base_url.as_str(), node_id))
    }

    /// The call for a page of the children of a node.
    pub fn list_directory(&self, node_id: u64, page: u32) -> (call: Result<TicketCall, XecmError>)
        ensures
            result_view(call, |c: TicketCall| c@) == first_call(
                self.ticket,
                children_url(self.config.base_url@, node_id, page),
            ),
    {
        let mut url: String = node_address(self.config.base_url.as_str(), node_id);
        url.append("/nodes?limit=100&page=");
        url.append(decimal_text(page as u64).as_str());
        self.call(url)
    }
}

// ---- pages of children ----

/// The children of a node, as far as they have been listed.
#[derive(Debug)]
pub struct PageWalk {
    pub node_id: u64,
    pub page: u32,
    pub nodes: Vec<XecmNode>,
}

/// What to do when a page of children has come.
#[derive(Debug)]
pub enum PageStep {
    /// List the page that the walk names.
    Next(PageWalk),
    Done(Vec<XecmNode>),
}

/// The content of a `PageStep`.
pub enum Pages {
    Next { node_id: u64, page: u32, nodes: Seq<XecmNode> },
    Done(Seq<XecmNode>),
}

impl View for PageWalk {
    type V = Pages;

    open spec fn view(&self) -> Pages {
        Pages::Next { node_id: self.node_id, page: self.page, nodes: self.nodes@ }
    }
}

impl View for PageStep {
    type V = Pages;

    open spec fn view(&self) -> Pages {
        match self {
            PageStep::Next(walk) => walk@,
            PageStep::Done(nodes) => Pages::Done(nodes@),
        }
    }
}

/// The number of pages that a listing speaks of.
pub open spec fn page_count(page_total: Option<u32>) -> u32 {
    match page_total {
        Some(total) => total,
        None => 1,
    }
}

/// A listing before its first page.
pub open spec fn pages_begun(node_id: u64) -> Pages {
    Pages::Next { node_id, page: 1, nodes: seq![] }
}

/// A listing with one more page; it is complete where that was the last one.
pub open spec fn pages_continued(
    node_id: u64,
    page: u32,
    nodes: Seq<XecmNode>,
    more: Seq<XecmNode>,
    page_total: Option<u32>,
) -> Pages {
    if page >= page_count(page_total) {
        Pages::Done(nodes + more)
    } else {
        Pages::Next { node_id, page: (page + 1) as u32, nodes: nodes + more }
    }
}

impl XecmClient {
    /// Begins to list all children of a node.
    pub fn list_all_children(node_id: u64) -> (walk: PageWalk)
        ensures
            walk@ == pages_begun(node_id),
    {
        PageWalk { node_id, page: 1, nodes: Vec::new() }
    }
}

impl PageWalk {
    /// Takes the children of the page and the number of pages that came with it.
    pub fn on_page(self, nodes: Vec<XecmNode>, page_total: Option<u32>) -> (step: PageStep)
        ensures
            step@ == pages_continued(self.node_id, self.page, self.nodes@, nodes@, page_total),
    {
        let total: u32 = match page_total {
            Some(total) => total,
            None => 1,
        };
        let mut all: Vec<XecmNode> = self.nodes;
        let mut nodes: Vec<XecmNode> = nodes;
        all.append(&mut nodes);
        if self.page >= total {
            PageStep::Done(all)
        } else {
            PageStep::Next(PageWalk { node_id: self.node_id, page: self.page + 1, nodes: all })
        }
    }
}

// ---- contents ----

/// Where the content of a node is cached and where it can be had.
#[derive(Debug)]
pub struct ContentFetch {
    pub cache_key: String,
    pub url: String,
}

/// How to get the content of a node.
#[derive(Debug)]
pub enum ContentStep {
    /// The cached content.
    Cached(Vec<u8>),
    /// Call for the content and cache what comes.
    Download(TicketCall),
}

/// The name under which the content of `node` is cached.
pub fn cache_key_for(node: &XecmNode) -> (key: String)
    ensures
        key@ == cache_key(decimal(node.id as nat), date_text(node.modify_date)),
        key@.len() == 32,
{
    cache_key_of(decimal_text(node.id).as_str(), &node.modify_date)
}

impl XecmClient {
    /// Where to find the content of the node `node_id`, described by `node`.
    pub fn get_content(&self, node_id: u64, node: &XecmNode) -> (fetch: ContentFetch)
        ensures
            fetch.cache_key@ == cache_key(decimal(node.id as nat), date_text(node.modify_date)),
            fetch.url@ == content_url(self.config.base_url@, node_id),
    {
        let mut url: String = node_address(self.config.base_url.as_str(), node_id);
        url.append("/content");
        ContentFetch { cache_key: cache_key_for(node), url }
    }

    /// How to get the content, given what the cache holds under its name.
    pub fn on_cache(&self, fetch: ContentFetch, cached: Option<Vec<u8>>) -> (step: Result<
        ContentStep,
        XecmError,
    >)
        ensures
            match cached {
                Some(bytes) => step == Ok::<ContentStep, XecmError>(ContentStep::Cached(bytes)),
                None => match first_call(self.ticket, fetch.url@) {
                    Ok(call) => step matches Ok(ContentStep::Download(c)) && c@ == call,
                    Err(failure) => step matches Err(e) && e@ == failure,
                },
            },
    {
        match cached {
            Some(bytes) => Ok(ContentStep::Cached(bytes)),
            None => match self.call(fetch.url) {
                Ok(call) => Ok(ContentStep::Download(call)),
                Err(error) => Err(error),
            },
        }
    }
}

// ---- paths ----

/// A path that is being resolved, one name at a time.
#[derive(Debug)]
pub struct PathWalk {
    pub path: String,
    pub current: u64,
    pub segment: String,
    pub rest: Vec<String>,
}

/// How far a path has been resolved.
#[derive(Debug)]
pub enum PathStep {
    Found(u64),
    Failed(XecmError),
    /// List all children of the node `current` of the walk.
    List(PathWalk),
}

/// The content of a `PathStep`.
pub enum PathState {
    Found(u64),
    Failed(Failure),
    List { path: Seq<char>, current: u64, segments: Seq<Seq<char>> },
}

impl View for PathStep {
    type V = PathState;

    open spec fn view(&self) -> PathState {
        match self {
            PathStep::Found(id) => PathState::Found(*id),
            PathStep::Failed(error) => PathState::Failed(error@),
            PathStep::List(walk) => PathState::List {
                path: walk.path@,
                current: walk.current,
                segments: walk.segments(),
            },
        }
    }
}

impl PathWalk {
    /// The names that are left, the next one first.
    pub open spec fn segments(&self) -> Seq<Seq<char>> {
        seq![self.segment@] + views(self.rest@)
    }
}

/// A path is resolved where no names are left.
pub open spec fn path_from(path: Seq<char>, current: u64, names: Seq<Seq<char>>) -> PathState {
    if names.len() == 0 {
        PathState::Found(current)
    } else {
        PathState::List { path, current, segments: names }
    }
}

/// How the resolution of `path` begins: with a known result, with a refusal of a path that names no
/// source, or at the workspace.
pub open spec fn path_begun(
    workspace: u64,
    known: Map<Seq<char>, u64>,
    path: Seq<char>,
) -> PathState {
    if known.contains_key(normalized(path)) {
        PathState::Found(known[normalized(path)])
    } else {
        match source_relative(path) {
            Some(relative) => path_from(path, workspace, segments(relative)),
            None => PathState::Failed(
                Failure::Other("path '"@ + path + "' is not under raw/sources/"@),
            ),
        }
    }
}

/// How the resolution goes on when the children of the current node have come.
pub open spec fn path_continued(
    path: Seq<char>,
    current: u64,
    names: Seq<Seq<char>>,
    children: Seq<XecmNode>,
) -> PathState {
    match node_named(children, names[0]) {
        Some(child) => path_from(path, child.id, names.skip(1)),
        None => PathState::Failed(
            Failure::NotFound(
                "'"@ + names[0] + "' not found in parent node "@ + decimal(current as nat)
                    + " (path: "@ + path + ")"@,
            ),
        ),
    }
}

/// What is known of paths once `path` has come to `state`.
pub open spec fn known_after(
    known: Map<Seq<char>, u64>,
    path: Seq<char>,
    state: PathState,
) -> Map<Seq<char>, u64> {
    match state {
        PathState::Found(id) => known.insert(normalized(path), id),
        _ => known,
    }
}

fn path_step(path: String, current: u64, names: Vec<String>) -> (step: PathStep)
    ensures
        step@ == path_from(path@, current, views(names@)),
{
    if names.len() == 0 {
        PathStep::Found(current)
    } else {
        let ghost all = views(names@);
        let mut rest: Vec<String> = names;
        let segment: String = rest.remove(0);
        let walk = PathWalk { path, current, segment, rest };
        assert(walk.segments() =~= all);
        PathStep::List(walk)
    }
}

impl XecmClient {
    fn remember(&mut self, path: &str, step: &PathStep)
        ensures
            final(self).path_cache@ == known_after(old(self).path_cache@, path@, step@),
            final(self).config == old(self).config,
            final(self).ticket == old(self).ticket,
            final(self).cache_dir == old(self).cache_dir,
    {
        match step {
            PathStep::Found(id) => {
                self.path_cache.insert(normalize(path), *id);
            },
            _ => {},
        }
    }

    /// Begins to resolve a path to the id of a node.
    pub fn resolve_path(&mut self, path: &str) -> (step: PathStep)
        ensures
            step@ == path_begun(
                old(self).config.workspace_node_id,
                old(self).path_cache@,
                path@,
            ),
            final(self).path_cache@ == known_after(old(self).path_cache@, path@, step@),
            final(self).config == old(self).config,
            final(self).ticket == old(self).ticket,
            final(self).cache_dir == old(self).cache_dir,
    {
        let key: String = normalize(path);
        match self.path_cache.get(key.as_str()) {
            Some(id) => {
                let ghost cache = self.path_cache@;
                assert(cache.insert(normalized(path@), cache[normalized(path@)]) =~= cache);
                return PathStep::Found(*id);
            },
            None => {},
        }
        let step: PathStep = match source_part(path) {
            Some(relative) => path_step(
                path.to_owned(),
                self.config.workspace_node_id,
                path_segments(relative.as_str()),
            ),
            None => {
                let mut message: String = joined("path '", path);
                message.append("' is not under raw/sources/");
                PathStep::Failed(XecmError::Other(message))
            },
        };
        self.remember(path, &step);
        step
    }

    /// Goes on with a path when all children of its current node have come.
    pub fn on_children(&mut self, walk: PathWalk, children: Vec<XecmNode>) -> (step: PathStep)
        ensures
            step@ == path_continued(walk.path@, walk.current, walk.segments(), children@),
            step matches PathStep::Found(id) ==> exists|i: int|
                0 <= i < children@.len() && (#[trigger] children@[i]).id == id
                    && children@[i].name@ == walk.segment@,
            final(self).path_cache@ == known_after(old(self).path_cache@, walk.path@, step@),
            final(self).config == old(self).config,
            final(self).ticket == old(self).ticket,
            final(self).cache_dir == old(self).cache_dir,
    {
        assert(walk.segments().skip(1) =~= views(walk.rest@));
        let path: String = walk.path.clone();
        let step: PathStep = match find_named(&children, walk.segment.as_str()) {
            Some(i) => path_step(walk.path, children[i].id, walk.rest),
            None => {
                let mut message: String = joined("'", walk.segment.as_str());
                message.append("' not found in parent node ");
                message.append(decimal_text(walk.current).as_str());
                message.append(" (path: ");
                message.append(walk.path.as_str());
                message.append(")");
                PathStep::Failed(XecmError::NotFound(message))
            },
        };
        self.remember(path.as_str(), &step);
        step
    }

    /// Whether `path` names a source.
    pub fn is_source_path(&self, path: &str) -> (yes: bool)
        ensures
            yes == source_relative(path@) is Some,
    {
        source_part(path).is_some()
    }
}

// ---- snapshots ----

/// A survey of everything in the workspace, as far as it has come.
#[derive(Debug)]
pub struct SnapshotWalk {
    pub pending: Vec<u64>,
    pub nodes: HashMap<u64, XecmNode>,
}

/// The content of a `SnapshotWalk`.
pub struct Survey {
    pub pending: Seq<u64>,
    pub nodes: Map<u64, XecmNode>,
}

impl View for SnapshotWalk {
    type V = Survey;

    open spec fn view(&self) -> Survey {
        Survey { pending: self.pending@, nodes: self.nodes@ }
    }
}

/// `nodes` with `children` recorded by their ids, later ones over earlier ones.
pub open spec fn recorded(nodes: Map<u64, XecmNode>, children: Seq<XecmNode>) -> Map<u64, XecmNode>
    decreases children.len(),
{
    if children.len() == 0 {
        nodes
    } else {
        recorded(nodes, children.drop_last()).insert(children.last().id, children.last())
    }
}

/// The ids of the containers among `children`.
pub open spec fn container_ids(children: Seq<XecmNode>) -> Seq<u64> {
    containers(children).map_values(|n: XecmNode| n.id)
}

/// A survey with the children of a container taken in.
pub open spec fn taken_in(survey: Survey, children: Seq<XecmNode>) -> Survey {
    Survey {
        pending: survey.pending + container_ids(children),
        nodes: recorded(survey.nodes, children),
    }
}

/// A survey before its first container.
pub open spec fn survey_begun(workspace: u64) -> Survey {
    Survey { pending: seq![workspace], nodes: Map::empty() }
}

impl XecmClient {
    /// Begins to survey the workspace.
    pub fn recursive_snapshot(&self) -> (walk: SnapshotWalk)
        ensures
            walk@ == survey_begun(self.config.workspace_node_id),
    {
        let mut pending: Vec<u64> = Vec::new();
        pending.push(self.config.workspace_node_id);
        let walk = SnapshotWalk { pending, nodes: HashMap::new() };
        assert(walk@.pending =~= seq![self.config.workspace_node_id]);
        walk
    }
}

impl SnapshotWalk {
    /// The next container whose children are to be listed; none where the survey is complete.
    pub fn next(&mut self) -> (container: Option<u64>)
        ensures
            match container {
                Some(id) => {
                    &&& old(self)@.pending.len() > 0
                    &&& id == old(self)@.pending.last()
                    &&& final(self)@.pending == old(self)@.pending.drop_last()
                },
                None => old(self)@.pending.len() == 0 && final(self)@.pending
                    == old(self)@.pending,
            },
            final(self)@.nodes == old(self)@.nodes,
    {
        self.pending.pop()
    }

    /// Takes in all children of the container that `next` gave.
    pub fn on_children(&mut self, children: Vec<XecmNode>)
        ensures
            final(self)@ == taken_in(old(self)@, children@),
    {
        let ghost whole = children@;
        let ghost begun = self@;
        let mut rest: Vec<XecmNode> = children;
        proof {
            reveal(Seq::filter);
            assert(whole.take(0) =~= seq![]);
            assert(container_ids(whole.take(0)) =~= seq![]);
            assert(begun.pending + seq![] =~= begun.pending);
        }
        while rest.len() > 0
            invariant
                rest@.len() <= whole.len(),
                rest@ == whole.skip(whole.len() - rest@.len()),
                self@.pending == begun.pending + container_ids(
                    whole.take(whole.len() - rest@.len()),
                ),
                self@.nodes == recorded(begun.nodes, whole.take(whole.len() - rest@.len())),
            decreases rest.len(),
        {
            let ghost done = whole.len() - rest@.len();
            let child: XecmNode = rest.remove(0);
            let id: u64 = child.id;
            proof {
                reveal(Seq::filter);
                assert(whole.take(done + 1).drop_last() =~= whole.take(done));
                assert(whole.take(done + 1).last() == child);
                let before = container_ids(whole.take(done));
                if child.container {
                    assert(container_ids(whole.take(done + 1)) =~= before.push(id));
                    assert(begun.pending + before.push(id) =~= (begun.pending + before).push(id));
                } else {
                    assert(container_ids(whole.take(done + 1)) =~= before);
                }
            }
            if child.container {
                self.pending.push(id);
            }
            self.nodes.insert(id, child);
        }
        assert(whole.take(whole.len() as int) =~= whole);
    }
}

} // verus!
