//! What holds of whole exchanges with the xECM server.

use vstd::prelude::*;
use vstd::string::*;
use vstd::utf8::*;

use crate::encoding::{
    is_encoding_char, law_encoding_alphabet, law_percent_injective, law_percent_round_trip,
    lossy_text, percent_decoded, url_encoded,
};
use crate::source_path::{law_slashes_alike, normalized, segments, source_relative};
use crate::text::{decimal, decimal_properties, decimal_value};
use crate::transport::{is_success, status_failure, status_text, Failure};
use crate::xecm_client::{
    answered, authenticated, children_url, container_ids, containers, content_url, credentials,
    first_call, known_after, node_named, node_url, page_count, pages_begun, pages_continued,
    path_begun, path_continued, path_from, recorded, result_view, shows, survey_begun, taken_in,
    xecm_message, Call, CallStep, PageStep, PageWalk, Pages, PathState, PathStep, PathWalk,
    SnapshotWalk, Step, Survey, TicketCall, WorkspaceChoice, XecmConfig, XecmError, XecmNode,
};

verus! {

broadcast use vstd::string::group_string_axioms;

// ---- tickets ----

/// A call that has been repeated is not repeated again.
pub proof fn law_one_reauthentication(config: XecmConfig, call: Call, status: u16)
    requires
        call.retried,
    ensures
        !(answered(config, call, status) is Authenticate),
{
}

/// A ticket that is refused twice in one call is a session that has expired.
pub proof fn law_refused_twice(config: XecmConfig, call: Call)
    requires
        call.retried,
    ensures
        answered(config, call, 401) == Step::Fail(Failure::Auth("session expired"@)),
{
}

/// What comes of a call whose answers are `first`, then, where a ticket is asked for, `login` and
/// `second`.
pub open spec fn call_outcome(
    config: XecmConfig,
    call: Call,
    first: u16,
    login: u16,
    ticket: Seq<char>,
    second: u16,
) -> Result<(), Failure> {
    match answered(config, call, first) {
        Step::ReadBody => Ok(()),
        Step::Fail(failure) => Err(failure),
        Step::Authenticate { url, .. } => match authenticated(login) {
            Err(failure) => Err(failure),
            Ok(()) => match answered(config, Call { url, ticket, retried: true }, second) {
                Step::Fail(failure) => Err(failure),
                _ => Ok(()),
            },
        },
    }
}

/// A call succeeds exactly where its first answer is a success, or where its ticket had expired, a
/// password is known, the server gives a new ticket and then answers with success.
pub proof fn law_call_succeeds(
    config: XecmConfig,
    call: Call,
    first: u16,
    login: u16,
    ticket: Seq<char>,
    second: u16,
)
    requires
        !call.retried,
    ensures
        call_outcome(config, call, first, login, ticket, second) is Ok <==> {
            ||| is_success(first)
            ||| first == 401 && config.password@.len() > 0 && is_success(login) && is_success(
                second,
            )
        },
{
}

/// The form with a user name and a password determines both.
pub proof fn law_credentials_injective(
    user: Seq<char>,
    password: Seq<char>,
    other_user: Seq<char>,
    other_password: Seq<char>,
)
    requires
        credentials(user, password) == credentials(other_user, other_password),
    ensures
        user == other_user,
        password == other_password,
{
    reveal_strlit("username=");
    reveal_strlit("&password=");
    let u = url_encoded(encode_utf8(user));
    let p = url_encoded(encode_utf8(password));
    let v = url_encoded(encode_utf8(other_user));
    let q = url_encoded(encode_utf8(other_password));
    law_encoding_alphabet(encode_utf8(user));
    law_encoding_alphabet(encode_utf8(other_user));
    let x = credentials(user, password);
    let y = credentials(other_user, other_password);
    let n = u.len() as int;
    let m = v.len() as int;
    assert(x[9 + n] == '&');
    assert(y[9 + m] == '&');
    if n < m {
        assert(y[9 + n] == v[n]);
        assert(is_encoding_char(v[n]));
    } else if m < n {
        assert(x[9 + m] == u[m]);
        assert(is_encoding_char(u[m]));
    }
    assert(x.subrange(9, 9 + n) =~= u);
    assert(y.subrange(9, 9 + m) =~= v);
    assert(x.skip(19 + n) =~= p);
    assert(y.skip(19 + m) =~= q);
    law_percent_injective(user, other_user);
    law_percent_injective(password, other_password);
}

// ---- messages and addresses ----

/// The message of a failure tells its kind and holds what it says, whole: different failures have
/// different messages.
pub proof fn law_xecm_messages(a: Failure, b: Failure)
    ensures
        xecm_message(a) == xecm_message(b) ==> a == b,
        a matches Failure::Auth(m) ==> xecm_message(a).skip(17) == m && xecm_message(a).len() == 17
            + m.len(),
        a matches Failure::Network(m) ==> xecm_message(a).skip(20) == m && xecm_message(a).len()
            == 20 + m.len(),
        a matches Failure::NotFound(m) ==> xecm_message(a).skip(16) == m && xecm_message(a).len()
            == 16 + m.len(),
        a matches Failure::Other(m) ==> xecm_message(a).skip(12) == m && xecm_message(a).len() == 12
            + m.len(),
{
    reveal_strlit("xECM auth error: ");
    reveal_strlit("xECM network error: ");
    reveal_strlit("xECM not found: ");
    reveal_strlit("xECM rate limited");
    reveal_strlit("xECM error: ");
    let x = xecm_message(a);
    let y = xecm_message(b);
    xecm_message_tail(a);
    xecm_message_tail(b);
    if x == y {
        assert(x[5] == y[5] && x[6] == y[6]);
    }
}

proof fn xecm_message_tail(a: Failure)
    ensures
        a matches Failure::Auth(m) ==> xecm_message(a).skip(17) == m && xecm_message(a).len() == 17
            + m.len(),
        a matches Failure::Network(m) ==> xecm_message(a).skip(20) == m && xecm_message(a).len()
            == 20 + m.len(),
        a matches Failure::NotFound(m) ==> xecm_message(a).skip(16) == m && xecm_message(a).len()
            == 16 + m.len(),
        a matches Failure::Other(m) ==> xecm_message(a).skip(12) == m && xecm_message(a).len() == 12
            + m.len(),
{
    reveal_strlit("xECM auth error: ");
    reveal_strlit("xECM network error: ");
    reveal_strlit("xECM not found: ");
    reveal_strlit("xECM error: ");
    match a {
        Failure::Auth(m) => assert(xecm_message(a).skip(17) =~= m),
        Failure::Network(m) => assert(xecm_message(a).skip(20) =~= m),
        Failure::NotFound(m) => assert(xecm_message(a).skip(16) =~= m),
        Failure::Other(m) => assert(xecm_message(a).skip(12) =~= m),
        Failure::RateLimited => {},
    }
}

/// An error is what its variant and its message are.
pub proof fn law_xecm_errors(error: XecmError)
    ensures
        error matches XecmError::Auth(m) ==> error@ == Failure::Auth(m@),
        error matches XecmError::Network(m) ==> error@ == Failure::Network(m@),
        error matches XecmError::NotFound(m) ==> error@ == Failure::NotFound(m@),
        error matches XecmError::Other(m) ==> error@ == Failure::Other(m@),
        error is RateLimited ==> error@ == Failure::RateLimited,
{
}

/// The address of a node is on the server and ends with the number of the node.
pub proof fn law_node_address(base_url: Seq<char>, node_id: u64)
    ensures
        ({
            let n = base_url.len() as int;
            let node = node_url(base_url, node_id);
            &&& node.len() > n + 7
            &&& node.take(n) == base_url
            &&& node.subrange(n, n + 7) == "/nodes/"@
            &&& decimal_value(node.skip(n + 7)) == node_id
        }),
{
    reveal_strlit("/nodes/");
    decimal_properties(node_id as nat);
    let n = base_url.len() as int;
    let node = node_url(base_url, node_id);
    assert(node.take(n) =~= base_url);
    assert(node.subrange(n, n + 7) =~= "/nodes/"@);
    assert(node.skip(n + 7) =~= decimal(node_id as nat));
}

/// The address of a page of the children of a node begins with that of the node, whole, and ends
/// with the number of the page.
pub proof fn law_page_address(base_url: Seq<char>, node_id: u64, page: u32)
    ensures
        ({
            let node = node_url(base_url, node_id);
            let children = children_url(base_url, node_id, page);
            let k = node.len() as int;
            &&& children.len() > k + 22
            &&& children.take(k) == node
            &&& children.subrange(k, k + 22) == "/nodes?limit=100&page="@
            &&& decimal_value(children.skip(k + 22)) == page
        }),
{
    reveal_strlit("/nodes?limit=100&page=");
    decimal_properties(page as nat);
    let node = node_url(base_url, node_id);
    let children = children_url(base_url, node_id, page);
    let k = node.len() as int;
    assert(children.take(k) =~= node);
    assert(children.subrange(k, k + 22) =~= "/nodes?limit=100&page="@);
    assert(children.skip(k + 22) =~= decimal(page as nat));
}

/// The address of the content of a node begins with that of the node, whole.
pub proof fn law_content_address(base_url: Seq<char>, node_id: u64)
    ensures
        ({
            let node = node_url(base_url, node_id);
            let content = content_url(base_url, node_id);
            &&& content.len() == node.len() + 8
            &&& content.take(node.len() as int) == node
            &&& content.skip(node.len() as int) == "/content"@
        }),
{
    reveal_strlit("/content");
    let node = node_url(base_url, node_id);
    let content = content_url(base_url, node_id);
    assert(content.take(node.len() as int) =~= node);
    assert(content.skip(node.len() as int) =~= "/content"@);
}

/// The form for a ticket holds the user name and then the password, from which both are decoded
/// again as they were.
pub proof fn law_credentials_decoded(user: Seq<char>, password: Seq<char>)
    ensures
        ({
            let body = credentials(user, password);
            let n = 9 + url_encoded(encode_utf8(user)).len() as int;
            &&& body.len() >= n + 10
            &&& body.take(9) == "username="@
            &&& !body.subrange(9, n).contains('&')
            &&& lossy_text(percent_decoded(encode_utf8(body.subrange(9, n)))) == user
            &&& body.subrange(n, n + 10) == "&password="@
            &&& lossy_text(percent_decoded(encode_utf8(body.skip(n + 10)))) == password
        }),
{
    reveal_strlit("username=");
    reveal_strlit("&password=");
    let u = url_encoded(encode_utf8(user));
    let p = url_encoded(encode_utf8(password));
    let body = credentials(user, password);
    let n = 9 + u.len() as int;
    assert(body.take(9) =~= "username="@);
    assert(body.subrange(9, n) =~= u);
    assert(body.subrange(n, n + 10) =~= "&password="@);
    assert(body.skip(n + 10) =~= p);
    law_percent_round_trip(user);
    law_percent_round_trip(password);
    law_encoding_alphabet(encode_utf8(user));
    if u.contains('&') {
        let k = choose|k: int| 0 <= k < u.len() && u[k] == '&';
        assert(is_encoding_char(u[k]));
    }
}

// ---- calls ----

/// A call is what its fields are, and so is what follows it.
pub proof fn law_calls_seen(call: TicketCall, step: CallStep)
    ensures
        call@.url == call.url@,
        call@.ticket == call.ticket@,
        call@.retried == call.retried,
        step is ReadBody <==> step@ is ReadBody,
        step matches CallStep::Fail(e) ==> step@ == Step::Fail(e@),
        step matches CallStep::Authenticate(next) ==> step@ == (Step::Authenticate {
            form_url: next.form.url@,
            body: next.form.body@,
            url: next.url@,
        }),
{
}

/// What a call came to is its value as it is seen, or its error.
pub proof fn law_results_seen(call: TicketCall, error: XecmError)
    ensures
        result_view(Ok::<TicketCall, XecmError>(call), |c: TicketCall| c@) == Ok::<Call, Failure>(
            call@,
        ),
        result_view(Err::<TicketCall, XecmError>(error), |c: TicketCall| c@) == Err::<
            Call,
            Failure,
        >(error@),
        result_view(Ok::<(), XecmError>(()), |u: ()| u) is Ok,
        result_view(Err::<(), XecmError>(error), |u: ()| u) == Err::<(), Failure>(error@),
{
}

/// A call goes to the address that is wanted, with the ticket that is known, for the first time;
/// without a ticket there is none.
pub proof fn law_first_call(ticket: String, url: Seq<char>)
    ensures
        first_call(None, url) == Err::<Call, Failure>(Failure::Auth("no ticket configured"@)),
        first_call(Some(ticket), url) matches Ok(call) && call.url == url && call.ticket == ticket@
            && !call.retried,
{
}

/// Where the answer to a call leads to a new ticket, the call that is repeated is the one that was
/// refused, and the ticket is asked for on the same server with the stored credentials. That is so
/// exactly where the ticket was refused for the first time and a password is stored.
pub proof fn law_refused_call_is_repeated(config: XecmConfig, call: Call, status: u16)
    ensures
        answered(config, call, status) is Authenticate <==> status == 401 && !call.retried
            && config.password@.len() > 0,
        answered(config, call, status) matches Step::Authenticate { form_url, body, url } ==> {
            &&& url == call.url
            &&& form_url.len() == config.base_url@.len() + 5
            &&& form_url.take(config.base_url@.len() as int) == config.base_url@
            &&& form_url.skip(config.base_url@.len() as int) == "/auth"@
            &&& body == credentials(config.username@, config.password@)
        },
        status == 401 && !call.retried && config.password@.len() == 0 ==> answered(
            config,
            call,
            status,
        ) == Step::Fail(Failure::Auth("no password stored, cannot re-authenticate"@)),
        status != 401 || call.retried ==> answered(config, call, status) == match status_failure(
            status,
        ) {
            Some(failure) => Step::Fail(failure),
            None => Step::ReadBody,
        },
{
    reveal_strlit("/auth");
    let n = config.base_url@.len() as int;
    assert((config.base_url@ + "/auth"@).take(n) =~= config.base_url@);
    assert((config.base_url@ + "/auth"@).skip(n) =~= "/auth"@);
}

/// A request for a ticket fails exactly where its status is no success, and then tells the status.
pub proof fn law_authentication(status: u16)
    ensures
        authenticated(status) is Ok <==> status / 100 == 2,
        status / 100 != 2 ==> {
            &&& authenticated(status) matches Err(Failure::Auth(message))
            &&& message.len() == 34 + status_text(status).len()
            &&& message.take(34) == "authentication failed with status "@
            &&& message.skip(34) == status_text(status)
        },
{
    reveal_strlit("authentication failed with status ");
    let message = "authentication failed with status "@ + status_text(status);
    assert(message.take(34) =~= "authentication failed with status "@);
    assert(message.skip(34) =~= status_text(status));
}

// ---- nodes ----

/// Whether the node at `i` has the name `name` and none before it has.
pub open spec fn named_first(nodes: Seq<XecmNode>, name: Seq<char>, i: int) -> bool {
    &&& 0 <= i < nodes.len()
    &&& nodes[i].name@ == name
    &&& forall|j: int| 0 <= j < i ==> (#[trigger] nodes[j]).name@ != name
}

/// The node of a name is among the nodes, has that name and is the first that has it; there is none
/// exactly where no node has the name.
pub proof fn law_named_node(nodes: Seq<XecmNode>, name: Seq<char>)
    ensures
        match node_named(nodes, name) {
            Some(n) => n.name@ == name && exists|i: int| #[trigger]
                named_first(nodes, name, i) && nodes[i] == n,
            None => forall|i: int| 0 <= i < nodes.len() ==> (#[trigger] nodes[i]).name@ != name,
        },
    decreases nodes.len(),
{
    if nodes.len() > 0 {
        if node_named(nodes, name) == Some(nodes[0]) && nodes[0].name@ == name {
            assert(named_first(nodes, name, 0));
        } else {
            let rest = nodes.skip(1);
            law_named_node(rest, name);
            match node_named(rest, name) {
                Some(n) => {
                    let i = choose|i: int| #[trigger] named_first(rest, name, i) && rest[i] == n;
                    assert(named_first(nodes, name, i + 1)) by {
                        assert forall|j: int| 0 <= j < i + 1 implies (#[trigger] nodes[j]).name@
                            != name by {
                            if j > 0 {
                                assert(rest[j - 1] == nodes[j]);
                            }
                        }
                    }
                },
                None => {
                    assert forall|i: int| 0 <= i < nodes.len() implies (#[trigger] nodes[i]).name@
                        != name by {
                        if i > 0 {
                            assert(rest[i - 1] == nodes[i]);
                        }
                    }
                },
            }
        }
    }
}

/// The containers of two lists are those of the one and then those of the other; one node is among
/// them exactly where it is a container.
pub proof fn law_containers(left: Seq<XecmNode>, right: Seq<XecmNode>, node: XecmNode)
    ensures
        containers(left + right) == containers(left) + containers(right),
        containers(seq![node]) == if node.container {
            seq![node]
        } else {
            seq![]
        },
        container_ids(left + right) == container_ids(left) + container_ids(right),
        container_ids(seq![node]) == if node.container {
            seq![node.id]
        } else {
            seq![]
        },
{
    Seq::filter_distributes_over_add(left, right, |n: XecmNode| n.container);
    reveal_with_fuel(Seq::filter, 2);
    assert(seq![node].drop_last() =~= seq![]);
    assert(containers(seq![node]) =~= if node.container {
        seq![node]
    } else {
        seq![]
    });
    assert(container_ids(left + right) =~= container_ids(left) + container_ids(right));
    assert(container_ids(seq![node]) =~= if node.container {
        seq![node.id]
    } else {
        seq![]
    });
}

/// A workspace to choose from is shown by its name, its id and its type.
pub proof fn law_choice_shows(choice: WorkspaceChoice, node: XecmNode)
    ensures
        shows(choice, node) <==> choice.name == node.name && choice.id == node.id && choice.type_
            == node.type_,
{
}

// ---- pages ----

/// Without a number of pages there is one.
pub proof fn law_page_count(total: u32)
    ensures
        page_count(Some(total)) == total,
        page_count(None) == 1,
{
}

/// A listing goes on with the next page of the same node exactly where there is one, and keeps what
/// it has, in order, before what the page adds.
pub proof fn law_pages_continued(
    node_id: u64,
    page: u32,
    nodes: Seq<XecmNode>,
    more: Seq<XecmNode>,
    total: u32,
)
    ensures
        ({
            let step = pages_continued(node_id, page, nodes, more, Some(total));
            &&& step is Next <==> page < total
            &&& step matches Pages::Next { node_id: again, page: next, nodes: kept } ==> {
                &&& again == node_id
                &&& next == page + 1
                &&& kept.len() == nodes.len() + more.len()
                &&& kept.take(nodes.len() as int) == nodes
                &&& kept.skip(nodes.len() as int) == more
            }
            &&& step matches Pages::Done(kept) ==> {
                &&& kept.len() == nodes.len() + more.len()
                &&& kept.take(nodes.len() as int) == nodes
                &&& kept.skip(nodes.len() as int) == more
            }
        }),
        pages_continued(node_id, page, nodes, more, None) == pages_continued(
            node_id,
            page,
            nodes,
            more,
            Some(1),
        ),
        pages_begun(node_id) matches Pages::Next { node_id: asked, page: first, nodes: none }
            && asked == node_id && first == 1 && none.len() == 0,
{
    assert((nodes + more).take(nodes.len() as int) =~= nodes);
    assert((nodes + more).skip(nodes.len() as int) =~= more);
}

/// A listing of pages is what its fields are.
pub proof fn law_pages_seen(walk: PageWalk, step: PageStep)
    ensures
        walk@ == (Pages::Next { node_id: walk.node_id, page: walk.page, nodes: walk.nodes@ }),
        step matches PageStep::Next(next) ==> step@ == next@,
        step matches PageStep::Done(nodes) ==> step@ == Pages::Done(nodes@),
{
}

/// A page of children with the number of pages that came with it.
pub struct Page {
    pub nodes: Seq<XecmNode>,
    pub total: Option<u32>,
}

/// Where a listing stands when `replies` have come.
pub open spec fn listing(state: Pages, replies: Seq<Page>) -> Pages
    decreases replies.len(),
{
    match state {
        Pages::Next { node_id, page, nodes } => if replies.len() == 0 {
            state
        } else {
            listing(
                pages_continued(node_id, page, nodes, replies[0].nodes, replies[0].total),
                replies.skip(1),
            )
        },
        Pages::Done(_) => state,
    }
}

/// The children on all pages, in order.
pub open spec fn all_nodes(replies: Seq<Page>) -> Seq<XecmNode>
    decreases replies.len(),
{
    if replies.len() == 0 {
        seq![]
    } else {
        replies[0].nodes + all_nodes(replies.skip(1))
    }
}

proof fn listing_from(node_id: u64, page: u32, nodes: Seq<XecmNode>, replies: Seq<Page>)
    requires
        replies.len() > 0,
        forall|k: int|
            0 <= k < replies.len() - 1 ==> page + k < page_count(#[trigger] replies[k].total),
        page + replies.len() - 1 >= page_count(replies.last().total),
    ensures
        listing(Pages::Next { node_id, page, nodes }, replies) == Pages::Done(
            nodes + all_nodes(replies),
        ),
    decreases replies.len(),
{
    let rest = replies.skip(1);
    let next = pages_continued(node_id, page, nodes, replies[0].nodes, replies[0].total);
    if replies.len() == 1 {
        assert(all_nodes(rest) =~= seq![]);
        assert(nodes + all_nodes(replies) =~= nodes + replies[0].nodes);
        assert(listing(next, rest) == next);
    } else {
        assert(page + 0 < page_count(replies[0].total));
        assert forall|k: int| 0 <= k < rest.len() - 1 implies page + 1 + k < page_count(
            #[trigger] rest[k].total,
        ) by {
            assert(rest[k] == replies[k + 1]);
        }
        assert(rest.last() == replies.last());
        listing_from(node_id, (page + 1) as u32, nodes + replies[0].nodes, rest);
        assert(nodes + replies[0].nodes + all_nodes(rest) =~= nodes + all_nodes(replies));
    }
}

/// All children are those of page 1, page 2 and so on, up to the first page that is no earlier than
/// the number of pages that came with it, in order.
pub proof fn law_all_pages(node_id: u64, replies: Seq<Page>)
    requires
        replies.len() > 0,
        forall|k: int|
            0 <= k < replies.len() - 1 ==> 1 + k < page_count(#[trigger] replies[k].total),
        replies.len() >= page_count(replies.last().total),
    ensures
        listing(pages_begun(node_id), replies) == Pages::Done(all_nodes(replies)),
{
    listing_from(node_id, 1, seq![], replies);
    assert(seq![] + all_nodes(replies) =~= all_nodes(replies));
}

/// While more pages are due, the next page asked for is the one after those that have come.
pub proof fn law_pages_in_order(node_id: u64, replies: Seq<Page>)
    requires
        forall|k: int| 0 <= k < replies.len() ==> 1 + k < page_count(#[trigger] replies[k].total),
    ensures
        listing(pages_begun(node_id), replies) == (Pages::Next {
            node_id,
            page: (1 + replies.len()) as u32,
            nodes: all_nodes(replies),
        }),
{
    pages_due(node_id, 1, seq![], replies);
    assert(seq![] + all_nodes(replies) =~= all_nodes(replies));
}

proof fn pages_due(node_id: u64, page: u32, nodes: Seq<XecmNode>, replies: Seq<Page>)
    requires
        forall|k: int| 0 <= k < replies.len() ==> page + k < page_count(#[trigger] replies[k].total),
    ensures
        listing(Pages::Next { node_id, page, nodes }, replies) == (Pages::Next {
            node_id,
            page: (page + replies.len()) as u32,
            nodes: nodes + all_nodes(replies),
        }),
    decreases replies.len(),
{
    if replies.len() == 0 {
        assert(nodes + all_nodes(replies) =~= nodes);
    } else {
        let rest = replies.skip(1);
        assert(page + 0 < page_count(replies[0].total));
        assert forall|k: int| 0 <= k < rest.len() implies page + 1 + k < page_count(
            #[trigger] rest[k].total,
        ) by {
            assert(rest[k] == replies[k + 1]);
        }
        pages_due(node_id, (page + 1) as u32, nodes + replies[0].nodes, rest);
        assert(nodes + replies[0].nodes + all_nodes(rest) =~= nodes + all_nodes(replies));
    }
}

// ---- paths ----

/// The node that `names` lead to from the node `from`, where `tree` gives the children of each node.
pub open spec fn node_at(
    tree: spec_fn(u64) -> Seq<XecmNode>,
    from: u64,
    names: Seq<Seq<char>>,
) -> Option<u64>
    decreases names.len(),
{
    if names.len() == 0 {
        Some(from)
    } else {
        match node_named(tree(from), names[0]) {
            Some(child) => node_at(tree, child.id, names.skip(1)),
            None => None,
        }
    }
}

/// The node in which the next name of a way is looked for.
pub open spec fn way_end(from: u64, way: Seq<XecmNode>) -> u64 {
    if way.len() == 0 {
        from
    } else {
        way.last().id
    }
}

/// Whether `way` leads from the node `from` along `names`: each of its nodes is the first child with
/// the next name of the node before it.
pub open spec fn is_way(
    tree: spec_fn(u64) -> Seq<XecmNode>,
    from: u64,
    names: Seq<Seq<char>>,
    way: Seq<XecmNode>,
) -> bool {
    &&& way.len() == names.len()
    &&& forall|k: int|
        0 <= k < way.len() ==> is_next(
            tree(way_end(from, way.take(k))),
            names[k],
            #[trigger] way[k],
        )
}

/// Whether `node` is the first of `children` with the name `name`.
pub open spec fn is_next(children: Seq<XecmNode>, name: Seq<char>, node: XecmNode) -> bool {
    node.name@ == name && exists|i: int| #[trigger]
        named_first(children, name, i) && children[i] == node
}

/// Names lead to a node exactly where there is a way along them that ends at it, on which each node
/// has the name of its segment.
pub proof fn law_way_along_names(
    tree: spec_fn(u64) -> Seq<XecmNode>,
    from: u64,
    names: Seq<Seq<char>>,
    id: u64,
)
    ensures
        node_at(tree, from, names) == Some(id) <==> exists|way: Seq<XecmNode>| #[trigger]
            is_way(tree, from, names, way) && way_end(from, way) == id,
    decreases names.len(),
{
    if names.len() == 0 {
        let none = Seq::<XecmNode>::empty();
        assert(is_way(tree, from, names, none));
        assert(way_end(from, none) == from);
    } else {
        let children = tree(from);
        law_named_node(children, names[0]);
        match node_named(children, names[0]) {
            Some(child) => {
                law_way_along_names(tree, child.id, names.skip(1), id);
                if node_at(tree, from, names) == Some(id) {
                    let rest = choose|way: Seq<XecmNode>| #[trigger]
                        is_way(tree, child.id, names.skip(1), way) && way_end(child.id, way) == id;
                    let way = seq![child] + rest;
                    assert forall|k: int| 0 <= k < way.len() implies is_next(
                        tree(way_end(from, way.take(k))),
                        names[k],
                        #[trigger] way[k],
                    ) by {
                        if k == 0 {
                            assert(way.take(0) =~= seq![]);
                        } else {
                            assert(rest[k - 1] == way[k]);
                            assert(way.take(k) =~= seq![child] + rest.take(k - 1));
                            assert(way_end(from, way.take(k)) == way_end(
                                child.id,
                                rest.take(k - 1),
                            ));
                            assert(names.skip(1)[k - 1] == names[k]);
                        }
                    }
                    assert(is_way(tree, from, names, way));
                    assert(way_end(from, way) == id);
                }
                if exists|way: Seq<XecmNode>| #[trigger]
                    is_way(tree, from, names, way) && way_end(from, way) == id {
                    let way = choose|way: Seq<XecmNode>| #[trigger]
                        is_way(tree, from, names, way) && way_end(from, way) == id;
                    let rest = way.skip(1);
                    assert(way.take(0) =~= seq![]);
                    assert(is_next(children, names[0], way[0]));
                    let i = choose|i: int| #[trigger]
                        named_first(children, names[0], i) && children[i] == way[0];
                    let j = choose|j: int| #[trigger]
                        named_first(children, names[0], j) && children[j] == child;
                    assert(i == j);
                    assert forall|k: int| 0 <= k < rest.len() implies is_next(
                        tree(way_end(child.id, rest.take(k))),
                        names.skip(1)[k],
                        #[trigger] rest[k],
                    ) by {
                        assert(way[k + 1] == rest[k]);
                        assert(way.take(k + 1) =~= seq![child] + rest.take(k));
                        assert(way_end(from, way.take(k + 1)) == way_end(child.id, rest.take(k)));
                    }
                    assert(is_way(tree, child.id, names.skip(1), rest));
                    assert(way_end(child.id, rest) == id);
                }
            },
            None => {
                if exists|way: Seq<XecmNode>| #[trigger]
                    is_way(tree, from, names, way) && way_end(from, way) == id {
                    let way = choose|way: Seq<XecmNode>| #[trigger]
                        is_way(tree, from, names, way) && way_end(from, way) == id;
                    assert(way.take(0) =~= seq![]);
                    assert(is_next(children, names[0], way[0]));
                }
            },
        }
    }
}

/// A resolution is what its fields are; what is left of it is the next name and then the others.
pub proof fn law_path_seen(step: PathStep, walk: PathWalk)
    ensures
        walk.segments().len() == 1 + walk.rest@.len(),
        walk.segments()[0] == walk.segment@,
        forall|i: int|
            0 <= i < walk.rest@.len() ==> #[trigger] walk.segments()[i + 1] == walk.rest@[i]@,
        step matches PathStep::Found(id) ==> step@ == PathState::Found(id),
        step matches PathStep::Failed(e) ==> step@ == PathState::Failed(e@),
        step matches PathStep::List(next) ==> {
            &&& step@ matches PathState::List { path, current, segments }
            &&& path == next.path@
            &&& current == next.current
            &&& segments.len() == 1 + next.rest@.len()
            &&& segments[0] == next.segment@
            &&& forall|i: int|
                0 <= i < next.rest@.len() ==> #[trigger] segments[i + 1] == next.rest@[i]@
        },
{
}

/// A path that is known is found at once. Any other source is looked for from the workspace on, by
/// the names of its part below the sources, and without such names it is the workspace itself.
pub proof fn law_path_begun(workspace: u64, known: Map<Seq<char>, u64>, path: Seq<char>)
    ensures
        known.contains_key(normalized(path)) ==> path_begun(workspace, known, path)
            == PathState::Found(known[normalized(path)]),
        !known.contains_key(normalized(path)) ==> (source_relative(path) matches Some(relative)
            ==> {
            let names = segments(relative);
            &&& names.len() == 0 ==> path_begun(workspace, known, path) == PathState::Found(
                workspace,
            )
            &&& names.len() > 0 ==> path_begun(workspace, known, path) == (PathState::List {
                path,
                current: workspace,
                segments: names,
            })
        }),
{
}

/// The next name leads to the first child that has it: the way goes on from there with the other
/// names, and ends there where there is no other.
pub proof fn law_path_continued(
    path: Seq<char>,
    current: u64,
    names: Seq<Seq<char>>,
    children: Seq<XecmNode>,
    i: int,
)
    requires
        names.len() > 0,
        named_first(children, names[0], i),
    ensures
        names.len() == 1 ==> path_continued(path, current, names, children) == PathState::Found(
            children[i].id,
        ),
        names.len() > 1 ==> path_continued(path, current, names, children) == (PathState::List {
            path,
            current: children[i].id,
            segments: names.skip(1),
        }),
{
    law_named_node(children, names[0]);
    match node_named(children, names[0]) {
        Some(child) => {
            let j = choose|j: int| #[trigger]
                named_first(children, names[0], j) && children[j] == child;
            assert(i == j);
        },
        None => {
            assert(children[i].name@ == names[0]);
        },
    }
}

/// A name that is not found is told with the node that it was looked for in and with the path.
pub proof fn law_missing_name_told(
    path: Seq<char>,
    current: u64,
    names: Seq<Seq<char>>,
    children: Seq<XecmNode>,
)
    requires
        names.len() > 0,
        forall|i: int| 0 <= i < children.len() ==> (#[trigger] children[i]).name@ != names[0],
    ensures
        path_continued(path, current, names, children) matches PathState::Failed(
            Failure::NotFound(message),
        ) && message == "'"@ + names[0] + "' not found in parent node "@ + decimal(current as nat)
            + " (path: "@ + path + ")"@,
{
    law_named_node(children, names[0]);
}

/// A path that names no source is refused with the path as it was given.
pub proof fn law_refused_path_told(
    workspace: u64,
    known: Map<Seq<char>, u64>,
    path: Seq<char>,
)
    requires
        !known.contains_key(normalized(path)),
        source_relative(path) is None,
    ensures
        path_begun(workspace, known, path) matches PathState::Failed(Failure::Other(message)) && {
            &&& message.len() == 6 + path.len() + 27
            &&& message.take(6) == "path '"@
            &&& message.subrange(6, (6 + path.len()) as int) == path
            &&& message.skip((6 + path.len()) as int) == "' is not under raw/sources/"@
        },
{
    reveal_strlit("path '");
    reveal_strlit("' is not under raw/sources/");
    let message = "path '"@ + path + "' is not under raw/sources/"@;
    assert(message.take(6) =~= "path '"@);
    assert(message.subrange(6, (6 + path.len()) as int) =~= path);
    assert(message.skip((6 + path.len()) as int) =~= "' is not under raw/sources/"@);
}

/// What is known of other paths stays as it is when one is resolved, and the resolved one is known
/// by its slash spelling.
pub proof fn law_other_paths_stay_known(
    known: Map<Seq<char>, u64>,
    path: Seq<char>,
    other: Seq<char>,
    id: u64,
)
    ensures
        ({
            let behind = known_after(known, path, PathState::Found(id));
            &&& behind.contains_key(normalized(path))
            &&& behind[normalized(path)] == id
            &&& other != normalized(path) ==> (behind.contains_key(other) <==> known.contains_key(
                other,
            ))
            &&& other != normalized(path) && known.contains_key(other) ==> behind[other]
                == known[other]
        }),
{
}

/// What the resolution of a path comes to.
pub open spec fn path_outcome(tree: spec_fn(u64) -> Seq<XecmNode>, state: PathState) -> Result<
    u64,
    Failure,
>
    decreases
            match state {
                PathState::List { segments, .. } => segments.len() + 1,
                _ => 0,
            },
{
    match state {
        PathState::Found(id) => Ok(id),
        PathState::Failed(failure) => Err(failure),
        PathState::List { path, current, segments } => if segments.len() == 0 {
            Ok(current)
        } else {
            path_outcome(tree, path_continued(path, current, segments, tree(current)))
        },
    }
}

proof fn path_walked(
    tree: spec_fn(u64) -> Seq<XecmNode>,
    path: Seq<char>,
    from: u64,
    names: Seq<Seq<char>>,
)
    ensures
        match node_at(tree, from, names) {
            Some(id) => path_outcome(tree, path_from(path, from, names)) == Ok::<u64, Failure>(id),
            None => path_outcome(tree, path_from(path, from, names)) matches Err(
                Failure::NotFound(_),
            ),
        },
    decreases names.len(),
{
    reveal_with_fuel(path_outcome, 2);
    if names.len() > 0 {
        let next = path_continued(path, from, names, tree(from));
        assert(path_outcome(tree, path_from(path, from, names)) == path_outcome(tree, next));
        match node_named(tree(from), names[0]) {
            Some(child) => {
                path_walked(tree, path, child.id, names.skip(1));
            },
            None => {},
        }
    }
}

/// Whether every known path is known by the node that its names lead to from the workspace.
pub open spec fn known_right(
    tree: spec_fn(u64) -> Seq<XecmNode>,
    workspace: u64,
    known: Map<Seq<char>, u64>,
) -> bool {
    forall|path: Seq<char>| #[trigger]
        known.contains_key(path) ==> {
            &&& source_relative(path) is Some
            &&& node_at(tree, workspace, segments(source_relative(path)->0)) == Some(known[path])
        }
}

/// A source path resolves to the node that its names lead to from the workspace, and fails as not
/// found where they lead nowhere; what is known already does not change that, as long as it is right.
pub proof fn law_path_names_node(
    tree: spec_fn(u64) -> Seq<XecmNode>,
    workspace: u64,
    known: Map<Seq<char>, u64>,
    path: Seq<char>,
)
    requires
        known_right(tree, workspace, known),
        source_relative(path) is Some,
    ensures
        match node_at(tree, workspace, segments(source_relative(path)->0)) {
            Some(id) => path_outcome(tree, path_begun(workspace, known, path)) == Ok::<u64, Failure>(
                id,
            ),
            None => path_outcome(tree, path_begun(workspace, known, path)) matches Err(
                Failure::NotFound(_),
            ),
        },
{
    law_slashes_alike(path);
    path_walked(tree, path, workspace, segments(source_relative(path)->0));
}

/// A path that names no source is refused, and nothing is known of it.
pub proof fn law_other_paths_refused(
    tree: spec_fn(u64) -> Seq<XecmNode>,
    workspace: u64,
    known: Map<Seq<char>, u64>,
    path: Seq<char>,
)
    requires
        known_right(tree, workspace, known),
        source_relative(path) is None,
    ensures
        path_begun(workspace, known, path) is Failed,
        !known.contains_key(normalized(path)),
{
    law_slashes_alike(path);
}

/// At first nothing is known, which is right, and what is known stays right when a path has been
/// resolved.
pub proof fn law_known_stays_right(
    tree: spec_fn(u64) -> Seq<XecmNode>,
    workspace: u64,
    known: Map<Seq<char>, u64>,
    path: Seq<char>,
    id: u64,
)
    requires
        known_right(tree, workspace, known),
        path_outcome(tree, path_begun(workspace, known, path)) == Ok::<u64, Failure>(id),
    ensures
        known_right(tree, workspace, Map::empty()),
        known_right(tree, workspace, known_after(known, path, PathState::Found(id))),
{
    law_slashes_alike(path);
    if source_relative(path) is Some {
        law_path_names_node(tree, workspace, known, path);
    } else {
        law_other_paths_refused(tree, workspace, known, path);
    }
}

/// The source directory itself is the workspace.
pub proof fn law_root_is_workspace(workspace: u64, known: Map<Seq<char>, u64>)
    requires
        !known.contains_key(normalized("raw/sources"@)),
    ensures
        path_begun(workspace, known, "raw/sources"@) == PathState::Found(workspace),
{
    reveal_strlit("raw/sources");
    assert(normalized("raw/sources"@) =~= "raw/sources"@);
    assert(source_relative("raw/sources"@) == Some(Seq::<char>::empty()));
    no_segments();
}

proof fn no_segments()
    ensures
        segments(Seq::<char>::empty()).len() == 0,
{
    reveal_with_fuel(Seq::filter, 2);
    let pieces = crate::text::split(Seq::<char>::empty(), '/');
    assert(pieces =~= seq![Seq::<char>::empty()]);
    assert(pieces.drop_last() =~= seq![]);
}

/// Once a path has been resolved, it is known: the same path, with slashes of either kind, resolves
/// at once to the same node.
pub proof fn law_resolved_is_known(
    workspace: u64,
    known: Map<Seq<char>, u64>,
    path: Seq<char>,
    id: u64,
    again: Seq<char>,
)
    requires
        normalized(again) == normalized(path),
    ensures
        path_begun(workspace, known_after(known, path, PathState::Found(id)), again)
            == PathState::Found(id),
{
}

/// A path that could not be resolved, or is not yet, leaves what is known unchanged.
pub proof fn law_unresolved_is_unknown(
    known: Map<Seq<char>, u64>,
    path: Seq<char>,
    state: PathState,
)
    requires
        !(state is Found),
    ensures
        known_after(known, path, state) == known,
{
}

// ---- snapshots ----

/// A survey is what its fields are, and begins with the workspace alone.
pub proof fn law_survey_seen(walk: SnapshotWalk, workspace: u64)
    ensures
        walk@.pending == walk.pending@,
        walk@.nodes == walk.nodes@,
        survey_begun(workspace).pending == seq![workspace],
        survey_begun(workspace).nodes == Map::<u64, XecmNode>::empty(),
{
}

/// When children are taken in, each is recorded as it is, unless a later one has its id, what was
/// recorded under other ids stays, and the containers among them are to be listed, in order, behind
/// those that were to be.
pub proof fn law_children_recorded(survey: Survey, children: Seq<XecmNode>)
    ensures
        taken_in(survey, children).pending == survey.pending + container_ids(children),
        forall|i: int|
            0 <= i < children.len() && (forall|j: int|
                i < j < children.len() ==> (#[trigger] children[j]).id != children[i].id)
                ==> taken_in(survey, children).nodes.contains_key(children[i].id) && taken_in(
                survey,
                children,
            ).nodes[children[i].id] == #[trigger] children[i],
        forall|id: u64|
            (forall|j: int| 0 <= j < children.len() ==> (#[trigger] children[j]).id != id) ==> {
                &&& #[trigger] taken_in(survey, children).nodes.contains_key(id)
                    <==> survey.nodes.contains_key(id)
                &&& survey.nodes.contains_key(id) ==> taken_in(survey, children).nodes[id]
                    == survey.nodes[id]
            },
{
    recorded_last(survey.nodes, children);
}

proof fn recorded_last(nodes: Map<u64, XecmNode>, children: Seq<XecmNode>)
    ensures
        forall|i: int|
            0 <= i < children.len() && (forall|j: int|
                i < j < children.len() ==> (#[trigger] children[j]).id != children[i].id)
                ==> recorded(nodes, children).contains_key(children[i].id) && recorded(
                nodes,
                children,
            )[children[i].id] == #[trigger] children[i],
        forall|id: u64|
            (forall|j: int| 0 <= j < children.len() ==> (#[trigger] children[j]).id != id) ==> {
                &&& #[trigger] recorded(nodes, children).contains_key(id) <==> nodes.contains_key(
                    id,
                )
                &&& nodes.contains_key(id) ==> recorded(nodes, children)[id] == nodes[id]
            },
    decreases children.len(),
{
    if children.len() > 0 {
        let front = children.drop_last();
        let last = children.last();
        recorded_last(nodes, front);
        let all = recorded(nodes, children);
        assert forall|i: int|
            0 <= i < children.len() && (forall|j: int|
                i < j < children.len() ==> (#[trigger] children[j]).id
                    != children[i].id) implies all.contains_key(children[i].id)
            && all[children[i].id] == #[trigger] children[i] by {
            if i < front.len() {
                assert(children[children.len() - 1].id != children[i].id);
                assert(front[i] == children[i]);
                assert forall|j: int| i < j < front.len() implies (#[trigger] front[j]).id
                    != front[i].id by {
                    assert(children[j].id != children[i].id);
                }
            }
        }
        assert forall|id: u64|
            (forall|j: int| 0 <= j < children.len() ==> (#[trigger] children[j]).id
                != id) implies {
            &&& #[trigger] all.contains_key(id) <==> nodes.contains_key(id)
            &&& nodes.contains_key(id) ==> all[id] == nodes[id]
        } by {
            assert(children[children.len() - 1].id != id);
            assert forall|j: int| 0 <= j < front.len() implies (#[trigger] front[j]).id != id by {
                assert(children[j].id != id);
            }
            assert(recorded(nodes, front).contains_key(id) <==> nodes.contains_key(id));
        }
    }
}

/// A survey after its next container, where `tree` gives the children of each node.
pub open spec fn survey_step(tree: spec_fn(u64) -> Seq<XecmNode>, survey: Survey) -> Survey {
    if survey.pending.len() == 0 {
        survey
    } else {
        taken_in(
            Survey { pending: survey.pending.drop_last(), nodes: survey.nodes },
            tree(survey.pending.last()),
        )
    }
}

/// A survey after its next `n` containers.
pub open spec fn survey_steps(
    tree: spec_fn(u64) -> Seq<XecmNode>,
    survey: Survey,
    n: nat,
) -> Survey
    decreases n,
{
    if n == 0 {
        survey
    } else {
        survey_step(tree, survey_steps(tree, survey, (n - 1) as nat))
    }
}

/// Whether `node` lies directly in `parent`.
pub open spec fn lies_in(
    tree: spec_fn(u64) -> Seq<XecmNode>,
    parent: XecmNode,
    node: XecmNode,
) -> bool {
    parent.container && tree(parent.id).contains(node)
}

/// Whether `node` lies below `root`, `depth` containers down.
pub open spec fn lies_below(
    tree: spec_fn(u64) -> Seq<XecmNode>,
    root: u64,
    node: XecmNode,
    depth: nat,
) -> bool
    decreases depth,
{
    if depth == 0 {
        tree(root).contains(node)
    } else {
        exists|c: XecmNode|
            lies_below(tree, root, c, (depth - 1) as nat) && #[trigger] lies_in(tree, c, node)
    }
}

proof fn recorded_properties(nodes: Map<u64, XecmNode>, children: Seq<XecmNode>)
    ensures
        forall|id: u64| #[trigger] nodes.contains_key(id) ==> recorded(nodes, children).contains_key(id),
        forall|i: int|
            0 <= i < children.len() ==> recorded(nodes, children).contains_key(
                (#[trigger] children[i]).id,
            ),
        forall|id: u64| #[trigger]
            recorded(nodes, children).contains_key(id) ==> {
                ||| nodes.contains_key(id) && recorded(nodes, children)[id] == nodes[id]
                ||| children.contains(recorded(nodes, children)[id]) && recorded(
                    nodes,
                    children,
                )[id].id == id
            },
    decreases children.len(),
{
    if children.len() > 0 {
        let front = children.drop_last();
        recorded_properties(nodes, front);
        let m = recorded(nodes, front);
        let all = recorded(nodes, children);
        assert forall|i: int| 0 <= i < children.len() implies all.contains_key(
            (#[trigger] children[i]).id,
        ) by {
            if i < front.len() {
                assert(front[i] == children[i]);
            }
        }
        assert forall|id: u64| #[trigger] all.contains_key(id) implies {
            ||| nodes.contains_key(id) && all[id] == nodes[id]
            ||| children.contains(all[id]) && all[id].id == id
        } by {
            if id == children.last().id {
                assert(children[children.len() - 1] == all[id]);
            } else {
                assert(m.contains_key(id));
                if front.contains(m[id]) {
                    let k = choose|k: int| 0 <= k < front.len() && front[k] == m[id];
                    assert(children[k] == all[id]);
                }
            }
        }
    }
}

proof fn container_ids_properties(children: Seq<XecmNode>)
    ensures
        forall|i: int|
            0 <= i < children.len() && (#[trigger] children[i]).container ==> container_ids(
                children,
            ).contains(children[i].id),
        forall|id: u64| #[trigger]
            container_ids(children).contains(id) ==> exists|i: int|
                0 <= i < children.len() && (#[trigger] children[i]).container && children[i].id
                    == id,
    decreases children.len(),
{
    reveal(Seq::filter);
    if children.len() > 0 {
        let front = children.drop_last();
        container_ids_properties(front);
        let ids = container_ids(children);
        if children.last().container {
            assert(ids =~= container_ids(front).push(children.last().id));
        } else {
            assert(ids =~= container_ids(front));
        }
        assert forall|i: int|
            0 <= i < children.len() && (#[trigger] children[i]).container implies ids.contains(
            children[i].id,
        ) by {
            if i < front.len() {
                assert(front[i] == children[i]);
                let k = choose|k: int|
                    0 <= k < container_ids(front).len() && container_ids(front)[k] == children[i].id;
                assert(ids[k] == children[i].id);
            } else {
                assert(ids[ids.len() - 1] == children[i].id);
            }
        }
        assert forall|id: u64| #[trigger] ids.contains(id) implies exists|i: int|
            0 <= i < children.len() && (#[trigger] children[i]).container && children[i].id
                == id by {
            let k = choose|k: int| 0 <= k < ids.len() && ids[k] == id;
            if k < container_ids(front).len() {
                assert(container_ids(front)[k] == id);
                assert(container_ids(front).contains(id));
                let i = choose|i: int|
                    0 <= i < front.len() && (#[trigger] front[i]).container && front[i].id == id;
                assert(children[i].container && children[i].id == id);
            } else {
                assert(children[children.len() - 1].container);
            }
        }
    }
}

/// Every recorded node is recorded under its own id and lies below the workspace.
pub proof fn law_survey_sound(tree: spec_fn(u64) -> Seq<XecmNode>, root: u64, n: nat)
    ensures
        forall|id: u64| #[trigger]
            survey_steps(tree, survey_begun(root), n).nodes.contains_key(id) ==> {
                &&& survey_steps(tree, survey_begun(root), n).nodes[id].id == id
                &&& exists|depth: nat|
                    lies_below(
                        tree,
                        root,
                        survey_steps(tree, survey_begun(root), n).nodes[id],
                        depth,
                    )
            },
        forall|k: int|
            0 <= k < survey_steps(tree, survey_begun(root), n).pending.len() ==> pending_below(
                tree,
                root,
                #[trigger] survey_steps(tree, survey_begun(root), n).pending[k],
            ),
    decreases n,
{
    if n > 0 {
        law_survey_sound(tree, root, (n - 1) as nat);
        let s = survey_steps(tree, survey_begun(root), (n - 1) as nat);
        let t = survey_steps(tree, survey_begun(root), n);
        if s.pending.len() > 0 {
            let at = s.pending.last();
            let children = tree(at);
            recorded_properties(s.nodes, children);
            container_ids_properties(children);
            assert(pending_below(tree, root, s.pending[s.pending.len() - 1]));
            assert forall|node: XecmNode| children.contains(node) implies exists|depth: nat|
                #[trigger] lies_below(tree, root, node, depth) by {
                if at == root {
                    assert(lies_below(tree, root, node, 0));
                } else {
                    let (c, d) = choose|c: XecmNode, d: nat|
                        c.id == at && c.container && #[trigger] lies_below(tree, root, c, d);
                    assert(lies_in(tree, c, node));
                    assert(lies_below(tree, root, node, d + 1));
                }
            }
            assert forall|k: int| 0 <= k < t.pending.len() implies pending_below(
                tree,
                root,
                #[trigger] t.pending[k],
            ) by {
                if k < s.pending.len() - 1 {
                    assert(t.pending[k] == s.pending[k]);
                } else {
                    let j = k - (s.pending.len() - 1);
                    assert(t.pending[k] == container_ids(children)[j]);
                    assert(container_ids(children).contains(t.pending[k]));
                    let i = choose|i: int|
                        0 <= i < children.len() && (#[trigger] children[i]).container
                            && children[i].id == t.pending[k];
                    assert(children.contains(children[i]));
                    let d = choose|d: nat| #[trigger] lies_below(tree, root, children[i], d);
                    assert(children[i].id == t.pending[k] && children[i].container && lies_below(
                        tree,
                        root,
                        children[i],
                        d,
                    ));
                }
            }
        }
    }
}

/// Whether `id` is the workspace or a container below it.
pub open spec fn pending_below(tree: spec_fn(u64) -> Seq<XecmNode>, root: u64, id: u64) -> bool {
    ||| id == root
    ||| exists|c: XecmNode, d: nat| c.id == id && c.container && #[trigger] lies_below(tree, root, c, d)
}

proof fn surveyed_ids(tree: spec_fn(u64) -> Seq<XecmNode>, root: u64, n: nat) -> (seen: Set<u64>)
    ensures
        ({
            let s = survey_steps(tree, survey_begun(root), n);
            &&& seen.contains(root) || s.pending.contains(root)
            &&& forall|v: u64, node: XecmNode|
                seen.contains(v) && #[trigger] tree(v).contains(node) ==> {
                    &&& s.nodes.contains_key(node.id)
                    &&& node.container ==> seen.contains(node.id) || s.pending.contains(node.id)
                }
        }),
    decreases n,
{
    if n == 0 {
        assert(survey_begun(root).pending[0] == root);
        Set::empty()
    } else {
        let before = surveyed_ids(tree, root, (n - 1) as nat);
        let s = survey_steps(tree, survey_begun(root), (n - 1) as nat);
        let t = survey_steps(tree, survey_begun(root), n);
        if s.pending.len() == 0 {
            before
        } else {
            let at = s.pending.last();
            let seen = before.insert(at);
            let children = tree(at);
            recorded_properties(s.nodes, children);
            container_ids_properties(children);
            assert forall|id: u64| s.pending.contains(id) implies seen.contains(id)
                || #[trigger] t.pending.contains(id) by {
                let k = choose|k: int| 0 <= k < s.pending.len() && s.pending[k] == id;
                if k < s.pending.len() - 1 {
                    assert(t.pending[k] == id);
                }
            }
            assert forall|id: u64| container_ids(children).contains(
                id,
            ) implies #[trigger] t.pending.contains(id) by {
                let k = choose|k: int|
                    0 <= k < container_ids(children).len() && container_ids(children)[k] == id;
                assert(t.pending[s.pending.len() - 1 + k] == id);
            }
            assert forall|v: u64, node: XecmNode|
                seen.contains(v) && #[trigger] tree(v).contains(node) implies {
                &&& t.nodes.contains_key(node.id)
                &&& node.container ==> seen.contains(node.id) || t.pending.contains(node.id)
            } by {
                if v == at {
                    let i = choose|i: int| 0 <= i < children.len() && children[i] == node;
                    assert(children[i].id == node.id);
                } else {
                    assert(before.contains(v));
                    assert(s.nodes.contains_key(node.id));
                }
            }
            seen
        }
    }
}

proof fn seen_below(
    tree: spec_fn(u64) -> Seq<XecmNode>,
    root: u64,
    seen: Set<u64>,
    survey: Survey,
    node: XecmNode,
    depth: nat,
)
    requires
        seen.contains(root),
        forall|v: u64, n: XecmNode|
            seen.contains(v) && #[trigger] tree(v).contains(n) ==> survey.nodes.contains_key(n.id)
                && (n.container ==> seen.contains(n.id)),
        lies_below(tree, root, node, depth),
    ensures
        survey.nodes.contains_key(node.id),
        node.container ==> seen.contains(node.id),
    decreases depth,
{
    if depth > 0 {
        let c = choose|c: XecmNode|
            lies_below(tree, root, c, (depth - 1) as nat) && #[trigger] lies_in(tree, c, node);
        seen_below(tree, root, seen, survey, c, (depth - 1) as nat);
    }
}

/// A survey without pending containers has recorded everything below the workspace.
pub proof fn law_survey_complete(
    tree: spec_fn(u64) -> Seq<XecmNode>,
    root: u64,
    n: nat,
    node: XecmNode,
    depth: nat,
)
    requires
        survey_steps(tree, survey_begun(root), n).pending.len() == 0,
        lies_below(tree, root, node, depth),
    ensures
        survey_steps(tree, survey_begun(root), n).nodes.contains_key(node.id),
{
    let seen = surveyed_ids(tree, root, n);
    seen_below(tree, root, seen, survey_steps(tree, survey_begun(root), n), node, depth);
}

/// The sum of the weights of `ids`.
pub open spec fn weight_of(weight: spec_fn(u64) -> nat, ids: Seq<u64>) -> nat
    decreases ids.len(),
{
    if ids.len() == 0 {
        0
    } else {
        weight_of(weight, ids.drop_last()) + weight(ids.last())
    }
}

proof fn weight_of_sum(weight: spec_fn(u64) -> nat, left: Seq<u64>, right: Seq<u64>)
    ensures
        weight_of(weight, left + right) == weight_of(weight, left) + weight_of(weight, right),
    decreases right.len(),
{
    if right.len() == 0 {
        assert(left + right =~= left);
    } else {
        assert((left + right).drop_last() =~= left + right.drop_last());
        weight_of_sum(weight, left, right.drop_last());
    }
}

proof fn weight_left(
    tree: spec_fn(u64) -> Seq<XecmNode>,
    weight: spec_fn(u64) -> nat,
    root: u64,
    n: nat,
)
    requires
        forall|id: u64| weight(id) == 1 + weight_of(weight, container_ids(#[trigger] tree(id))),
        n <= weight(root),
    ensures
        weight_of(weight, survey_steps(tree, survey_begun(root), n).pending) == weight(root) - n,
    decreases n,
{
    if n == 0 {
        assert(survey_begun(root).pending.drop_last() =~= seq![]);
        reveal_with_fuel(weight_of, 2);
    } else {
        weight_left(tree, weight, root, (n - 1) as nat);
        let s = survey_steps(tree, survey_begun(root), (n - 1) as nat);
        assert(s.pending.len() > 0);
        weight_of_sum(weight, s.pending.drop_last(), container_ids(tree(s.pending.last())));
    }
}

/// On a finite hierarchy, where each container counts itself and the containers in it, a survey ends
/// after as many listings as the workspace counts, and not before.
pub proof fn law_survey_ends(
    tree: spec_fn(u64) -> Seq<XecmNode>,
    weight: spec_fn(u64) -> nat,
    root: u64,
    n: nat,
)
    requires
        forall|id: u64| weight(id) == 1 + weight_of(weight, container_ids(#[trigger] tree(id))),
        n <= weight(root),
    ensures
        survey_steps(tree, survey_begun(root), n).pending.len() == 0 <==> n == weight(root),
{
    weight_left(tree, weight, root, n);
    let pending = survey_steps(tree, survey_begun(root), n).pending;
    if pending.len() > 0 {
        assert(weight(pending.last()) == 1 + weight_of(weight, container_ids(tree(pending.last()))));
    }
}

} // verus!
