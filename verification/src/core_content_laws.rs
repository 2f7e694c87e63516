//! What holds of whole exchanges with Core Content.

use vstd::prelude::*;
use vstd::string::*;

use crate::core_content_client::{
    address_complaint, answered, api_failure, api_url, children_path, containers, cookie_lines,
    core_content_message, download_url, entries_view, entry_of, entry_size, first_of_each,
    has_credentials, has_id, has_name, header_char, headers_view, header_text, header_value,
    is_plain_path, is_slashed_path, last_name, listed_nodes, listing_begun, listing_continued,
    listing_items, missing_file, names_last, node_path, nodes_among, number_complaint, number_of,
    origin, proper_names, request_headers, session_for, session_of, session_view, survey_begun,
    taken_in, unsigned, wanted_name, Answer, AnswerStep, ApiRequest, CoreContentClient,
    CoreContentConfig, CoreContentError, CoreContentNode, CoreContentSnapshotEntry, Entry, Listing,
    ListingReply, ListingStep, ListingWalk, NumOrStr, Session, SessionCookies, SnapshotWalk, Survey,
    FIRST_LISTING_SIZE,
};
use crate::json::text_object;
use crate::source_path::{normalized, segments};
use crate::text::{
    absent, begins_with, decimal, decimal_properties, decimal_value, first_at, first_at_unique,
    first_occurrence, first_position, is_digit, occurs_at, split, until, until_is, until_properties,
};
use crate::text_laws::{law_names, law_split};
use crate::text_map::TextMap;
use crate::transport::{is_success, status_failure, Failure};

verus! {

broadcast use vstd::string::group_string_axioms;

// ---- values and messages ----

/// The message of a failure tells its kind and holds what it says, whole: different failures have
/// different messages.
pub proof fn law_core_content_messages(a: Failure, b: Failure)
    ensures
        core_content_message(a) == core_content_message(b) ==> a == b,
        a matches Failure::Auth(m) ==> core_content_message(a).skip(25) == m && core_content_message(
            a,
        ).take(25) == "Core Content auth error: "@,
        a matches Failure::Network(m) ==> core_content_message(a).skip(28) == m
            && core_content_message(a).take(28) == "Core Content network error: "@,
        a matches Failure::NotFound(m) ==> core_content_message(a).skip(24) == m
            && core_content_message(a).take(24) == "Core Content not found: "@,
        a matches Failure::Other(m) ==> core_content_message(a).skip(20) == m
            && core_content_message(a).take(20) == "Core Content error: "@,
        a is RateLimited ==> core_content_message(a) == "Core Content rate limited"@,
{
    message_parts(a);
    message_parts(b);
    reveal_strlit("Core Content auth error: ");
    reveal_strlit("Core Content network error: ");
    reveal_strlit("Core Content not found: ");
    reveal_strlit("Core Content rate limited");
    reveal_strlit("Core Content error: ");
    let x = core_content_message(a);
    let y = core_content_message(b);
    if x == y {
        assert(x[13] == y[13] && x[14] == y[14]);
    }
}

proof fn message_parts(a: Failure)
    ensures
        a matches Failure::Auth(m) ==> core_content_message(a).skip(25) == m && core_content_message(
            a,
        ).take(25) == "Core Content auth error: "@,
        a matches Failure::Network(m) ==> core_content_message(a).skip(28) == m
            && core_content_message(a).take(28) == "Core Content network error: "@,
        a matches Failure::NotFound(m) ==> core_content_message(a).skip(24) == m
            && core_content_message(a).take(24) == "Core Content not found: "@,
        a matches Failure::Other(m) ==> core_content_message(a).skip(20) == m
            && core_content_message(a).take(20) == "Core Content error: "@,
{
    reveal_strlit("Core Content auth error: ");
    reveal_strlit("Core Content network error: ");
    reveal_strlit("Core Content not found: ");
    reveal_strlit("Core Content error: ");
    let x = core_content_message(a);
    match a {
        Failure::Auth(m) => {
            assert(x.skip(25) =~= m);
            assert(x.take(25) =~= "Core Content auth error: "@);
        },
        Failure::Network(m) => {
            assert(x.skip(28) =~= m);
            assert(x.take(28) =~= "Core Content network error: "@);
        },
        Failure::NotFound(m) => {
            assert(x.skip(24) =~= m);
            assert(x.take(24) =~= "Core Content not found: "@);
        },
        Failure::Other(m) => {
            assert(x.skip(20) =~= m);
            assert(x.take(20) =~= "Core Content error: "@);
        },
        Failure::RateLimited => {},
    }
}

/// An error is what its variant and its message are.
pub proof fn law_core_content_errors(error: CoreContentError)
    ensures
        error matches CoreContentError::Auth(m) ==> error@ == Failure::Auth(m@),
        error matches CoreContentError::Network(m) ==> error@ == Failure::Network(m@),
        error matches CoreContentError::NotFound(m) ==> error@ == Failure::NotFound(m@),
        error matches CoreContentError::Other(m) ==> error@ == Failure::Other(m@),
        error is RateLimited ==> error@ == Failure::RateLimited,
{
}

/// A number is read as itself, whether it is sent as a number, in decimal notation or with a plus
/// before it.
pub proof fn law_number_read(n: u64, text: String)
    ensures
        number_of(NumOrStr::N(n)) == Ok::<u64, Seq<char>>(n),
        text@ == decimal(n as nat) ==> number_of(NumOrStr::S(text)) == Ok::<u64, Seq<char>>(n),
        text@ == seq!['+'] + decimal(n as nat) ==> number_of(NumOrStr::S(text)) == Ok::<
            u64,
            Seq<char>,
        >(n),
{
    decimal_properties(n as nat);
    let digits = decimal(n as nat);
    assert(is_digit(digits[0]));
    assert((seq!['+'] + digits).skip(1) =~= digits);
}

/// What is read from a text as a number is the value of its digits, and the text is nothing but
/// digits, with or without a plus before them.
pub proof fn law_number_is_digits(text: String)
    ensures
        match number_of(NumOrStr::S(text)) {
            Ok(n) => exists|digits: Seq<char>|
                {
                    &&& text@ == digits || text@ == seq!['+'] + digits
                    &&& #[trigger] digits.len() > 0
                    &&& forall|i: int|
                        0 <= i < digits.len() ==> '0' <= #[trigger] digits[i] <= '9'
                    &&& decimal_value(digits) == n
                },
            Err(complaint) => complaint == number_complaint(text@),
        },
{
    if number_of(NumOrStr::S(text)) is Ok {
        let digits = unsigned(text@);
        assert(text@ == digits || text@ =~= seq!['+'] + digits);
        assert forall|i: int| 0 <= i < digits.len() implies '0' <= #[trigger] digits[i]
            <= '9' by {
            assert(is_digit(digits[i]));
        }
        assert(digits.len() > 0);
    }
}

// ---- sessions ----

/// An address has an origin exactly where `://` stands in it. The origin is what goes up to the
/// first slash behind the leftmost `://`, or the whole address where there is none.
pub proof fn law_origin_whole(url: Seq<char>)
    ensures
        origin(url) is None <==> forall|i: int| !(#[trigger] occurs_at(url, "://"@, i)),
        origin(url) matches Some(o) ==> {
            let host = first_position(url, "://"@) + 3;
            &&& host <= o.len() <= url.len()
            &&& url.take(o.len() as int) == o
            &&& forall|j: int| host <= j < o.len() ==> #[trigger] o[j] != '/'
            &&& o.len() < url.len() ==> url[o.len() as int] == '/'
        },
{
    reveal_strlit("://");
    if !absent(url, "://"@) {
        first_exists(url, "://"@);
        let host = first_position(url, "://"@) + 3;
        let rest = url.skip(host);
        until_properties(rest, '/');
        let o = url.take(host + until(rest, '/'));
        assert(url.take(o.len() as int) =~= o);
        assert forall|j: int| host <= j < o.len() implies #[trigger] o[j] != '/' by {
            assert(rest[j - host] == o[j]);
        }
        if o.len() < url.len() {
            assert(rest[until(rest, '/')] == url[o.len() as int]);
        }
    }
}

/// There is a session exactly where there are cookies, an origin and the origin is an address. It is
/// then for that origin and holds those cookies.
pub proof fn law_session(cookies_json: Seq<char>, base_url: Seq<char>)
    ensures
        session_of(cookies_json, base_url) is Some <==> {
            &&& cookies_json.len() > 0
            &&& text_object(cookies_json) is Some
            &&& origin(base_url) is Some
            &&& address_complaint(origin(base_url)->0) is None
        },
        session_of(cookies_json, base_url) matches Some(session) ==> {
            &&& text_object(cookies_json) == Some(session.cookies)
            &&& origin(base_url) == Some(session.origin)
        },
{
}

/// A session is made exactly of cookies and an origin that is an address, and of all of them.
pub proof fn law_session_made(
    cookies: Map<Seq<char>, Seq<char>>,
    origin: Seq<char>,
    address: bool,
)
    ensures
        session_for(Some(cookies), Some(origin), true) == Some(Session { origin, cookies }),
        session_for(Some(cookies), Some(origin), false) is None,
        session_for(Some(cookies), None, address) is None,
        session_for(None, Some(origin), address) is None,
        session_for(None, None, address) is None,
{
}

/// A session is for its origin and holds each of its cookies, whole.
pub proof fn law_session_seen(session: SessionCookies)
    ensures
        session_view(None) is None,
        session_view(Some(session)) == Some(session@),
        session@.origin == session.origin@,
        session@.cookies.dom() == session.cookies@.dom(),
        forall|name: Seq<char>|
            session.cookies@.contains_key(name) ==> #[trigger] session@.cookies[name]
                == session.cookies@[name]@,
{
    assert(session@.cookies.dom() =~= session.cookies@.dom());
}

/// Each cookie has a line of its own, in order: its name, an equals sign and its value.
pub proof fn law_cookie_lines(cookies: Seq<(String, String)>, i: int)
    requires
        0 <= i < cookies.len(),
    ensures
        cookie_lines(cookies).len() == cookies.len(),
        ({
            let line = cookie_lines(cookies)[i];
            let n = cookies[i].0@.len() as int;
            &&& line.len() > n
            &&& line.take(n) == cookies[i].0@
            &&& line[n] == '='
            &&& line.skip(n + 1) == cookies[i].1@
        }),
{
    reveal_strlit("=");
    let line = cookie_lines(cookies)[i];
    let n = cookies[i].0@.len() as int;
    assert(line.take(n) =~= cookies[i].0@);
    assert(line.skip(n + 1) =~= cookies[i].1@);
}

// ---- requests ----

/// A header value is the text itself, unless a control character other than the tab stands in it:
/// then it is empty.
pub proof fn law_header_value(text: Seq<char>)
    ensures
        (forall|i: int|
            0 <= i < text.len() ==> (#[trigger] text[i]) == '\t' || ' ' <= text[i] <= '~' || text[i]
                >= '\u{80}') ==> header_value(text) == text && header_text(text),
        forall|i: int|
            0 <= i < text.len() && ((#[trigger] text[i]) == '\u{7f}' || text[i] < ' ' && text[i]
                != '\t') ==> header_value(text).len() == 0 && !header_text(text),
{
    reveal_strlit("");
    assert forall|i: int|
        0 <= i < text.len() && ((#[trigger] text[i]) == '\u{7f}' || text[i] < ' ' && text[i]
            != '\t') implies header_value(text).len() == 0 && !header_text(text) by {
        assert(!header_char(text[i]));
    }
}

/// Every request carries the token and the address of the service, both whole where they can be
/// sent, and goes where it is meant to.
pub proof fn law_request(client: CoreContentClient, url: Seq<char>)
    ensures
        ({
            let request = client.request(url);
            let headers = request.headers;
            &&& request.url == url
            &&& headers.len() == 4
            &&& headers[0].0 == "X-CCM-XSRF-TOKEN"@
            &&& header_text(client.csrf_token@) ==> headers[0].1 == client.csrf_token@
            &&& !header_text(client.csrf_token@) ==> headers[0].1.len() == 0
            &&& headers[1] == ("X-Requested-With"@, "XMLHttpRequest"@)
            &&& headers[2] == ("Authorization"@, "dummy"@)
            &&& headers[3].0 == "Referer"@
            &&& header_text(client.config.base_url@) ==> headers[3].1 == client.config.base_url@
            &&& !header_text(client.config.base_url@) ==> headers[3].1.len() == 0
        }),
{
    reveal_strlit("");
}

/// Headers are what their names and values are, in order.
pub proof fn law_headers_seen(headers: Seq<(String, String)>)
    ensures
        headers_view(headers).len() == headers.len(),
        forall|i: int|
            0 <= i < headers.len() ==> (#[trigger] headers_view(headers)[i]).0 == headers[i].0@
                && headers_view(headers)[i].1 == headers[i].1@,
{
}

/// A request is what its address and its headers are.
pub proof fn law_request_seen(request: ApiRequest)
    ensures
        request@.url == request.url@,
        request@.headers.len() == request.headers@.len(),
        forall|i: int|
            0 <= i < request.headers@.len() ==> (#[trigger] request@.headers[i]).0
                == request.headers@[i].0@ && request@.headers[i].1 == request.headers@[i].1@,
{
}

/// A path that begins with `http` is an address itself; any other is put behind the address of the
/// service, whole.
pub proof fn law_request_address(base_url: Seq<char>, path: Seq<char>)
    ensures
        ({
            let absolute = path.len() >= 4 && path[0] == 'h' && path[1] == 't' && path[2] == 't'
                && path[3] == 'p';
            &&& absolute ==> api_url(base_url, path) == path
            &&& !absolute ==> api_url(base_url, path).len() == base_url.len() + path.len()
                && api_url(base_url, path).take(base_url.len() as int) == base_url && api_url(
                base_url,
                path,
            ).skip(base_url.len() as int) == path
        }),
{
    reveal_strlit("http");
    let n = base_url.len() as int;
    assert((base_url + path).take(n) =~= base_url);
    assert((base_url + path).skip(n) =~= path);
    if begins_with(path, "http"@) {
        assert(path.subrange(0, 4) == "http"@);
        assert(path[0] == path.subrange(0, 4)[0]);
        assert(path[1] == path.subrange(0, 4)[1]);
        assert(path[2] == path.subrange(0, 4)[2]);
        assert(path[3] == path.subrange(0, 4)[3]);
    } else if path.len() >= 4 && path[0] == 'h' && path[1] == 't' && path[2] == 't' && path[3]
        == 'p' {
        assert(path.subrange(0, 4) =~= "http"@);
    }
}

/// An answer fails exactly where its status is no success, as its status says. Where that is no
/// kind of its own, the message ends with a colon and the whole body.
pub proof fn law_answer_failure(status: u16, body: Seq<char>)
    ensures
        api_failure(status, body) is None <==> status / 100 == 2,
        match status_failure(status) {
            Some(Failure::Other(head)) => {
                &&& api_failure(status, body) matches Some(Failure::Other(message))
                &&& message.len() == head.len() + 2 + body.len()
                &&& message.take(head.len() as int) == head
                &&& message.subrange(head.len() as int, head.len() as int + 2) == ": "@
                &&& message.skip(head.len() as int + 2) == body
            },
            other => api_failure(status, body) == other,
        },
{
    reveal_strlit(": ");
    if let Some(Failure::Other(head)) = status_failure(status) {
        let message = head + ": "@ + body;
        assert(message.take(head.len() as int) =~= head);
        assert(message.subrange(head.len() as int, head.len() as int + 2) =~= ": "@);
        assert(message.skip(head.len() as int + 2) =~= body);
    }
}

/// Credentials are stored where neither the user name nor the password is empty.
pub proof fn law_credentials_stored(config: CoreContentConfig)
    ensures
        has_credentials(config) <==> config.username@.len() != 0 && config.password@.len() != 0,
{
}

/// A login is asked for exactly where a first answer says that the session has expired and
/// credentials are stored. Otherwise the answer is read where it is no failure, and the failure is
/// told where it is one.
pub proof fn law_answered(
    credentials: bool,
    retried: bool,
    status: u16,
    failure: Option<Failure>,
)
    ensures
        ({
            let step = answered(credentials, retried, status, failure);
            &&& step is Authenticate <==> status == 401 && !retried && credentials
            &&& step is ReadBody <==> failure is None && !(status == 401 && !retried && credentials)
            &&& step matches Answer::Fail(told) ==> failure == Some(told)
        }),
{
}

/// What follows an answer is what its variant and its error are.
pub proof fn law_answer_seen(step: AnswerStep)
    ensures
        step is ReadBody <==> step@ is ReadBody,
        step is Authenticate <==> step@ is Authenticate,
        step matches AnswerStep::Fail(error) ==> step@ == Answer::Fail(error@),
{
}

// ---- what a listing holds ----

/// A listing is what the collection holds, or else the data, or else nothing.
pub proof fn law_listing_items(reply: ListingReply)
    ensures
        reply.collection matches Some(items) ==> listing_items(reply) == items@,
        reply.collection is None ==> (reply.data matches Some(items) ==> listing_items(reply)
            == items@),
        reply.collection is None && reply.data is None ==> listing_items(reply).len() == 0,
{
}

/// The nodes among two lists of items are those of the one and then those of the other; an item that
/// is a node is that node, another is none.
pub proof fn law_nodes_among(
    left: Seq<Option<CoreContentNode>>,
    right: Seq<Option<CoreContentNode>>,
    node: CoreContentNode,
)
    ensures
        nodes_among(left + right) == nodes_among(left) + nodes_among(right),
        nodes_among(seq![Some(node)]) == seq![node],
        nodes_among(seq![None::<CoreContentNode>]) == Seq::<CoreContentNode>::empty(),
    decreases right.len(),
{
    reveal_with_fuel(nodes_among, 2);
    assert(seq![Some(node)].drop_last() =~= seq![]);
    assert(seq![None::<CoreContentNode>].drop_last() =~= seq![]);
    assert(nodes_among(seq![Some(node)]) =~= seq![node]);
    if right.len() == 0 {
        assert(left + right =~= left);
        assert(nodes_among(left) + nodes_among(right) =~= nodes_among(left));
    } else {
        assert((left + right).drop_last() =~= left + right.drop_last());
        law_nodes_among(left, right.drop_last(), node);
        assert(nodes_among(left + right) =~= nodes_among(left) + nodes_among(right));
    }
}

proof fn kept_in_front(left: Seq<CoreContentNode>, right: Seq<CoreContentNode>)
    ensures
        first_of_each(left).is_prefix_of(first_of_each(left + right)),
    decreases right.len(),
{
    if right.len() == 0 {
        assert(left + right =~= left);
    } else {
        let front = right.drop_last();
        assert((left + right).drop_last() =~= left + front);
        kept_in_front(left, front);
        let kept = first_of_each(left + front);
        assert(kept.is_prefix_of(first_of_each(left + right)));
    }
}

proof fn each_id_kept(nodes: Seq<CoreContentNode>, i: int)
    requires
        0 <= i < nodes.len(),
    ensures
        exists|k: int|
            0 <= k < first_of_each(nodes).len() && (#[trigger] first_of_each(nodes)[k]).id@
                == nodes[i].id@,
{
    unique_nodes(nodes);
    assert(has_id(first_of_each(nodes), nodes[i].id@));
}

/// Of nodes, each id is kept once, with the node that came first, and what is kept of the first of
/// them is kept before all else.
pub proof fn law_first_of_each(left: Seq<CoreContentNode>, right: Seq<CoreContentNode>, i: int)
    requires
        0 <= i < left.len(),
    ensures
        first_of_each(left).is_prefix_of(first_of_each(left + right)),
        exists|k: int|
            0 <= k < first_of_each(left).len() && (#[trigger] first_of_each(left)[k]).id@
                == left[i].id@,
        forall|k: int, m: int|
            0 <= k < m < first_of_each(left).len() ==> (#[trigger] first_of_each(left)[k]).id@ != (
            #[trigger] first_of_each(left)[m]).id@,
        forall|k: int|
            0 <= k < first_of_each(left).len() ==> first_with_id(
                left,
                #[trigger] first_of_each(left)[k],
            ),
{
    kept_in_front(left, right);
    each_id_kept(left, i);
    unique_nodes(left);
}

/// The folders of two lists are those of the one and then those of the other; a node is among them
/// exactly where it is a container.
pub proof fn law_folders(
    left: Seq<CoreContentNode>,
    right: Seq<CoreContentNode>,
    node: CoreContentNode,
)
    ensures
        containers(left + right) == containers(left) + containers(right),
        containers(seq![node]) == if node.is_container {
            seq![node]
        } else {
            seq![]
        },
{
    Seq::filter_distributes_over_add(left, right, |n: CoreContentNode| n.is_container);
    reveal_with_fuel(Seq::filter, 2);
    assert(seq![node].drop_last() =~= seq![]);
    assert(containers(seq![node]) =~= if node.is_container {
        seq![node]
    } else {
        seq![]
    });
}

/// The address of a node ends with its id, whole, and that of its children holds the id and ends
/// with the number of children that are asked for.
pub proof fn law_paths(node_id: Seq<char>, size: u64)
    ensures
        ({
            let k = 12 + node_id.len() as int;
            let children = children_path(node_id, size);
            &&& node_path(node_id).len() == k
            &&& node_path(node_id).take(12) == "/cm/v1/node/"@
            &&& node_path(node_id).skip(12) == node_id
            &&& children.len() > k + 19
            &&& children.take(k) == node_path(node_id)
            &&& children.subrange(k, k + 19) == "/nodes?page=0&size="@
            &&& decimal_value(children.skip(k + 19)) == size
        }),
{
    reveal_strlit("/cm/v1/node/");
    reveal_strlit("/nodes?page=0&size=");
    decimal_properties(size as nat);
    let k = 12 + node_id.len() as int;
    let children = children_path(node_id, size);
    assert(node_path(node_id).take(12) =~= "/cm/v1/node/"@);
    assert(node_path(node_id).skip(12) =~= node_id);
    assert(children.take(k) =~= node_path(node_id));
    assert(children.subrange(k, k + 19) =~= "/nodes?page=0&size="@);
    assert(children.skip(k + 19) =~= decimal(size as nat));
}

/// A listing is asked for by the id of its node, whole, and is what its fields are.
pub proof fn law_listing_seen(walk: ListingWalk, step: ListingStep, node_id: Seq<char>)
    ensures
        listing_begun(node_id) matches Listing::Next { node_id: asked, size } && asked == node_id
            && size == 200,
        walk@ == (Listing::Next { node_id: walk.node_id@, size: walk.size }),
        step matches ListingStep::Again(next) ==> step@ == next@,
        step matches ListingStep::Done(nodes) ==> step@ == Listing::Done(nodes@),
{
}

/// A listing goes on exactly where the server says that it has more children than it gave and than
/// were asked for, or where it says nothing of their number, gave as many as were asked for and more
/// can be asked for. It goes on with the number that the server said, or else with twice as many as
/// before; where it ends it holds the nodes of the answer.
pub proof fn law_listing_continued(node_id: Seq<char>, size: u64, reply: ListingReply)
    ensures
        ({
            let step = listing_continued(node_id, size, reply);
            let count = listing_items(reply).len();
            &&& step is Next <==> match reply.total {
                Some(total) => total > count && total > size,
                None => count >= size && 0 < size < u64::MAX,
            }
            &&& step matches Listing::Next { node_id: again, size: larger } ==> {
                &&& again == node_id
                &&& match reply.total {
                    Some(total) => larger == total,
                    None => larger == if 2 * size <= u64::MAX {
                        2 * size
                    } else {
                        u64::MAX as int
                    },
                }
            }
            &&& step matches Listing::Done(nodes) ==> nodes == first_of_each(
                nodes_among(listing_items(reply)),
            )
        }),
{
}

/// A document is downloaded from the origin of the service, followed by its download link, whole.
/// Without links, without that link or without an origin there is no download.
pub proof fn law_download(links: TextMap<String>, base_url: Seq<char>)
    ensures
        download_url(None, base_url) == Err::<Seq<char>, Failure>(
            Failure::NotFound("node has no cms_links"@),
        ),
        ({
            let linked = links@.contains_key("urn:eim:linkrel:download-media"@);
            &&& !linked ==> download_url(Some(links), base_url) == Err::<Seq<char>, Failure>(
                Failure::NotFound("no download-media link"@),
            )
            &&& linked && origin(base_url) is None ==> download_url(Some(links), base_url) == Err::<
                Seq<char>,
                Failure,
            >(Failure::Other("invalid base_url"@))
            &&& linked ==> (origin(base_url) matches Some(o) ==> {
                let link = links@["urn:eim:linkrel:download-media"@]@;
                &&& download_url(Some(links), base_url) matches Ok(url)
                &&& url.len() == o.len() + link.len()
                &&& url.take(o.len() as int) == o
                &&& url.skip(o.len() as int) == link
            })
        }),
{
    if links@.contains_key("urn:eim:linkrel:download-media"@) {
        if let Some(o) = origin(base_url) {
            let link = links@["urn:eim:linkrel:download-media"@]@;
            assert((o + link).take(o.len() as int) =~= o);
            assert((o + link).skip(o.len() as int) =~= link);
        }
    }
}

// ---- what a snapshot holds ----

/// The entry of a node has the name and the date of the node, whole. Its size is at least the size
/// of the node and at least that of its content where that is known, and is one of the two.
pub proof fn law_entry(node: CoreContentNode)
    ensures
        entry_of(node).name == node.name@,
        node.modify_date matches Some(date) ==> entry_of(node).modify_date == Some(date@),
        node.modify_date is None ==> entry_of(node).modify_date is None,
        entry_of(node).size >= node.size,
        node.content_size matches Some(content) ==> entry_of(node).size >= content && (entry_of(
            node,
        ).size == content || entry_of(node).size == node.size),
        node.content_size is None ==> entry_of(node).size == node.size,
{
}

/// The size of an entry is the larger of the two sizes that are known.
pub proof fn law_entry_size(size: u64, content: u64)
    ensures
        entry_size(size, None) == size,
        entry_size(size, Some(content)) >= size,
        entry_size(size, Some(content)) >= content,
        entry_size(size, Some(content)) == size || entry_size(size, Some(content)) == content,
{
}

/// An entry is what its fields are.
pub proof fn law_entry_seen(entry: CoreContentSnapshotEntry)
    ensures
        entry@.name == entry.name@,
        entry@.size == entry.size,
        entry.modify_date matches Some(date) ==> entry@.modify_date == Some(date@),
        entry.modify_date is None ==> entry@.modify_date is None,
{
}

/// A survey is what its fields are: the same ids in the same order, and for each id its entry. It
/// begins with the folder alone.
pub proof fn law_snapshot_seen(walk: SnapshotWalk, folder: Seq<char>)
    ensures
        survey_begun(folder).pending == seq![folder],
        survey_begun(folder).entries == Map::<Seq<char>, Entry>::empty(),
        walk@.pending.len() == walk.pending@.len(),
        forall|i: int|
            0 <= i < walk.pending@.len() ==> #[trigger] walk@.pending[i] == walk.pending@[i]@,
        walk@.entries == entries_view(walk.entries@),
{
}

/// Entries are those of each id, and of no other.
pub proof fn law_entries_seen(entries: Map<Seq<char>, CoreContentSnapshotEntry>)
    ensures
        entries_view(entries).dom() == entries.dom(),
        forall|id: Seq<char>|
            entries.contains_key(id) ==> #[trigger] entries_view(entries)[id] == entries[id]@,
{
    assert(entries_view(entries).dom() =~= entries.dom());
}

/// Children are taken in one after the other. A folder is to be listed behind those that were to be,
/// and changes no entry; any other node is recorded under its id, with its name, whole, and changes
/// no other entry.
pub proof fn law_children_taken_in(
    survey: Survey,
    left: Seq<CoreContentNode>,
    right: Seq<CoreContentNode>,
    child: CoreContentNode,
)
    ensures
        taken_in(survey, left + right) == taken_in(taken_in(survey, left), right),
        taken_in(survey, seq![]) == survey,
        child.is_container ==> taken_in(survey, seq![child]).pending == survey.pending + seq![
            child.id@,
        ] && taken_in(survey, seq![child]).entries == survey.entries,
        !child.is_container ==> {
            let behind = taken_in(survey, seq![child]);
            &&& behind.pending == survey.pending
            &&& behind.entries.contains_key(child.id@)
            &&& behind.entries[child.id@].name == child.name@
            &&& behind.entries[child.id@] == entry_of(child)
            &&& forall|id: Seq<char>|
                id != child.id@ ==> (#[trigger] behind.entries.contains_key(id)
                    <==> survey.entries.contains_key(id))
            &&& forall|id: Seq<char>|
                id != child.id@ && survey.entries.contains_key(id)
                    ==> #[trigger] behind.entries[id] == survey.entries[id]
        },
    decreases right.len(),
{
    reveal_with_fuel(taken_in, 2);
    assert(seq![child].drop_last() =~= seq![]);
    assert(survey.pending.push(child.id@) =~= survey.pending + seq![child.id@]);
    if right.len() == 0 {
        assert(left + right =~= left);
    } else {
        assert((left + right).drop_last() =~= left + right.drop_last());
        law_children_taken_in(survey, left, right.drop_last(), child);
    }
}

// ---- addresses ----

/// The origin of an address begins it, and is its own origin.
pub proof fn law_origin_of_origin(url: Seq<char>)
    requires
        origin(url) is Some,
    ensures
        begins_with(url, origin(url)->0),
        origin(origin(url)->0) == origin(url),
{
    reveal_strlit("://");
    let mark = "://"@;
    let i = first_position(url, mark);
    first_exists(url, mark);
    let host = i + 3;
    until_properties(url.skip(host), '/');
    let end = host + until(url.skip(host), '/');
    let head = url.take(end);
    assert(url.subrange(0, head.len() as int) =~= head);
    assert(head.subrange(i, i + 3) =~= url.subrange(i, i + 3));
    assert(occurs_at(head, mark, i));
    assert(first_at(head, mark, i)) by {
        assert forall|j: int| 0 <= j < i implies !occurs_at(head, mark, j) by {
            if occurs_at(head, mark, j) {
                assert(head.subrange(j, j + 3) =~= url.subrange(j, j + 3));
                assert(occurs_at(url, mark, j));
            }
        }
    }
    first_exists(head, mark);
    first_at_unique(head, mark, i, first_position(head, mark));
    assert forall|j: int| 0 <= j < head.skip(host).len() implies head.skip(host)[j] != '/' by {
        assert(head.skip(host)[j] == url.skip(host)[j]);
    }
    until_is(head.skip(host), '/', head.skip(host).len() as int);
    assert(head.take(head.len() as int) =~= head);
}

proof fn first_exists(text: Seq<char>, needle: Seq<char>)
    requires
        !absent(text, needle),
    ensures
        first_at(text, needle, first_position(text, needle)),
{
    let j = choose|j: int| occurs_at(text, needle, j);
    first_occurrence(text, needle, j);
}

/// A scheme and a host, where neither holds a slash nor the scheme a colon, are the origin of all
/// that they begin.
pub proof fn law_origin_is_scheme_and_host(scheme: Seq<char>, host: Seq<char>, path: Seq<char>)
    requires
        forall|i: int| 0 <= i < scheme.len() ==> scheme[i] != ':',
        forall|i: int| 0 <= i < host.len() ==> host[i] != '/',
        path.len() > 0 ==> path[0] == '/',
    ensures
        origin(scheme + "://"@ + host + path) == Some(scheme + "://"@ + host),
{
    reveal_strlit("://");
    let mark = "://"@;
    let url = scheme + mark + host + path;
    let n = scheme.len() as int;
    assert(url.subrange(n, n + 3) =~= mark);
    assert(occurs_at(url, mark, n));
    assert(first_at(url, mark, n)) by {
        assert forall|j: int| 0 <= j < n implies !occurs_at(url, mark, j) by {
            if occurs_at(url, mark, j) {
                assert(url.subrange(j, j + 3)[0] == mark[0]);
                assert(url[j] == scheme[j]);
            }
        }
    }
    first_exists(url, mark);
    first_at_unique(url, mark, n, first_position(url, mark));
    let rest = url.skip(n + 3);
    assert(rest =~= host + path);
    assert forall|j: int| 0 <= j < host.len() implies rest[j] != '/' by {
        assert(rest[j] == host[j]);
    }
    until_is(rest, '/', host.len() as int);
    assert(url.take(n + 3 + host.len()) =~= scheme + mark + host);
}

/// Whatever the token and the address are, every header has a value that can be sent.
pub proof fn law_headers_usable(csrf_token: Seq<char>, base_url: Seq<char>)
    ensures
        request_headers(csrf_token, base_url).len() == 4,
        forall|i: int|
            0 <= i < request_headers(csrf_token, base_url).len() ==> header_text(
                #[trigger] request_headers(csrf_token, base_url)[i].1,
            ),
{
    reveal_strlit("");
    reveal_strlit("XMLHttpRequest");
    reveal_strlit("dummy");
}

// ---- expired sessions ----

/// A request that has been sent again is not sent a third time.
pub proof fn law_one_renewal(credentials: bool, status: u16, failure: Option<Failure>)
    ensures
        !(answered(credentials, true, status, failure) is Authenticate),
{
}

/// What comes of a request whose answers are `first`, then, where a login is asked for and gives a
/// session, `second`.
pub open spec fn request_outcome(
    credentials: bool,
    first: (u16, Seq<char>),
    signed_in: bool,
    second: (u16, Seq<char>),
) -> Result<(), Failure> {
    match answered(credentials, false, first.0, api_failure(first.0, first.1)) {
        Answer::ReadBody => Ok(()),
        Answer::Fail(failure) => Err(failure),
        Answer::Authenticate => if !signed_in {
            Err(Failure::Auth("session expired"@))
        } else {
            match answered(credentials, true, second.0, api_failure(second.0, second.1)) {
                Answer::Fail(failure) => Err(failure),
                _ => Ok(()),
            }
        },
    }
}

/// A request succeeds exactly where its first answer is a success, or where the session had expired,
/// credentials are stored, the login gives a session and the second answer is a success. An expired
/// session that is not renewed is reported as such.
pub proof fn law_request_succeeds(
    credentials: bool,
    first: (u16, Seq<char>),
    signed_in: bool,
    second: (u16, Seq<char>),
)
    ensures
        request_outcome(credentials, first, signed_in, second) is Ok <==> {
            ||| is_success(first.0)
            ||| first.0 == 401 && credentials && signed_in && is_success(second.0)
        },
        first.0 == 401 && !(credentials && signed_in) ==> request_outcome(
            credentials,
            first,
            signed_in,
            second,
        ) == Err::<(), Failure>(Failure::Auth("session expired"@)),
{
}

// ---- listings ----

proof fn unique_nodes(nodes: Seq<CoreContentNode>)
    ensures
        forall|i: int, j: int|
            0 <= i < j < first_of_each(nodes).len() ==> (#[trigger] first_of_each(nodes)[i]).id@
                != (#[trigger] first_of_each(nodes)[j]).id@,
        forall|i: int|
            0 <= i < nodes.len() ==> has_id(first_of_each(nodes), (#[trigger] nodes[i]).id@),
        forall|i: int|
            0 <= i < first_of_each(nodes).len() ==> first_with_id(
                nodes,
                #[trigger] first_of_each(nodes)[i],
            ),
    decreases nodes.len(),
{
    if nodes.len() > 0 {
        let front = nodes.drop_last();
        let kept = first_of_each(front);
        let all = first_of_each(nodes);
        unique_nodes(front);
        assert forall|i: int, j: int| 0 <= i < j < all.len() implies (#[trigger] all[i]).id@ != (
        #[trigger] all[j]).id@ by {
            if j < kept.len() {
                assert(kept[i].id@ != kept[j].id@);
            } else {
                assert(all[i] == kept[i]);
            }
        }
        assert forall|id: Seq<char>| #[trigger] has_id(kept, id) implies has_id(all, id) by {
            let k = choose|k: int| 0 <= k < kept.len() && (#[trigger] kept[k]).id@ == id;
            assert(all[k].id@ == id);
        }
        assert forall|i: int| 0 <= i < nodes.len() implies has_id(
            all,
            (#[trigger] nodes[i]).id@,
        ) by {
            if i < front.len() {
                assert(front[i] == nodes[i]);
                assert(has_id(kept, front[i].id@));
            } else if !has_id(kept, nodes.last().id@) {
                assert(all[all.len() - 1].id@ == nodes[i].id@);
            }
        }
        assert forall|i: int| 0 <= i < all.len() implies first_with_id(
            nodes,
            #[trigger] all[i],
        ) by {
            if i < kept.len() {
                assert(all[i] == kept[i]);
                assert(first_with_id(front, kept[i]));
                let k = choose|k: int| #[trigger] leads(front, kept[i], k);
                assert(leads(nodes, all[i], k)) by {
                    assert forall|m: int| 0 <= m < k implies (#[trigger] nodes[m]).id@
                        != all[i].id@ by {
                        assert(front[m] == nodes[m]);
                    }
                }
            } else {
                let k = nodes.len() - 1;
                assert(leads(nodes, all[i], k)) by {
                    assert forall|m: int| 0 <= m < k implies (#[trigger] nodes[m]).id@
                        != all[i].id@ by {
                        assert(front[m] == nodes[m]);
                        assert(has_id(kept, front[m].id@));
                    }
                }
            }
        }
    }
}

/// Whether `node` stands at `k` in `nodes` with no other of its id before it.
pub open spec fn leads(nodes: Seq<CoreContentNode>, node: CoreContentNode, k: int) -> bool {
    &&& 0 <= k < nodes.len()
    &&& nodes[k] == node
    &&& forall|m: int| 0 <= m < k ==> (#[trigger] nodes[m]).id@ != node.id@
}

/// Whether `node` is the first of `nodes` with its id.
pub open spec fn first_with_id(nodes: Seq<CoreContentNode>, node: CoreContentNode) -> bool {
    exists|k: int| #[trigger] leads(nodes, node, k)
}

/// A listing holds each id once, holds every id that the server sent, and for each the node that
/// the server sent first.
pub proof fn law_listing_unique(reply: ListingReply)
    ensures
        forall|i: int, j: int|
            0 <= i < j < listed_nodes(reply).len() ==> (#[trigger] listed_nodes(reply)[i]).id@ != (
            #[trigger] listed_nodes(reply)[j]).id@,
        forall|i: int|
            0 <= i < nodes_among(listing_items(reply)).len() ==> has_id(
                listed_nodes(reply),
                (#[trigger] nodes_among(listing_items(reply))[i]).id@,
            ),
        forall|i: int|
            0 <= i < listed_nodes(reply).len() ==> first_with_id(
                nodes_among(listing_items(reply)),
                #[trigger] listed_nodes(reply)[i],
            ),
{
    unique_nodes(nodes_among(listing_items(reply)));
}

/// Whether `reply` is that of a server with `children` when the first `size` of them are asked for,
/// where it says how many there are in all or says nothing of it.
pub open spec fn serves(reply: ListingReply, children: Seq<CoreContentNode>, size: u64) -> bool {
    let items = listing_items(reply);
    &&& items.len() == if size < children.len() {
        size as nat
    } else {
        children.len()
    }
    &&& forall|i: int| 0 <= i < items.len() ==> #[trigger] items[i] == Some(children[i])
    &&& match reply.total {
        Some(total) => total == children.len(),
        None => true,
    }
}

/// What the listing of a node comes to, where `server` answers for each number of children that is
/// asked for, from `size` on.
pub open spec fn listing_outcome(
    server: spec_fn(u64) -> ListingReply,
    node_id: Seq<char>,
    size: u64,
) -> Seq<CoreContentNode>
    decreases u64::MAX - size,
{
    match listing_continued(node_id, size, server(size)) {
        Listing::Next { size: larger, .. } => if larger > size {
            listing_outcome(server, node_id, larger)
        } else {
            seq![]
        },
        Listing::Done(nodes) => nodes,
    }
}

proof fn nodes_among_all(items: Seq<Option<CoreContentNode>>, nodes: Seq<CoreContentNode>)
    requires
        items.len() == nodes.len(),
        forall|i: int| 0 <= i < items.len() ==> #[trigger] items[i] == Some(nodes[i]),
    ensures
        nodes_among(items) == nodes,
    decreases items.len(),
{
    if items.len() == 0 {
        assert(nodes =~= seq![]);
    } else {
        assert(items.last() == Some(nodes[items.len() - 1]));
        assert forall|i: int| 0 <= i < items.drop_last().len() implies #[trigger] items.drop_last()[i]
            == Some(nodes.drop_last()[i]) by {
            assert(items[i] == Some(nodes[i]));
        }
        nodes_among_all(items.drop_last(), nodes.drop_last());
        assert(nodes =~= nodes.drop_last().push(nodes.last()));
    }
}

proof fn listing_from(
    server: spec_fn(u64) -> ListingReply,
    node_id: Seq<char>,
    children: Seq<CoreContentNode>,
    size: u64,
)
    requires
        0 < size,
        children.len() < u64::MAX,
        forall|n: u64| serves(#[trigger] server(n), children, n),
    ensures
        listing_outcome(server, node_id, size) == first_of_each(children),
    decreases u64::MAX - size,
{
    let reply = server(size);
    assert(serves(reply, children, size));
    match listing_continued(node_id, size, reply) {
        Listing::Next { size: larger, .. } => {
            assert(larger > size);
            listing_from(server, node_id, children, larger);
        },
        Listing::Done(nodes) => {
            assert(size >= children.len());
            nodes_among_all(listing_items(reply), children);
        },
    }
}

proof fn distinct_nodes_kept(nodes: Seq<CoreContentNode>)
    requires
        forall|i: int, j: int|
            0 <= i < j < nodes.len() ==> (#[trigger] nodes[i]).id@ != (#[trigger] nodes[j]).id@,
    ensures
        first_of_each(nodes) == nodes,
    decreases nodes.len(),
{
    if nodes.len() == 0 {
        assert(nodes =~= seq![]);
    } else {
        let front = nodes.drop_last();
        assert forall|i: int, j: int| 0 <= i < j < front.len() implies (#[trigger] front[i]).id@ != (
        #[trigger] front[j]).id@ by {
            assert(nodes[i].id@ != nodes[j].id@);
        }
        distinct_nodes_kept(front);
        assert forall|i: int| 0 <= i < front.len() implies (#[trigger] front[i]).id@
            != nodes.last().id@ by {
            assert(nodes[i].id@ != nodes[nodes.len() - 1].id@);
        }
        assert(nodes =~= front.push(nodes.last()));
    }
}

/// Of a server that gives as many children as are asked for, however many there are, a listing holds
/// all children, each id once.
pub proof fn law_listing_holds_all(
    server: spec_fn(u64) -> ListingReply,
    node_id: Seq<char>,
    children: Seq<CoreContentNode>,
)
    requires
        children.len() < u64::MAX,
        forall|n: u64| serves(#[trigger] server(n), children, n),
    ensures
        listing_outcome(server, node_id, FIRST_LISTING_SIZE) == first_of_each(children),
        (forall|i: int, j: int|
            0 <= i < j < children.len() ==> (#[trigger] children[i]).id@ != (
            #[trigger] children[j]).id@) ==> listing_outcome(server, node_id, FIRST_LISTING_SIZE)
            == children,
{
    listing_from(server, node_id, children, FIRST_LISTING_SIZE);
    if forall|i: int, j: int|
        0 <= i < j < children.len() ==> (#[trigger] children[i]).id@ != (
        #[trigger] children[j]).id@ {
        distinct_nodes_kept(children);
    }
}

/// Whatever a server answers, each further request of a listing asks for more children.
pub proof fn law_listing_grows(node_id: Seq<char>, size: u64, reply: ListingReply)
    ensures
        listing_continued(node_id, size, reply) matches Listing::Next { node_id: again, size: larger }
            ==> again == node_id && larger > size,
{
}

/// The folders of a listing are containers of it, and all of them.
pub proof fn law_only_folders(nodes: Seq<CoreContentNode>, node: CoreContentNode)
    ensures
        containers(nodes).contains(node) <==> nodes.contains(node) && node.is_container,
{
    let pick = |n: CoreContentNode| n.is_container;
    assert(containers(nodes) == nodes.filter(pick));
    if containers(nodes).contains(node) {
        let k = choose|k: int| 0 <= k < containers(nodes).len() && containers(nodes)[k] == node;
        nodes.lemma_filter_pred(pick, k);
        nodes.lemma_filter_contains_rev(pick, node);
    }
    if nodes.contains(node) && node.is_container {
        let k = choose|k: int| 0 <= k < nodes.len() && nodes[k] == node;
        nodes.lemma_filter_contains(pick, k);
    }
}

// ---- snapshots ----

/// A survey after its next folder, where `tree` gives the children of each node.
pub open spec fn survey_step(
    tree: spec_fn(Seq<char>) -> Seq<CoreContentNode>,
    survey: Survey,
) -> Survey {
    if survey.pending.len() == 0 {
        survey
    } else {
        taken_in(
            Survey { pending: survey.pending.drop_last(), entries: survey.entries },
            tree(survey.pending.last()),
        )
    }
}

/// A survey after its next `n` folders.
pub open spec fn survey_steps(
    tree: spec_fn(Seq<char>) -> Seq<CoreContentNode>,
    survey: Survey,
    n: nat,
) -> Survey
    decreases n,
{
    if n == 0 {
        survey
    } else {
        survey_step(tree, survey_steps(tree, survey, (n - 1) as nat))
    }
}

/// Whether `node` lies directly in `parent`.
pub open spec fn lies_in(
    tree: spec_fn(Seq<char>) -> Seq<CoreContentNode>,
    parent: CoreContentNode,
    node: CoreContentNode,
) -> bool {
    parent.is_container && tree(parent.id@).contains(node)
}

/// Whether `node` lies below `root`, `depth` folders down.
pub open spec fn lies_below(
    tree: spec_fn(Seq<char>) -> Seq<CoreContentNode>,
    root: Seq<char>,
    node: CoreContentNode,
    depth: nat,
) -> bool
    decreases depth,
{
    if depth == 0 {
        tree(root).contains(node)
    } else {
        exists|c: CoreContentNode|
            lies_below(tree, root, c, (depth - 1) as nat) && #[trigger] lies_in(tree, c, node)
    }
}

/// Whether `id` is the root or a folder below it.
pub open spec fn folder_below(
    tree: spec_fn(Seq<char>) -> Seq<CoreContentNode>,
    root: Seq<char>,
    id: Seq<char>,
) -> bool {
    ||| id == root
    ||| exists|c: CoreContentNode, d: nat|
        c.id@ == id && c.is_container && #[trigger] lies_below(tree, root, c, d)
}

/// Whether `entry` is that of a document below `root` with the id `id`.
pub open spec fn entry_below(
    tree: spec_fn(Seq<char>) -> Seq<CoreContentNode>,
    root: Seq<char>,
    id: Seq<char>,
    entry: Entry,
) -> bool {
    exists|c: CoreContentNode, d: nat|
        c.id@ == id && !c.is_container && entry == entry_of(c) && #[trigger] lies_below(
            tree,
            root,
            c,
            d,
        )
}

/// The ids of the folders among `children`, in order.
pub open spec fn folder_ids(children: Seq<CoreContentNode>) -> Seq<Seq<char>>
    decreases children.len(),
{
    if children.len() == 0 {
        seq![]
    } else if children.last().is_container {
        folder_ids(children.drop_last()).push(children.last().id@)
    } else {
        folder_ids(children.drop_last())
    }
}

proof fn folder_ids_properties(children: Seq<CoreContentNode>)
    ensures
        forall|i: int|
            0 <= i < children.len() && (#[trigger] children[i]).is_container ==> folder_ids(
                children,
            ).contains(children[i].id@),
        forall|k: int|
            0 <= k < folder_ids(children).len() ==> folder_among(
                children,
                #[trigger] folder_ids(children)[k],
            ),
    decreases children.len(),
{
    if children.len() > 0 {
        let front = children.drop_last();
        folder_ids_properties(front);
        let ids = folder_ids(children);
        assert forall|i: int|
            0 <= i < children.len() && (#[trigger] children[i]).is_container implies ids.contains(
            children[i].id@,
        ) by {
            if i < front.len() {
                assert(front[i] == children[i]);
                let k = choose|k: int|
                    0 <= k < folder_ids(front).len() && folder_ids(front)[k] == children[i].id@;
                assert(ids[k] == children[i].id@);
            } else {
                assert(ids[ids.len() - 1] == children[i].id@);
            }
        }
        assert forall|k: int| 0 <= k < ids.len() implies folder_among(
            children,
            #[trigger] ids[k],
        ) by {
            if k < folder_ids(front).len() {
                assert(folder_among(front, folder_ids(front)[k]));
                let i = choose|i: int|
                    0 <= i < front.len() && (#[trigger] front[i]).is_container && front[i].id@
                        == ids[k];
                assert(children[i] == front[i]);
            } else {
                assert(children[children.len() - 1].is_container);
            }
        }
    }
}

/// Whether a folder among `children` has the id `id`.
pub open spec fn folder_among(children: Seq<CoreContentNode>, id: Seq<char>) -> bool {
    exists|i: int|
        0 <= i < children.len() && (#[trigger] children[i]).is_container && children[i].id@ == id
}

/// Whether `entry` is that of a document among `children` with the id `id`.
pub open spec fn entry_among(children: Seq<CoreContentNode>, id: Seq<char>, entry: Entry) -> bool {
    exists|i: int|
        0 <= i < children.len() && !(#[trigger] children[i]).is_container && children[i].id@ == id
            && entry == entry_of(children[i])
}

proof fn taken_in_properties(survey: Survey, children: Seq<CoreContentNode>)
    ensures
        taken_in(survey, children).pending == survey.pending + folder_ids(children),
        forall|id: Seq<char>| #[trigger]
            survey.entries.contains_key(id) ==> taken_in(survey, children).entries.contains_key(id),
        forall|i: int|
            0 <= i < children.len() && !(#[trigger] children[i]).is_container ==> taken_in(
                survey,
                children,
            ).entries.contains_key(children[i].id@),
        forall|id: Seq<char>| #[trigger]
            taken_in(survey, children).entries.contains_key(id) ==> {
                ||| survey.entries.contains_key(id) && taken_in(survey, children).entries[id]
                    == survey.entries[id]
                ||| entry_among(children, id, taken_in(survey, children).entries[id])
            },
    decreases children.len(),
{
    let t = taken_in(survey, children);
    if children.len() == 0 {
        assert(survey.pending + folder_ids(children) =~= survey.pending);
    } else {
        let front = children.drop_last();
        let s = taken_in(survey, front);
        let last = children.last();
        taken_in_properties(survey, front);
        if last.is_container {
            assert(t.pending =~= survey.pending + folder_ids(children));
        }
        assert forall|i: int|
            0 <= i < children.len() && !(
            #[trigger] children[i]).is_container implies t.entries.contains_key(
            children[i].id@,
        ) by {
            if i < front.len() {
                assert(front[i] == children[i]);
            }
        }
        assert forall|id: Seq<char>| #[trigger] t.entries.contains_key(id) implies {
            ||| survey.entries.contains_key(id) && t.entries[id] == survey.entries[id]
            ||| entry_among(children, id, t.entries[id])
        } by {
            if !last.is_container && id == last.id@ {
                assert(children[children.len() - 1] == last);
            } else {
                assert(s.entries.contains_key(id));
                assert(t.entries[id] == s.entries[id]);
                if entry_among(front, id, s.entries[id]) {
                    let i = choose|i: int|
                        0 <= i < front.len() && !(#[trigger] front[i]).is_container && front[i].id@
                            == id && s.entries[id] == entry_of(front[i]);
                    assert(children[i] == front[i]);
                }
            }
        }
    }
}

/// Every recorded entry is that of a document below the folder with that id, and only the folder
/// itself and folders below it are listed.
pub proof fn law_survey_sound(
    tree: spec_fn(Seq<char>) -> Seq<CoreContentNode>,
    root: Seq<char>,
    n: nat,
)
    ensures
        forall|id: Seq<char>| #[trigger]
            survey_steps(tree, survey_begun(root), n).entries.contains_key(id) ==> entry_below(
                tree,
                root,
                id,
                survey_steps(tree, survey_begun(root), n).entries[id],
            ),
        forall|k: int|
            0 <= k < survey_steps(tree, survey_begun(root), n).pending.len() ==> folder_below(
                tree,
                root,
                #[trigger] survey_steps(tree, survey_begun(root), n).pending[k],
            ),
    decreases n,
{
    if n > 0 {
        law_survey_sound(tree, root, (n - 1) as nat);
        let s = survey_steps(tree, survey_begun(root), (n - 1) as nat);
        let t = survey_steps(tree, survey_begun(root), n);
        if s.pending.len() > 0 {
            let at = s.pending.last();
            let children = tree(at);
            let before = Survey { pending: s.pending.drop_last(), entries: s.entries };
            taken_in_properties(before, children);
            folder_ids_properties(children);
            assert(folder_below(tree, root, s.pending[s.pending.len() - 1]));
            assert forall|i: int| 0 <= i < children.len() implies is_below(
                tree,
                root,
                #[trigger] children[i],
            ) by {
                let node = children[i];
                assert(children.contains(node));
                if at == root {
                    assert(lies_below(tree, root, node, 0));
                } else {
                    let (c, d) = choose|c: CoreContentNode, d: nat|
                        c.id@ == at && c.is_container && #[trigger] lies_below(tree, root, c, d);
                    assert(lies_in(tree, c, node));
                    assert(lies_below(tree, root, node, d + 1));
                }
            }
            assert forall|id: Seq<char>| #[trigger] t.entries.contains_key(id) implies entry_below(
                tree,
                root,
                id,
                t.entries[id],
            ) by {
                if entry_among(children, id, t.entries[id]) {
                    let i = choose|i: int|
                        0 <= i < children.len() && !(#[trigger] children[i]).is_container
                            && children[i].id@ == id && t.entries[id] == entry_of(children[i]);
                    assert(is_below(tree, root, children[i]));
                } else {
                    assert(s.entries.contains_key(id));
                }
            }
            assert forall|k: int| 0 <= k < t.pending.len() implies folder_below(
                tree,
                root,
                #[trigger] t.pending[k],
            ) by {
                if k < before.pending.len() {
                    assert(t.pending[k] == s.pending[k]);
                } else {
                    let j = k - before.pending.len();
                    assert(t.pending[k] == folder_ids(children)[j]);
                    assert(folder_among(children, folder_ids(children)[j]));
                    let i = choose|i: int|
                        0 <= i < children.len() && (#[trigger] children[i]).is_container
                            && children[i].id@ == t.pending[k];
                    assert(is_below(tree, root, children[i]));
                }
            }
        }
    }
}

/// Whether `node` lies below `root`.
pub open spec fn is_below(
    tree: spec_fn(Seq<char>) -> Seq<CoreContentNode>,
    root: Seq<char>,
    node: CoreContentNode,
) -> bool {
    exists|depth: nat| #[trigger] lies_below(tree, root, node, depth)
}

proof fn surveyed_ids(
    tree: spec_fn(Seq<char>) -> Seq<CoreContentNode>,
    root: Seq<char>,
    n: nat,
) -> (seen: Set<Seq<char>>)
    ensures
        ({
            let s = survey_steps(tree, survey_begun(root), n);
            &&& seen.contains(root) || s.pending.contains(root)
            &&& forall|v: Seq<char>, node: CoreContentNode|
                seen.contains(v) && #[trigger] tree(v).contains(node) ==> {
                    &&& !node.is_container ==> s.entries.contains_key(node.id@)
                    &&& node.is_container ==> seen.contains(node.id@) || s.pending.contains(
                        node.id@,
                    )
                }
        }),
    decreases n,
{
    if n == 0 {
        assert(survey_begun(root).pending[0] == root);
        Set::empty()
    } else {
        let before = surveyed_ids(tree, root, (n - 1) as nat);
        let s = survey_steps(tree, survey_begun(root), (n - 1) as nat);
        let t = survey_steps(tree, survey_begun(root), n);
        if s.pending.len() == 0 {
            before
        } else {
            let at = s.pending.last();
            let seen = before.insert(at);
            let children = tree(at);
            let rest = Survey { pending: s.pending.drop_last(), entries: s.entries };
            taken_in_properties(rest, children);
            folder_ids_properties(children);
            assert forall|id: Seq<char>| s.pending.contains(id) implies seen.contains(id)
                || #[trigger] t.pending.contains(id) by {
                let k = choose|k: int| 0 <= k < s.pending.len() && s.pending[k] == id;
                if k < s.pending.len() - 1 {
                    assert(t.pending[k] == id);
                }
            }
            assert forall|id: Seq<char>| folder_ids(children).contains(
                id,
            ) implies #[trigger] t.pending.contains(id) by {
                let k = choose|k: int|
                    0 <= k < folder_ids(children).len() && folder_ids(children)[k] == id;
                assert(t.pending[rest.pending.len() + k] == id);
            }
            assert forall|v: Seq<char>, node: CoreContentNode|
                seen.contains(v) && #[trigger] tree(v).contains(node) implies {
                &&& !node.is_container ==> t.entries.contains_key(node.id@)
                &&& node.is_container ==> seen.contains(node.id@) || t.pending.contains(node.id@)
            } by {
                if v == at {
                    let i = choose|i: int| 0 <= i < children.len() && children[i] == node;
                    assert(children[i].id@ == node.id@);
                } else {
                    assert(before.contains(v));
                    if !node.is_container {
                        assert(s.entries.contains_key(node.id@));
                    }
                }
            }
            seen
        }
    }
}

proof fn seen_below(
    tree: spec_fn(Seq<char>) -> Seq<CoreContentNode>,
    root: Seq<char>,
    seen: Set<Seq<char>>,
    survey: Survey,
    node: CoreContentNode,
    depth: nat,
)
    requires
        seen.contains(root),
        forall|v: Seq<char>, n: CoreContentNode|
            seen.contains(v) && #[trigger] tree(v).contains(n) ==> {
                &&& !n.is_container ==> survey.entries.contains_key(n.id@)
                &&& n.is_container ==> seen.contains(n.id@)
            },
        lies_below(tree, root, node, depth),
    ensures
        !node.is_container ==> survey.entries.contains_key(node.id@),
        node.is_container ==> seen.contains(node.id@),
    decreases depth,
{
    if depth > 0 {
        let c = choose|c: CoreContentNode|
            lies_below(tree, root, c, (depth - 1) as nat) && #[trigger] lies_in(tree, c, node);
        seen_below(tree, root, seen, survey, c, (depth - 1) as nat);
    }
}

/// A survey without pending folders has recorded every document below the folder.
pub proof fn law_survey_complete(
    tree: spec_fn(Seq<char>) -> Seq<CoreContentNode>,
    root: Seq<char>,
    n: nat,
    node: CoreContentNode,
    depth: nat,
)
    requires
        survey_steps(tree, survey_begun(root), n).pending.len() == 0,
        lies_below(tree, root, node, depth),
        !node.is_container,
    ensures
        survey_steps(tree, survey_begun(root), n).entries.contains_key(node.id@),
{
    let seen = surveyed_ids(tree, root, n);
    seen_below(tree, root, seen, survey_steps(tree, survey_begun(root), n), node, depth);
}

/// Where documents with one id have one name, a complete survey has the name of a document exactly
/// where such a document lies below the folder.
pub proof fn law_search_finds(
    tree: spec_fn(Seq<char>) -> Seq<CoreContentNode>,
    root: Seq<char>,
    n: nat,
    name: Seq<char>,
)
    requires
        survey_steps(tree, survey_begun(root), n).pending.len() == 0,
        forall|a: CoreContentNode, b: CoreContentNode|
            #![trigger is_below(tree, root, a), is_below(tree, root, b)]
            is_below(tree, root, a) && is_below(tree, root, b) && !a.is_container
                && !b.is_container && a.id@ == b.id@ ==> a.name@ == b.name@,
    ensures
        has_name(survey_steps(tree, survey_begun(root), n).entries, name) <==> (exists|
            node: CoreContentNode,
        | #[trigger]
            is_below(tree, root, node) && !node.is_container && node.name@ == name),
{
    let entries = survey_steps(tree, survey_begun(root), n).entries;
    law_survey_sound(tree, root, n);
    if has_name(entries, name) {
        let id = choose|id: Seq<char>| #[trigger]
            entries.contains_key(id) && entries[id].name == name;
        let (c, d) = choose|c: CoreContentNode, d: nat|
            c.id@ == id && !c.is_container && entries[id] == entry_of(c) && #[trigger] lies_below(
                tree,
                root,
                c,
                d,
            );
        assert(is_below(tree, root, c));
    }
    if exists|node: CoreContentNode| #[trigger]
        is_below(tree, root, node) && !node.is_container && node.name@ == name {
        let node = choose|node: CoreContentNode| #[trigger]
            is_below(tree, root, node) && !node.is_container && node.name@ == name;
        let depth = choose|depth: nat| #[trigger] lies_below(tree, root, node, depth);
        law_survey_complete(tree, root, n, node, depth);
        let id = node.id@;
        assert(entry_below(tree, root, id, entries[id]));
        let (c, d) = choose|c: CoreContentNode, d: nat|
            c.id@ == id && !c.is_container && entries[id] == entry_of(c) && #[trigger] lies_below(
                tree,
                root,
                c,
                d,
            );
        assert(is_below(tree, root, c));
        assert(entries.contains_key(id) && entries[id].name == name);
    }
}

/// The sum of the weights of `ids`.
pub open spec fn weight_of(weight: spec_fn(Seq<char>) -> nat, ids: Seq<Seq<char>>) -> nat
    decreases ids.len(),
{
    if ids.len() == 0 {
        0
    } else {
        weight_of(weight, ids.drop_last()) + weight(ids.last())
    }
}

proof fn weight_of_sum(
    weight: spec_fn(Seq<char>) -> nat,
    left: Seq<Seq<char>>,
    right: Seq<Seq<char>>,
)
    ensures
        weight_of(weight, left + right) == weight_of(weight, left) + weight_of(weight, right),
    decreases right.len(),
{
    if right.len() == 0 {
        assert(left + right =~= left);
    } else {
        assert((left + right).drop_last() =~= left + right.drop_last());
        weight_of_sum(weight, left, right.drop_last());
    }
}

proof fn weight_left(
    tree: spec_fn(Seq<char>) -> Seq<CoreContentNode>,
    weight: spec_fn(Seq<char>) -> nat,
    root: Seq<char>,
    n: nat,
)
    requires
        forall|id: Seq<char>|
            weight(id) == 1 + weight_of(weight, folder_ids(#[trigger] tree(id))),
        n <= weight(root),
    ensures
        weight_of(weight, survey_steps(tree, survey_begun(root), n).pending) == weight(root) - n,
    decreases n,
{
    if n == 0 {
        assert(survey_begun(root).pending.drop_last() =~= seq![]);
        reveal_with_fuel(weight_of, 2);
    } else {
        weight_left(tree, weight, root, (n - 1) as nat);
        let s = survey_steps(tree, survey_begun(root), (n - 1) as nat);
        assert(s.pending.len() > 0);
        let rest = Survey { pending: s.pending.drop_last(), entries: s.entries };
        taken_in_properties(rest, tree(s.pending.last()));
        weight_of_sum(weight, s.pending.drop_last(), folder_ids(tree(s.pending.last())));
    }
}

/// On a finite hierarchy, where each folder counts itself and the folders in it, a survey ends after
/// as many listings as the folder counts, and not before.
pub proof fn law_survey_ends(
    tree: spec_fn(Seq<char>) -> Seq<CoreContentNode>,
    weight: spec_fn(Seq<char>) -> nat,
    root: Seq<char>,
    n: nat,
)
    requires
        forall|id: Seq<char>|
            weight(id) == 1 + weight_of(weight, folder_ids(#[trigger] tree(id))),
        n <= weight(root),
    ensures
        survey_steps(tree, survey_begun(root), n).pending.len() == 0 <==> n == weight(root),
{
    weight_left(tree, weight, root, n);
    let pending = survey_steps(tree, survey_begun(root), n).pending;
    if pending.len() > 0 {
        assert(weight(pending.last()) == 1 + weight_of(weight, folder_ids(tree(pending.last()))));
    }
}

// ---- names ----

proof fn split_of_pair(left: Seq<char>, right: Seq<char>, c: char)
    ensures
        split(left + seq![c] + right, c) == split(left, c) + split(right, c),
{
    law_split(left, right, c);
}

/// A path that ends in a slash and a name has that name, unless the name is `.` or `..`.
pub proof fn law_last_name(directory: Seq<char>, name: Seq<char>)
    requires
        name.len() > 0,
        name != "."@,
        name != ".."@,
        forall|i: int| 0 <= i < name.len() ==> name[i] != '/',
    ensures
        last_name(directory + seq!['/'] + name) == Some(name),
        proper_names(directory + seq!['/'] + name) == proper_names(directory) + seq![name],
{
    let path = directory + seq!['/'] + name;
    let named = |n: Seq<char>| n.len() > 0;
    let proper = |n: Seq<char>| n != "."@;
    split_of_pair(directory, name, '/');
    until_is(name, '/', name.len() as int);
    assert(split(name, '/') =~= seq![name]);
    Seq::filter_distributes_over_add(split(directory, '/'), seq![name], named);
    reveal_with_fuel(Seq::filter, 2);
    assert(seq![name].drop_last() =~= seq![]);
    assert(seq![name].filter(named) =~= seq![name]);
    assert(segments(path) == segments(directory) + seq![name]);
    Seq::filter_distributes_over_add(segments(directory), seq![name], proper);
    assert(seq![name].filter(proper) =~= seq![name]);
    assert(proper_names(path) == proper_names(directory) + seq![name]);
    assert(proper_names(path).last() == name);
}

proof fn first_name_with_drive(directory: Seq<char>)
    requires
        directory.len() >= 2,
        directory[0] != '/',
        directory[1] == ':',
    ensures
        proper_names(directory).len() > 0,
{
    reveal_strlit(".");
    let named = |n: Seq<char>| n.len() > 0;
    let proper = |n: Seq<char>| n != "."@;
    let pieces = split(directory, '/');
    let k = until(directory, '/');
    until_properties(directory, '/');
    assert(k >= 2);
    assert(pieces.len() > 0 && pieces[0].len() >= 2) by {
        if k < directory.len() {
            assert(pieces[0] == directory.take(k));
        }
    }
    let first = pieces[0];
    pieces.lemma_filter_contains(named, 0);
    let names = segments(directory);
    let i = choose|i: int| 0 <= i < names.len() && names[i] == first;
    assert(proper(names[i]));
    names.lemma_filter_contains(proper, i);
    assert(proper_names(directory).contains(first));
}

/// A document in a directory is looked for by its name, whatever drive or share the directory is on.
pub proof fn law_document_name(directory: Seq<char>, name: Seq<char>)
    requires
        name.len() > 0,
        name != "."@,
        name != ".."@,
        forall|i: int| 0 <= i < name.len() ==> #[trigger] name[i] != '/' && name[i] != '\\',
        forall|i: int| 0 <= i < directory.len() ==> #[trigger] directory[i] != '\\',
        begins_with(directory + seq!['/'] + name, "//"@) ==> proper_names(directory).len() >= 2,
    ensures
        is_plain_path(directory + seq!['/'] + name),
        wanted_name(directory + seq!['/'] + name) == name,
{
    let path = directory + seq!['/'] + name;
    law_last_name(directory, name);
    if path.len() >= 2 && path[0] != '/' && path[1] == ':' {
        assert(directory.len() >= 2);
        assert(directory[0] == path[0] && directory[1] == path[1]);
        first_name_with_drive(directory);
    }
}

/// The names of two paths with a slash between them are those of the one and then those of the
/// other, without those that are a single dot.
pub proof fn law_proper_names(left: Seq<char>, right: Seq<char>)
    ensures
        proper_names(left + seq!['/'] + right) == proper_names(left) + proper_names(right),
        !left.contains('/') && left.len() > 0 && left != seq!['.'] ==> proper_names(left) == seq![
            left,
        ],
        left.len() == 0 || left == seq!['.'] ==> proper_names(left) == Seq::<Seq<char>>::empty(),
{
    reveal_strlit(".");
    let proper = |n: Seq<char>| n != "."@;
    assert("."@ =~= seq!['.']);
    law_names(left, right);
    Seq::filter_distributes_over_add(segments(left), segments(right), proper);
    reveal_with_fuel(Seq::filter, 2);
    assert(seq![left].drop_last() =~= seq![]);
    if left == seq!['.'] {
        assert(!left.contains('/'));
        assert(seq![left].filter(proper) =~= seq![]);
    } else if !left.contains('/') && left.len() > 0 {
        assert(seq![left].filter(proper) =~= seq![left]);
    }
}

/// A slash or a dot at the end of a path does not count for its name; a path that ends in two dots
/// has no name.
pub proof fn law_name_at_end(path: Seq<char>)
    ensures
        last_name(path + seq!['/']) == last_name(path),
        last_name(path + seq!['/'] + seq!['.']) == last_name(path),
        last_name(path + seq!['/'] + seq!['.', '.']) is None,
{
    let none = Seq::<char>::empty();
    let dots = seq!['.', '.'];
    assert(last_name(path + seq!['/']) == last_name(path)) by {
        assert(path + seq!['/'] + none =~= path + seq!['/']);
        nothing_behind(path, none);
    }
    nothing_behind(path, seq!['.']);
    assert(last_name(path + seq!['/'] + dots) is None) by {
        reveal_strlit("..");
        law_proper_names(path, dots);
        assert(proper_names(dots) == seq![dots]) by {
            assert(!dots.contains('/'));
            law_proper_names(dots, none);
        }
        assert(".."@ =~= dots);
        assert((proper_names(path) + seq![dots]).last() == dots);
    }
}

proof fn nothing_behind(path: Seq<char>, end: Seq<char>)
    requires
        end.len() == 0 || end == seq!['.'],
    ensures
        last_name(path + seq!['/'] + end) == last_name(path),
{
    law_proper_names(path, end);
    assert(proper_names(end) == Seq::<Seq<char>>::empty()) by {
        law_proper_names(end, end);
    }
    assert(proper_names(path) + Seq::<Seq<char>>::empty() =~= proper_names(path));
}

/// A path of one name has that name; an empty path, a dot and two dots have none. Where a path has no
/// name, what is looked for is the empty name.
pub proof fn law_single_name(path: Seq<char>)
    ensures
        !path.contains('/') && path.len() > 0 && path != seq!['.'] && path != seq!['.', '.']
            ==> last_name(path) == Some(path),
        path.len() == 0 || path == seq!['.'] || path == seq!['.', '.'] ==> last_name(path) is None,
        last_name(path) matches Some(name) ==> wanted_name(path) == name,
        last_name(path) is None ==> wanted_name(path).len() == 0,
{
    reveal_strlit("");
    reveal_strlit("..");
    assert(".."@ =~= seq!['.', '.']);
    law_proper_names(path, seq![]);
    if path == seq!['.', '.'] {
        assert(!path.contains('/'));
        assert(seq![path].last() == path);
    } else if !path.contains('/') && path.len() > 0 {
        assert(seq![path].last() == path);
    }
}

/// A path without backslashes whose first two characters are neither two slashes nor anything and a
/// colon is plain, and so is one with backslashes that is so with slashes in their place.
pub proof fn law_plain(path: Seq<char>)
    requires
        path.len() >= 2 ==> path[1] != ':' && !(path[0] == '/' && path[1] == '/'),
    ensures
        !path.contains('\\') ==> is_plain_path(path),
        is_plain_path(normalized(path)) && !begins_with(path, "\\\\?\\"@) ==> is_slashed_path(path),
        path.contains('\\') ==> !is_plain_path(path),
{
    reveal_strlit("//");
    if !path.contains('\\') {
        assert forall|i: int| 0 <= i < path.len() implies #[trigger] path[i] != '\\' by {
            if path[i] == '\\' {
                assert(path.contains('\\'));
            }
        }
        if begins_with(path, "//"@) {
            assert(path.subrange(0, 2) == "//"@);
            assert(path[0] == path.subrange(0, 2)[0]);
            assert(path[1] == path.subrange(0, 2)[1]);
        }
    }
}

/// A name is the last one of a path exactly where it is that name.
pub proof fn law_names_last(name: String, path: Seq<char>)
    ensures
        names_last(Some(name), path) <==> last_name(path) == Some(name@),
        names_last(None, path) <==> last_name(path) is None,
{
}

/// A name is found exactly where some entry has it.
pub proof fn law_name_found(entries: Map<Seq<char>, Entry>, name: Seq<char>, id: Seq<char>)
    ensures
        entries.contains_key(id) && entries[id].name == name ==> has_name(entries, name),
        !has_name(entries, name) && entries.contains_key(id) ==> entries[id].name != name,
        has_name(entries, name) ==> exists|found: Seq<char>| #[trigger]
            entries.contains_key(found) && entries[found].name == name,
{
}

/// A file that is not found is told by its name and that of the folder, both whole.
pub proof fn law_missing_file(name: Seq<char>, folder: Seq<char>)
    ensures
        ({
            let message = missing_file(name, folder);
            let n = 6 + name.len() as int;
            let k = n + 36 + folder.len() as int;
            &&& message.len() == k + 1
            &&& message.take(6) == "file '"@
            &&& message.subrange(6, n) == name
            &&& message.subrange(n, n + 36) == "' not found in Core Content folder '"@
            &&& message.subrange(n + 36, k) == folder
            &&& message[k] == '\''
        }),
{
    reveal_strlit("file '");
    reveal_strlit("' not found in Core Content folder '");
    reveal_strlit("'");
    let message = missing_file(name, folder);
    let n = 6 + name.len() as int;
    let k = n + 36 + folder.len() as int;
    assert(message.take(6) =~= "file '"@);
    assert(message.subrange(6, n) =~= name);
    assert(message.subrange(n, n + 36) =~= "' not found in Core Content folder '"@);
    assert(message.subrange(n + 36, k) =~= folder);
}

} // verus!
