//! What holds of a login as a whole.

use std::path::PathBuf;

use vstd::prelude::*;
use vstd::string::*;
use vstd::utf8::*;

use crate::core_content_client::{
    core_content_message, session_of, CoreContentClient, CoreContentConfig, CoreContentError,
    CoreContentNode,
};
use crate::desktop::is_new_core_content;
use crate::encoding::{lossy_text, percent_decoded};
use crate::json::{row_view, rows_text, rows_view, text_object};
use crate::login::{
    choices_show, completed, completed_token, cookie_page, cookie_pair, cookie_pairs,
    document_cookies, error_json, folder_rows, folders_json, holds_session, is_code_page,
    is_empty_result, is_login_id, is_session_config, login_label, login_script, merged, pair_map,
    polled, readable, signal, signalled, step_shows, token_in, BrowserCookie,
    CoreContentLoginResult, FolderChoice, LoginBrowser, Poll, PollStep,
};
use crate::text::{
    absent, first_at, first_at_unique, first_position, is_white_space, occurs_at, replaced, split,
    trimmed, until, until_is, until_properties,
};
use crate::text_laws::{
    law_leftmost_replaced, law_nothing_to_replace, law_occurrence, law_split, law_trimmed,
};
use crate::text_map::texts;

verus! {

broadcast use vstd::string::group_string_axioms;

// ---- the token ----

/// The token is the value of the cookie `CCM-XSRF-TOKEN`, whole, and empty where there is no such
/// cookie.
pub proof fn law_token(cookies: Map<Seq<char>, Seq<char>>)
    ensures
        cookies.contains_key("CCM-XSRF-TOKEN"@) ==> token_in(cookies) == cookies["CCM-XSRF-TOKEN"@],
        !cookies.contains_key("CCM-XSRF-TOKEN"@) ==> token_in(cookies).len() == 0,
{
    reveal_strlit("");
}

/// The token of a login, and of the client that is made of it, is the cookie `CCM-XSRF-TOKEN` of the
/// page, whole, or else that of the browser, whole; it is empty where neither has one.
pub proof fn law_token_of_login(
    page: Map<Seq<char>, String>,
    browser: Option<Map<Seq<char>, String>>,
    result: CoreContentLoginResult,
    base_url: Seq<char>,
    client: CoreContentClient,
    cache_dir: PathBuf,
)
    requires
        holds_session(result, token_in(texts(merged(page, browser))), merged(page, browser)),
        is_session_config(client.config, base_url, result.csrf_token@, result.cookies_json@),
        is_new_core_content(client, client.config, cache_dir),
    ensures
        client.csrf_token@ == result.csrf_token@,
        client.config.csrf_token@ == result.csrf_token@,
        page.contains_key("CCM-XSRF-TOKEN"@) ==> result.csrf_token@ == page["CCM-XSRF-TOKEN"@]@,
        !page.contains_key("CCM-XSRF-TOKEN"@) ==> match browser {
            Some(more) => if more.contains_key("CCM-XSRF-TOKEN"@) {
                result.csrf_token@ == more["CCM-XSRF-TOKEN"@]@
            } else {
                result.csrf_token@.len() == 0
            },
            None => result.csrf_token@.len() == 0,
        },
{
    law_token(texts(merged(page, browser)));
}

/// Where a page tells its cookies itself, the token is that of the page, whole, unless it is empty;
/// then it is that of the browser, whole, where the browser told one, and empty otherwise.
pub proof fn law_token_of_page(page: Map<Seq<char>, Seq<char>>, browser: LoginBrowser)
    ensures
        ({
            let token = completed_token(page, browser);
            let told = page.contains_key("CCM-XSRF-TOKEN"@) && page["CCM-XSRF-TOKEN"@].len() > 0;
            &&& told ==> token == page["CCM-XSRF-TOKEN"@]
            &&& !told ==> match browser {
                LoginBrowser::Told(cookies) => if cookies@.contains_key("CCM-XSRF-TOKEN"@) {
                    token == cookies@["CCM-XSRF-TOKEN"@]@
                } else {
                    token.len() == 0
                },
                _ => token.len() == 0,
            }
        }),
{
    law_token(page);
    law_token(completed(page, browser));
}

/// Without cookies of the browser those of the page are all there are.
pub proof fn law_page_alone(page: Map<Seq<char>, String>, told: Map<Seq<char>, Seq<char>>)
    ensures
        merged(page, None) == page,
        completed(told, LoginBrowser::Closed) == told,
        completed(told, LoginBrowser::Silent) == told,
{
}

/// The result of a login holds the token, and its cookies can be read again, each whole; the root
/// folders are still to come.
pub proof fn law_result_holds_session(
    result: CoreContentLoginResult,
    token: Seq<char>,
    cookies: Map<Seq<char>, String>,
)
    requires
        holds_session(result, token, cookies),
    ensures
        result.csrf_token@ == token,
        result.cookies_json@.len() > 0,
        result.root_folders_json@.len() == 0,
        text_object(result.cookies_json@) matches Some(read) && read.dom() == cookies.dom() && (
        forall|name: Seq<char>|
            cookies.contains_key(name) ==> #[trigger] read[name] == cookies[name]@),
{
    assert(texts(cookies).dom() =~= cookies.dom());
}

/// A configuration that is made of a session has the address, the token and the cookies of the
/// session, whole, is enabled, names no folder, user or password and is polled twice a minute.
pub proof fn law_session_config(
    config: CoreContentConfig,
    base_url: Seq<char>,
    csrf_token: Seq<char>,
    cookies_json: Seq<char>,
)
    requires
        is_session_config(config, base_url, csrf_token, cookies_json),
    ensures
        config.enabled,
        config.base_url@ == base_url,
        config.csrf_token@ == csrf_token,
        config.cookies_json@ == cookies_json,
        config.folder_node_id@.len() == 0 && config.folder_name@.len() == 0,
        config.username@.len() == 0 && config.password@.len() == 0,
        config.poll_interval_seconds * 2 == 60,
        session_of(config.cookies_json@, config.base_url@) == session_of(cookies_json, base_url),
{
}

// ---- the window ----

/// The id of a login is a UUID in lower case, of version 4.
pub proof fn law_login_id(text: Seq<char>)
    requires
        is_login_id(text),
    ensures
        text.len() == 36,
        text[8] == '-' && text[13] == '-' && text[18] == '-' && text[23] == '-',
        text[14] == '4',
        text[19] == '8' || text[19] == '9' || text[19] == 'a' || text[19] == 'b',
        forall|i: int|
            0 <= i < 36 ==> (#[trigger] text[i]) == '-' || '0' <= text[i] <= '9' || 'a' <= text[i]
                <= 'f',
{
}

/// The label of the window of a login ends with the id, whole.
pub proof fn law_login_label(login_id: Seq<char>)
    ensures
        login_label(login_id).len() == 19 + login_id.len(),
        login_label(login_id).take(19) == "core-content-login-"@,
        login_label(login_id).skip(19) == login_id,
{
    reveal_strlit("core-content-login-");
    assert(login_label(login_id).take(19) =~= "core-content-login-"@);
    assert(login_label(login_id).skip(19) =~= login_id);
}

/// The address and then the id take the places that are marked for them in the script, and all else
/// stays.
pub proof fn law_login_script(
    before_url: Seq<char>,
    behind_url: Seq<char>,
    before_id: Seq<char>,
    behind_id: Seq<char>,
    base_url: Seq<char>,
    login_id: Seq<char>,
)
    requires
        forall|j: int|
            0 <= j < before_url.len() ==> !#[trigger] occurs_at(
                before_url + "__CC_BASE_URL__"@ + behind_url,
                "__CC_BASE_URL__"@,
                j,
            ),
        forall|j: int|
            0 <= j < before_id.len() ==> !#[trigger] occurs_at(
                before_id + "__CC_LOGIN_ID__"@ + behind_id,
                "__CC_LOGIN_ID__"@,
                j,
            ),
        before_url + base_url + replaced(behind_url, "__CC_BASE_URL__"@, base_url) == before_id
            + "__CC_LOGIN_ID__"@ + behind_id,
    ensures
        login_script(before_url + "__CC_BASE_URL__"@ + behind_url, base_url, login_id) == before_id
            + login_id + replaced(behind_id, "__CC_LOGIN_ID__"@, login_id),
{
    reveal_strlit("__CC_BASE_URL__");
    reveal_strlit("__CC_LOGIN_ID__");
    law_leftmost_replaced(before_url, behind_url, "__CC_BASE_URL__"@, base_url);
    law_leftmost_replaced(before_id, behind_id, "__CC_LOGIN_ID__"@, login_id);
}

/// Where the script marks no place for the address, or none for the id, only the other is filled in.
pub proof fn law_unmarked_script(
    template: Seq<char>,
    base_url: Seq<char>,
    login_id: Seq<char>,
)
    ensures
        absent(template, "__CC_BASE_URL__"@) ==> login_script(template, base_url, login_id)
            == replaced(template, "__CC_LOGIN_ID__"@, login_id),
        absent(replaced(template, "__CC_BASE_URL__"@, base_url), "__CC_LOGIN_ID__"@)
            ==> login_script(template, base_url, login_id) == replaced(
            template,
            "__CC_BASE_URL__"@,
            base_url,
        ),
        absent(template, "__CC_BASE_URL__"@) && absent(template, "__CC_LOGIN_ID__"@)
            ==> login_script(template, base_url, login_id) == template,
{
    let addressed = replaced(template, "__CC_BASE_URL__"@, base_url);
    if absent(template, "__CC_BASE_URL__"@) {
        law_nothing_to_replace(template, "__CC_BASE_URL__"@, base_url);
    }
    if absent(addressed, "__CC_LOGIN_ID__"@) {
        law_nothing_to_replace(addressed, "__CC_LOGIN_ID__"@, login_id);
    }
}

// ---- the signal ----

/// What stands behind the leftmost mark is the data, whole; an address without the mark has none.
pub proof fn law_signal(head: Seq<char>, data: Seq<char>, url: Seq<char>)
    ensures
        (forall|j: int|
            0 <= j < head.len() ==> !#[trigger] occurs_at(
                head + "__cc_data__"@ + data,
                "__cc_data__"@,
                j,
            )) ==> signal(head + "__cc_data__"@ + data) == Some(data),
        signal(url) is None <==> forall|j: int| !#[trigger] occurs_at(url, "__cc_data__"@, j),
{
    let mark = "__cc_data__"@;
    let whole = head + mark + data;
    let n = head.len() as int;
    law_occurrence(head, mark, data);
    if forall|j: int| 0 <= j < head.len() ==> !#[trigger] occurs_at(whole, mark, j) {
        assert(first_at(whole, mark, n));
        first_at_unique(whole, mark, n, first_position(whole, mark));
        assert(whole.skip(n + mark.len()) =~= data);
    }
}

/// A login whose window is gone is over, and so is one whose data is no object of texts. Data that
/// is one gives its cookies, and without data the login waits.
pub proof fn law_polled(url: Seq<char>, cookies: Map<Seq<char>, Seq<char>>)
    ensures
        polled(None) is Empty,
        signalled(None) is Empty,
        signalled(Some(cookies)) == Poll::Cookies(cookies),
        signal(url) is None ==> polled(Some(url)) is Wait,
        signal(url) matches Some(data) ==> {
            let read = text_object(lossy_text(percent_decoded(encode_utf8(data))));
            &&& read is None ==> polled(Some(url)) is Empty
            &&& read matches Some(told) ==> polled(Some(url)) == Poll::Cookies(told)
        },
{
}

/// What is done next is what was found: waiting, the end with an empty result, or the cookies, each
/// whole.
pub proof fn law_step_shows(step: PollStep, poll: Poll)
    requires
        step_shows(step, poll),
    ensures
        step is Wait <==> poll is Wait,
        step matches PollStep::Finished(result) ==> poll is Empty && result.csrf_token@.len() == 0
            && result.cookies_json@.len() == 0 && result.root_folders_json@.len() == 0,
        step matches PollStep::Cookies(cookies) ==> {
            &&& poll matches Poll::Cookies(told)
            &&& told.dom() == cookies@.dom()
            &&& forall|name: Seq<char>|
                told.contains_key(name) ==> #[trigger] told[name] == cookies@[name]@
        },
{
    if let PollStep::Cookies(cookies) = step {
        assert(texts(cookies@).dom() =~= cookies@.dom());
    }
}

/// A result is empty exactly where all its texts are.
pub proof fn law_empty_result(result: CoreContentLoginResult)
    ensures
        is_empty_result(result) <==> result.csrf_token@.len() == 0 && result.cookies_json@.len() == 0
            && result.root_folders_json@.len() == 0,
{
}

/// A page asks for a code wherever one of the three phrases stands in it, and only then.
pub proof fn law_code_page(before: Seq<char>, behind: Seq<char>, page: Seq<char>)
    ensures
        is_code_page(before + "verification code"@ + behind),
        is_code_page(before + "mfa"@ + behind),
        is_code_page(before + "authenticator"@ + behind),
        (forall|i: int| !#[trigger] occurs_at(page, "verification code"@, i)) && (forall|i: int|
            !#[trigger] occurs_at(page, "mfa"@, i)) && (forall|i: int|
            !#[trigger] occurs_at(page, "authenticator"@, i)) ==> !is_code_page(page),
{
    law_occurrence(before, "verification code"@, behind);
    law_occurrence(before, "mfa"@, behind);
    law_occurrence(before, "authenticator"@, behind);
}

// ---- folders ----

/// Each folder is a row of its id and its name, both whole, in order.
pub proof fn law_folder_rows(folders: Seq<CoreContentNode>, i: int)
    requires
        0 <= i < folders.len(),
    ensures
        folder_rows(folders).len() == folders.len(),
        folder_rows(folders)[i].len() == 2,
        folder_rows(folders)[i][0] == ("id"@, folders[i].id@),
        folder_rows(folders)[i][1] == ("name"@, folders[i].name@),
{
}

/// A row is what its fields are, and rows are what each row is.
pub proof fn law_rows_seen(row: Seq<(String, String)>, rows: Seq<Vec<(String, String)>>)
    ensures
        row_view(row).len() == row.len(),
        forall|i: int|
            0 <= i < row.len() ==> (#[trigger] row_view(row)[i]).0 == row[i].0@ && row_view(row)[i].1
                == row[i].1@,
        rows_view(rows).len() == rows.len(),
        forall|i: int| 0 <= i < rows.len() ==> #[trigger] rows_view(rows)[i] == row_view(rows[i]@),
{
}

/// The folders of a login are their rows, and an error on the way to them is its message in an
/// object, in which each quote stands behind a backslash and all else is as it was.
pub proof fn law_folders_told(nodes: Vec<CoreContentNode>, error: CoreContentError)
    ensures
        folders_json(Ok(nodes)) == rows_text(folder_rows(nodes@)),
        folders_json(Err(error)) == error_json(core_content_message(error@)),
{
}

/// The object of an error holds the message between its quotes. A message without quotes is in it as
/// it is; a quote stands behind a backslash.
pub proof fn law_error_told(message: Seq<char>, head: Seq<char>, tail: Seq<char>)
    ensures
        ({
            let n = error_json(message).len() as int;
            &&& n >= 12
            &&& error_json(message).take(10) == "{\"error\":\""@
            &&& error_json(message).skip(n - 2) == "\"}"@
            &&& error_json(message).subrange(10, n - 2) == replaced(message, "\""@, "\\\""@)
            &&& !message.contains('"') ==> error_json(message).subrange(10, n - 2) == message
        }),
        !head.contains('"') ==> replaced(head + "\""@ + tail, "\""@, "\\\""@) == head + "\\\""@
            + replaced(tail, "\""@, "\\\""@),
{
    reveal_strlit("{\"error\":\"");
    reveal_strlit("\"}");
    reveal_strlit("\"");
    let quote = "\""@;
    let middle = replaced(message, quote, "\\\""@);
    let json = error_json(message);
    let n = json.len() as int;
    assert(json.take(10) =~= "{\"error\":\""@);
    assert(json.skip(n - 2) =~= "\"}"@);
    assert(json.subrange(10, n - 2) =~= middle);
    if !message.contains('"') {
        assert forall|j: int| !occurs_at(message, quote, j) by {
            if occurs_at(message, quote, j) {
                assert(message.subrange(j, j + 1)[0] == message[j]);
                assert(message.contains(message[j]));
            }
        }
        law_nothing_to_replace(message, quote, "\\\""@);
    }
    if !head.contains('"') {
        let whole = head + quote + tail;
        assert forall|j: int| 0 <= j < head.len() implies !#[trigger] occurs_at(
            whole,
            quote,
            j,
        ) by {
            if occurs_at(whole, quote, j) {
                assert(whole.subrange(j, j + 1)[0] == head[j]);
                assert(head.contains(head[j]));
            }
        }
        law_leftmost_replaced(head, tail, quote, "\\\""@);
    }
}

/// Folders to choose from are the folders, in order, each with its id and its name.
pub proof fn law_choices_show(choices: Seq<FolderChoice>, folders: Seq<CoreContentNode>)
    requires
        choices_show(choices, folders),
    ensures
        choices.len() == folders.len(),
        forall|i: int| 0 <= i < folders.len() ==> (#[trigger] choices[i]).id@ == folders[i].id@,
        forall|i: int| 0 <= i < folders.len() ==> (#[trigger] choices[i]).name@ == folders[i].name@,
{
}

// ---- the cookies of a page ----

/// A part of a text of cookies is the name before its first equals sign and the value behind it,
/// without the white space around them and otherwise whole.
pub proof fn law_cookie_pair(
    pads: (Seq<char>, Seq<char>, Seq<char>, Seq<char>),
    name: Seq<char>,
    value: Seq<char>,
)
    requires
        forall|i: int| 0 <= i < pads.0.len() ==> is_white_space(#[trigger] pads.0[i]),
        forall|i: int| 0 <= i < pads.1.len() ==> is_white_space(#[trigger] pads.1[i]),
        forall|i: int| 0 <= i < pads.2.len() ==> is_white_space(#[trigger] pads.2[i]),
        forall|i: int| 0 <= i < pads.3.len() ==> is_white_space(#[trigger] pads.3[i]),
        name.len() > 0 ==> !is_white_space(name[0]) && !is_white_space(name.last()),
        value.len() > 0 ==> !is_white_space(value[0]) && !is_white_space(value.last()),
        !name.contains('='),
    ensures
        cookie_pair(
            (pads.0 + name + pads.1) + seq!['='] + (pads.2 + value + pads.3),
        ) == Some((name, value)),
{
    let none = Seq::<char>::empty();
    let (p0, p1, p2, p3) = pads;
    let part = (p0 + name + p1) + seq!['='] + (p2 + value + p3);
    let left_pad = if name.len() > 0 {
        p0
    } else {
        p0 + p1
    };
    let left = if name.len() > 0 {
        name + p1
    } else {
        none
    };
    let right_pad = if value.len() > 0 {
        p3
    } else {
        p2 + p3
    };
    let right = if value.len() > 0 {
        p2 + value
    } else {
        none
    };
    let bare = left + seq!['='] + right;
    assert(part =~= left_pad + bare + right_pad) by {
        if name.len() == 0 {
            assert(name =~= none);
        }
        if value.len() == 0 {
            assert(value =~= none);
        }
    }
    assert(!is_white_space('='));
    law_trimmed(left_pad, bare, right_pad);
    assert(trimmed(part) == bare);
    assert forall|j: int| 0 <= j < left.len() implies bare[j] != '=' by {
        assert(bare[j] == left[j]);
        if j < name.len() {
            assert(name.contains(name[j]));
            assert(left[j] == name[j]);
        } else {
            assert(left[j] == p1[j - name.len()]);
            assert(is_white_space(p1[j - name.len()]));
        }
    }
    until_is(bare, '=', left.len() as int);
    assert(bare.take(left.len() as int) =~= left);
    assert(bare.skip(left.len() as int + 1) =~= right);
    assert(trimmed(left) == name) by {
        if name.len() > 0 {
            law_trimmed(none, name, p1);
            assert(none + name + p1 =~= left);
        } else {
            law_trimmed(none, none, none);
            assert(none + none + none =~= left);
            assert(name =~= none);
        }
    }
    assert(trimmed(right) == value) by {
        if value.len() > 0 {
            law_trimmed(p2, value, none);
            assert(p2 + value + none =~= right);
        } else {
            law_trimmed(none, none, none);
            assert(none + none + none =~= right);
            assert(value =~= none);
        }
    }
}

/// The cookies of two texts with a semicolon between them are those of the one and then those of the
/// other; a text without semicolons is one part.
pub proof fn law_document_cookies(left: Seq<char>, right: Seq<char>)
    ensures
        document_cookies(left + seq![';'] + right) == document_cookies(left) + document_cookies(
            right,
        ),
        !left.contains(';') ==> document_cookies(left) == match cookie_pair(left) {
            Some(pair) => seq![pair],
            None => seq![],
        },
{
    law_split(left, right, ';');
    cookie_pairs_of_both(split(left, ';'), split(right, ';'));
    if !left.contains(';') {
        reveal_with_fuel(cookie_pairs, 2);
        assert(seq![left].skip(1) =~= seq![]);
        assert(cookie_pairs(seq![left]) =~= match cookie_pair(left) {
            Some(pair) => seq![pair],
            None => seq![],
        });
    }
}

proof fn cookie_pairs_of_both(left: Seq<Seq<char>>, right: Seq<Seq<char>>)
    ensures
        cookie_pairs(left + right) == cookie_pairs(left) + cookie_pairs(right),
    decreases left.len(),
{
    if left.len() == 0 {
        assert(left + right =~= right);
        assert(cookie_pairs(left) + cookie_pairs(right) =~= cookie_pairs(right));
    } else {
        assert((left + right).skip(1) =~= left.skip(1) + right);
        cookie_pairs_of_both(left.skip(1), right);
        assert(cookie_pairs(left + right) =~= cookie_pairs(left) + cookie_pairs(right));
    }
}

/// A part without an equals sign is no cookie.
pub proof fn law_no_cookie(part: Seq<char>)
    requires
        !part.contains('='),
        part.len() > 0 ==> !is_white_space(part[0]) && !is_white_space(part.last()),
    ensures
        cookie_pair(part) is None,
{
    let none = Seq::<char>::empty();
    law_trimmed(none, part, none);
    assert(none + part + none =~= part);
    until_properties(part, '=');
    if until(part, '=') < part.len() {
        assert(part.contains(part[until(part, '=')]));
    }
}

/// The cookies of a browser of two lists are those of the one and then those of the other; a cookie
/// of which the name or the value could not be read is left out, any other is its name and its
/// value, whole.
pub proof fn law_readable(
    left: Seq<BrowserCookie>,
    right: Seq<BrowserCookie>,
    cookie: BrowserCookie,
)
    ensures
        readable(left + right) == readable(left) + readable(right),
        cookie.name is None || cookie.value is None ==> readable(seq![cookie]).len() == 0,
        cookie.name matches Some(name) ==> (cookie.value matches Some(value) ==> readable(
            seq![cookie],
        ) == seq![(name@, value@)]),
    decreases right.len(),
{
    reveal_with_fuel(readable, 2);
    assert(seq![cookie].drop_last() =~= seq![]);
    if right.len() == 0 {
        assert(left + right =~= left);
        assert(readable(left) + readable(right) =~= readable(left));
    } else {
        assert((left + right).drop_last() =~= left + right.drop_last());
        law_readable(left, right.drop_last(), cookie);
        assert(readable(left + right) =~= readable(left) + readable(right));
    }
}

/// Of a list of names and values each name is there, with the value of its last pair, whole.
pub proof fn law_last_pair_counts(pairs: Seq<(Seq<char>, Seq<char>)>, i: int)
    requires
        0 <= i < pairs.len(),
        forall|j: int| i < j < pairs.len() ==> (#[trigger] pairs[j]).0 != pairs[i].0,
    ensures
        pair_map(pairs).contains_key(pairs[i].0),
        pair_map(pairs)[pairs[i].0] == pairs[i].1,
    decreases pairs.len(),
{
    if i < pairs.len() - 1 {
        let front = pairs.drop_last();
        assert forall|j: int| i < j < front.len() implies (#[trigger] front[j]).0 != front[i].0 by {
            assert(front[j] == pairs[j]);
        }
        law_last_pair_counts(front, i);
        assert(pairs[pairs.len() - 1].0 != pairs[i].0);
    }
}

/// A list of names and values gives no name that none of them has.
pub proof fn law_no_other_pairs(pairs: Seq<(Seq<char>, Seq<char>)>, name: Seq<char>)
    requires
        pair_map(pairs).contains_key(name),
    ensures
        exists|i: int| 0 <= i < pairs.len() && (#[trigger] pairs[i]).0 == name,
    decreases pairs.len(),
{
    if pairs.last().0 == name {
        assert(pairs[pairs.len() - 1].0 == name);
    } else {
        law_no_other_pairs(pairs.drop_last(), name);
        let i = choose|i: int|
            0 <= i < pairs.drop_last().len() && (#[trigger] pairs.drop_last()[i]).0 == name;
        assert(pairs[i].0 == name);
    }
}

/// The page whose cookies are wanted is the configured one, whole, or else that of the window.
pub proof fn law_cookie_page(base_url: Seq<char>, window_url: Seq<char>)
    ensures
        base_url.len() > 0 ==> cookie_page(base_url, Some(window_url)) == base_url && cookie_page(
            base_url,
            None,
        ) == base_url,
        base_url.len() == 0 ==> cookie_page(base_url, Some(window_url)) == window_url
            && cookie_page(base_url, None).len() == 0,
{
    reveal_strlit("");
}

} // verus!
