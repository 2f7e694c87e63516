//! Logging in to Core Content through a browser window.
//!
//! A script in the window puts the cookies of the page behind a mark in the address of the window,
//! where they are read.

use std::path::PathBuf;

use vstd::prelude::*;
use vstd::string::*;
use vstd::utf8::*;

use crate::core_content_client::{
    address_complaint, check_address, core_content_message, is_address, origin, session_of,
    session_view, CoreContentClient, CoreContentConfig, CoreContentError, CoreContentNode, Session,
};
use crate::encoding::{
    decodable, law_percent_round_trip, lossy_text, percent_decode_url, percent_decoded, url_encoded,
};
use crate::json::{
    read_object, row_view, rows_text, rows_to_text, rows_view, text_object, write_object,
};
use crate::text::{
    absent, chars_of, find, find_char, first_at, first_at_unique, first_position, joined, occurs_at,
    replace_all, replaced, split, string_from, trim_bounds, trimmed, until, until_is,
    until_properties,
};
use crate::text_map::{
    distinct_entries, distinct_keys, has_key, key_index, last_entries, texts, TextMap,
};

verus! {

broadcast use vstd::string::group_string_axioms;

// ---- windows ----

/// A window for a login.
#[derive(Debug)]
pub struct LoginWindow {
    pub login_id: String,
    pub label: String,
    pub script: String,
}

/// Whether `c` is a lower-case hexadecimal digit.
pub open spec fn is_hex_lower(c: char) -> bool {
    '0' <= c <= '9' || 'a' <= c <= 'f'
}

/// Whether `text` is a random UUID: five groups of lower-case hexadecimal digits between hyphens, the
/// third with a 4 in front and the fourth with 8, 9, a or b.
pub open spec fn is_login_id(text: Seq<char>) -> bool {
    &&& text.len() == 36
    &&& forall|i: int|
        0 <= i < 36 ==> if i == 8 || i == 13 || i == 18 || i == 23 {
            #[trigger] text[i] == '-'
        } else {
            is_hex_lower(text[i])
        }
    &&& text[14] == '4'
    &&& text[19] == '8' || text[19] == '9' || text[19] == 'a' || text[19] == 'b'
}

/// `uuid::Uuid::new_v4` and its `Display` text: a random UUID in lower case.
#[verifier::external_body]
fn random_id() -> (id: String)
    ensures
        is_login_id(id@),
{
    uuid::Uuid::new_v4().to_string()
}

/// The label of the window of a login.
pub open spec fn login_label(login_id: Seq<char>) -> Seq<char> {
    "core-content-login-"@ + login_id
}

/// The script of the window of a login: `template` with the address and the id filled in.
pub open spec fn login_script(
    template: Seq<char>,
    base_url: Seq<char>,
    login_id: Seq<char>,
) -> Seq<char> {
    replaced(
        replaced(template, "__CC_BASE_URL__"@, base_url),
        "__CC_LOGIN_ID__"@,
        login_id,
    )
}

/// The label of the window of a login.
pub fn window_label(login_id: &str) -> (label: String)
    ensures
        label@ == login_label(login_id@),
{
    joined("core-content-login-", login_id)
}

/// The window of the login `login_id`.
pub fn login_window(login_id: String, template: &str, base_url: &str) -> (window: LoginWindow)
    ensures
        window.login_id == login_id,
        window.label@ == login_label(login_id@),
        window.script@ == login_script(template@, base_url@, login_id@),
{
    proof {
        reveal_strlit("__CC_BASE_URL__");
        reveal_strlit("__CC_LOGIN_ID__");
    }
    let label: String = window_label(login_id.as_str());
    let addressed: String = replace_all(template, "__CC_BASE_URL__", base_url);
    let script: String = replace_all(addressed.as_str(), "__CC_LOGIN_ID__", login_id.as_str());
    LoginWindow { login_id, label, script }
}

/// The window of the login `login_id`, unless there is a complaint about the address.
pub fn open_login(
    login_id: String,
    complaint: Option<String>,
    template: &str,
    base_url: &str,
) -> (window: Result<LoginWindow, String>)
    ensures
        match complaint {
            Some(c) => window matches Err(m) && m@ == "invalid base_url: "@ + c@,
            None => window matches Ok(w) && w.login_id == login_id && w.label@ == login_label(
                login_id@,
            ) && w.script@ == login_script(template@, base_url@, login_id@),
        },
{
    match complaint {
        Some(c) => Err(joined("invalid base_url: ", c.as_str())),
        None => Ok(login_window(login_id, template, base_url)),
    }
}

/// The window of a new login, where `base_url` is an address.
pub fn start_login(template: &str, base_url: &str) -> (window: Result<LoginWindow, String>)
    ensures
        match address_complaint(base_url@) {
            Some(c) => window matches Err(m) && m@ == "invalid base_url: "@ + c,
            None => window matches Ok(w) && is_login_id(w.login_id@) && w.label@ == login_label(
                w.login_id@,
            ) && w.script@ == login_script(template@, base_url@, w.login_id@),
        },
{
    let complaint: Option<String> = match check_address(base_url) {
        Ok(_) => None,
        Err(complaint) => Some(complaint),
    };
    open_login(random_id(), complaint, template, base_url)
}

// ---- results ----

/// What a login gives.
#[derive(Debug, Clone)]
pub struct CoreContentLoginResult {
    pub csrf_token: String,
    pub cookies_json: String,
    pub root_folders_json: String,
}

/// A login without a result.
pub open spec fn is_empty_result(result: CoreContentLoginResult) -> bool {
    &&& result.csrf_token@.len() == 0
    &&& result.cookies_json@.len() == 0
    &&& result.root_folders_json@.len() == 0
}

fn empty_result() -> (result: CoreContentLoginResult)
    ensures
        is_empty_result(result),
{
    CoreContentLoginResult {
        csrf_token: String::new(),
        cookies_json: String::new(),
        root_folders_json: String::new(),
    }
}

// ---- polling ----

/// How long to wait before each look at the window, in seconds.
pub const POLL_SECONDS: u64 = 1;

/// What stands behind the mark in the address of the window; none where there is no mark.
pub open spec fn signal(url: Seq<char>) -> Option<Seq<char>> {
    if absent(url, "__cc_data__"@) {
        None
    } else {
        Some(url.skip(first_position(url, "__cc_data__"@) + "__cc_data__"@.len()))
    }
}

/// What stands behind the mark in the address of the window.
pub fn signal_data(url: &str) -> (data: Option<String>)
    ensures
        match data {
            Some(text) => signal(url@) == Some(text@),
            None => signal(url@) is None,
        },
{
    let text: Vec<char> = chars_of(url);
    let mark: Vec<char> = chars_of("__cc_data__");
    match find(&text, &mark) {
        Some(i) => {
            proof {
                first_at_unique(text@, mark@, i as int, first_position(text@, mark@));
            }
            let total: usize = text.len();
            let size: usize = mark.len();
            assert(i + size <= total);
            assert(text@.subrange(i + size, total as int) =~= text@.skip(i + size));
            Some(string_from(&text, i + size, total))
        },
        None => None,
    }
}

/// What a look at the window shows.
#[derive(Debug)]
pub enum PollStep {
    /// Look again later.
    Wait,
    /// The login is over.
    Finished(CoreContentLoginResult),
    /// The page has these cookies.
    Cookies(TextMap<String>),
}

/// Where a login stands.
pub enum Poll {
    Wait,
    Empty,
    Cookies(Map<Seq<char>, Seq<char>>),
}

/// Whether `step` says where the login stands.
pub open spec fn step_shows(step: PollStep, poll: Poll) -> bool {
    match step {
        PollStep::Wait => poll is Wait,
        PollStep::Finished(result) => poll is Empty && is_empty_result(result),
        PollStep::Cookies(cookies) => poll == Poll::Cookies(texts(cookies@)),
    }
}

/// The cookies that came with the signal, where they could be read.
pub open spec fn signalled(cookies: Option<Map<Seq<char>, Seq<char>>>) -> Poll {
    match cookies {
        Some(map) => Poll::Cookies(map),
        None => Poll::Empty,
    }
}

/// Where a login stands when its window shows `url`; a closed window shows none.
pub open spec fn polled(url: Option<Seq<char>>) -> Poll {
    match url {
        None => Poll::Empty,
        Some(u) => match signal(u) {
            None => Poll::Wait,
            Some(data) => signalled(text_object(lossy_text(percent_decoded(encode_utf8(data))))),
        },
    }
}

/// What to do with the cookies that came with the signal.
pub fn on_signal(cookies: Option<TextMap<String>>) -> (step: PollStep)
    ensures
        step_shows(
            step,
            signalled(
                match cookies {
                    Some(c) => Some(texts(c@)),
                    None => None,
                },
            ),
        ),
{
    match cookies {
        Some(cookies) => PollStep::Cookies(cookies),
        None => PollStep::Finished(empty_result()),
    }
}

/// What to do when the window shows `url`; a closed window shows none.
pub fn on_poll(url: Option<&str>) -> (step: PollStep)
    requires
        url matches Some(u) ==> (signal(u@) matches Some(data) ==> decodable(encode_utf8(data))),
    ensures
        step_shows(
            step,
            polled(
                match url {
                    Some(u) => Some(u@),
                    None => None,
                },
            ),
        ),
{
    match url {
        None => PollStep::Finished(empty_result()),
        Some(u) => match signal_data(u) {
            None => PollStep::Wait,
            Some(data) => {
                let decoded: String = percent_decode_url(data.as_str());
                on_signal(read_object(decoded.as_str()))
            },
        },
    }
}

/// Whether a page asks for a further code: it speaks of a verification code, `mfa` or an
/// authenticator.
pub open spec fn is_code_page(page: Seq<char>) -> bool {
    ||| !absent(page, "verification code"@)
    ||| !absent(page, "mfa"@)
    ||| !absent(page, "authenticator"@)
}

/// Whether a page asks for a further code.
pub fn asks_for_code(page: &str) -> (yes: bool)
    ensures
        yes == is_code_page(page@),
{
    let text: Vec<char> = chars_of(page);
    holds(&text, "verification code") || holds(&text, "mfa") || holds(&text, "authenticator")
}

fn holds(text: &Vec<char>, phrase: &str) -> (yes: bool)
    ensures
        yes == !absent(text@, phrase@),
{
    find(text, &chars_of(phrase)).is_some()
}

// ---- merging ----

/// The cookies of the page with those that only the browser has.
pub open spec fn merged(
    page: Map<Seq<char>, String>,
    browser: Option<Map<Seq<char>, String>>,
) -> Map<Seq<char>, String> {
    match browser {
        Some(b) => b.union_prefer_right(page),
        None => page,
    }
}

/// The cookies of the page with those that only the browser has, where it tells them.
pub fn merge_cookies(page: TextMap<String>, browser: Option<TextMap<String>>) -> (all: TextMap<
    String,
>)
    ensures
        all@ == merged(
            page@,
            match browser {
                Some(b) => Some(b@),
                None => None,
            },
        ),
{
    let mut all: TextMap<String> = page;
    let ghost first = page@;
    match browser {
        Some(browser) => {
            let ghost given = browser@;
            let mut rest: Vec<(String, String)> = browser.into_entries();
            let ghost whole = rest@;
            proof {
                distinct_entries(whole);
                assert(last_entries(whole.take(0)).union_prefer_right(first) =~= first);
            }
            while rest.len() > 0
                invariant
                    rest@.len() <= whole.len(),
                    rest@ == whole.skip(whole.len() - rest@.len()),
                    distinct_keys(whole),
                    all@ == last_entries(
                        whole.take(whole.len() - rest@.len()),
                    ).union_prefer_right(first),
                decreases rest.len(),
            {
                let ghost done = whole.len() - rest@.len();
                let (name, value) = rest.remove(0);
                proof {
                    let before = whole.take(done);
                    assert(whole.take(done + 1).drop_last() =~= before);
                    assert(whole.take(done + 1).last() == (name, value));
                    assert(distinct_keys(before)) by {
                        assert forall|i: int, j: int| 0 <= i < j < before.len() implies (
                        #[trigger] before[i]).0@ != (#[trigger] before[j]).0@ by {
                            assert(whole[i].0@ != whole[j].0@);
                        }
                    }
                    distinct_entries(before);
                    if has_key(before, name@) {
                        let k = key_index(before, name@);
                        assert(before[k].0@ == name@);
                        assert(whole[k].0@ != whole[done].0@);
                    }
                    let known = last_entries(before);
                    assert(!known.contains_key(name@));
                    if first.contains_key(name@) {
                        assert(known.insert(name@, value).union_prefer_right(first)
                            =~= known.union_prefer_right(first));
                    } else {
                        assert(known.insert(name@, value).union_prefer_right(first)
                            =~= known.union_prefer_right(first).insert(name@, value));
                    }
                }
                all.insert_absent(name, value);
            }
            assert(whole.take(whole.len() as int) =~= whole);
        },
        None => {},
    }
    all
}

/// The token against request forgery among `cookies`, or nothing.
pub open spec fn token_in(cookies: Map<Seq<char>, Seq<char>>) -> Seq<char> {
    if cookies.contains_key("CCM-XSRF-TOKEN"@) {
        cookies["CCM-XSRF-TOKEN"@]
    } else {
        ""@
    }
}

fn find_token(cookies: &TextMap<String>) -> (token: String)
    ensures
        token@ == token_in(texts(cookies@)),
        cookies@.contains_key("CCM-XSRF-TOKEN"@) ==> token@ == cookies@["CCM-XSRF-TOKEN"@]@,
        !cookies@.contains_key("CCM-XSRF-TOKEN"@) ==> token@.len() == 0,
{
    proof {
        reveal_strlit("");
    }
    match cookies.get("CCM-XSRF-TOKEN") {
        Some(token) => token.clone(),
        None => "".to_owned(),
    }
}

/// Whether `result` holds `token` and `cookies`, and no folders yet.
pub open spec fn holds_session(
    result: CoreContentLoginResult,
    token: Seq<char>,
    cookies: Map<Seq<char>, String>,
) -> bool {
    &&& result.csrf_token@ == token
    &&& result.cookies_json@.len() > 0
    &&& text_object(result.cookies_json@) == Some(texts(cookies))
    &&& result.root_folders_json@.len() == 0
}

fn session_result(csrf_token: String, cookies: &TextMap<String>) -> (result: CoreContentLoginResult)
    ensures
        holds_session(result, csrf_token@, cookies@),
{
    CoreContentLoginResult {
        csrf_token,
        cookies_json: write_object(cookies),
        root_folders_json: String::new(),
    }
}

/// Whether `config` is that of a session without a folder.
pub open spec fn is_session_config(
    config: CoreContentConfig,
    base_url: Seq<char>,
    csrf_token: Seq<char>,
    cookies_json: Seq<char>,
) -> bool {
    &&& config.enabled
    &&& config.base_url@ == base_url
    &&& config.folder_node_id@.len() == 0
    &&& config.folder_name@.len() == 0
    &&& config.username@.len() == 0
    &&& config.password@.len() == 0
    &&& config.csrf_token@ == csrf_token
    &&& config.cookies_json@ == cookies_json
    &&& config.poll_interval_seconds == 30
}

/// The configuration of a session without a folder.
pub fn session_config(base_url: &str, csrf_token: &str, cookies_json: &str) -> (config:
    CoreContentConfig)
    ensures
        is_session_config(config, base_url@, csrf_token@, cookies_json@),
{
    CoreContentConfig {
        enabled: true,
        base_url: base_url.to_owned(),
        folder_node_id: String::new(),
        folder_name: String::new(),
        username: String::new(),
        password: String::new(),
        csrf_token: csrf_token.to_owned(),
        cookies_json: cookies_json.to_owned(),
        poll_interval_seconds: 30,
    }
}

/// What to do when the cookies are known.
pub enum LoginStep {
    Finished(CoreContentLoginResult),
    /// List the root folders with this client, to complete the result.
    ListFolders(CoreContentClient, CoreContentLoginResult),
}

/// Merges the cookies of the page and the browser. Where they hold a token, the root folders are to
/// be listed with it.
pub fn on_cookies(
    page: TextMap<String>,
    browser: Option<TextMap<String>>,
    base_url: &str,
    cache_dir: PathBuf,
) -> (step: LoginStep)
    ensures
        ({
            let all = merged(
                page@,
                match browser {
                    Some(b) => Some(b@),
                    None => None,
                },
            );
            match step {
                LoginStep::Finished(result) => {
                    &&& token_in(texts(all)).len() == 0
                    &&& holds_session(result, token_in(texts(all)), all)
                    &&& result.csrf_token@.len() == 0
                    &&& all.contains_key("CCM-XSRF-TOKEN"@) ==> all["CCM-XSRF-TOKEN"@]@.len() == 0
                },
                LoginStep::ListFolders(client, result) => {
                    &&& token_in(texts(all)).len() > 0
                    &&& holds_session(result, token_in(texts(all)), all)
                    &&& all.contains_key("CCM-XSRF-TOKEN"@)
                    &&& result.csrf_token@ == all["CCM-XSRF-TOKEN"@]@
                    &&& is_session_config(
                        client.config,
                        base_url@,
                        result.csrf_token@,
                        result.cookies_json@,
                    )
                    &&& client.csrf_token@ == result.csrf_token@
                    &&& session_view(client.session) == session_of(
                        result.cookies_json@,
                        base_url@,
                    )
                    &&& client.cache_dir == cache_dir
                },
            }
        }),
{
    let all: TextMap<String> = merge_cookies(page, browser);
    let token: String = find_token(&all);
    let result: CoreContentLoginResult = session_result(token, &all);
    if result.csrf_token.as_str().is_empty() {
        LoginStep::Finished(result)
    } else {
        let config: CoreContentConfig = session_config(
            base_url,
            result.csrf_token.as_str(),
            result.cookies_json.as_str(),
        );
        LoginStep::ListFolders(CoreContentClient::new(config, cache_dir), result)
    }
}

// ---- folders ----

/// A folder to choose from.
#[derive(Debug)]
pub struct FolderChoice {
    pub id: String,
    pub name: String,
}

/// `folders` as rows of an id and a name.
pub open spec fn folder_rows(folders: Seq<CoreContentNode>) -> Seq<Seq<(Seq<char>, Seq<char>)>> {
    folders.map_values(|f: CoreContentNode| seq![("id"@, f.id@), ("name"@, f.name@)])
}

fn rows_of(folders: &Vec<CoreContentNode>) -> (rows: Vec<Vec<(String, String)>>)
    ensures
        rows_view(rows@) == folder_rows(folders@),
{
    let mut rows: Vec<Vec<(String, String)>> = Vec::new();
    let mut i: usize = 0;
    while i < folders.len()
        invariant
            i <= folders.len(),
            rows_view(rows@) == folder_rows(folders@.take(i as int)),
        decreases folders.len() - i,
    {
        let mut row: Vec<(String, String)> = Vec::new();
        row.push(("id".to_owned(), folders[i].id.clone()));
        row.push(("name".to_owned(), folders[i].name.clone()));
        let ghost before = rows_view(rows@);
        let ghost shown = row_view(row@);
        let ghost folder = folders@[i as int];
        assert(shown =~= seq![("id"@, folder.id@), ("name"@, folder.name@)]);
        rows.push(row);
        i = i + 1;
        assert(rows_view(rows@) =~= before.push(shown));
        assert(folder_rows(folders@.take(i as int)) =~= folder_rows(folders@.take(i - 1)).push(
            shown,
        ));
    }
    assert(folders@.take(i as int) =~= folders@);
    rows
}

/// An error message in the form of a JSON object, in which only the quotes of the message are
/// escaped.
pub open spec fn error_json(message: Seq<char>) -> Seq<char> {
    "{\"error\":\""@ + replaced(message, "\""@, "\\\""@) + "\"}"@
}

/// The root folders as JSON, or the error on the way to them.
pub open spec fn folders_json(folders: Result<Vec<CoreContentNode>, CoreContentError>) -> Seq<
    char,
> {
    match folders {
        Ok(nodes) => rows_text(folder_rows(nodes@)),
        Err(error) => error_json(core_content_message(error@)),
    }
}

/// Completes the result of a login with the root folders, or with the error on the way to them.
pub fn on_folders(
    result: CoreContentLoginResult,
    folders: Result<Vec<CoreContentNode>, CoreContentError>,
) -> (complete: CoreContentLoginResult)
    ensures
        complete.csrf_token == result.csrf_token,
        complete.cookies_json == result.cookies_json,
        complete.root_folders_json@ == folders_json(folders),
{
    let json: String = match folders {
        Ok(nodes) => rows_to_text(&rows_of(&nodes)),
        Err(error) => {
            proof {
                reveal_strlit("\"");
            }
            let message: String = error.message();
            let mut json: String = joined(
                "{\"error\":\"",
                replace_all(message.as_str(), "\"", "\\\"").as_str(),
            );
            json.append("\"}");
            json
        },
    };
    CoreContentLoginResult {
        csrf_token: result.csrf_token,
        cookies_json: result.cookies_json,
        root_folders_json: json,
    }
}

/// Whether `choices` show `folders`, in order.
pub open spec fn choices_show(choices: Seq<FolderChoice>, folders: Seq<CoreContentNode>) -> bool {
    &&& choices.len() == folders.len()
    &&& forall|i: int|
        0 <= i < choices.len() ==> (#[trigger] choices[i]).id == folders[i].id && choices[i].name
            == folders[i].name
}

/// `folders` to choose from.
pub fn folder_choices(folders: Vec<CoreContentNode>) -> (choices: Vec<FolderChoice>)
    ensures
        choices_show(choices@, folders@),
{
    let mut choices: Vec<FolderChoice> = Vec::new();
    let ghost whole = folders@;
    let mut rest: Vec<CoreContentNode> = folders;
    while rest.len() > 0
        invariant
            rest@.len() <= whole.len(),
            rest@ == whole.skip(whole.len() - rest@.len()),
            choices@.len() == whole.len() - rest@.len(),
            forall|i: int|
                0 <= i < choices@.len() ==> (#[trigger] choices@[i]).id == whole[i].id
                    && choices@[i].name == whole[i].name,
        decreases rest.len(),
    {
        let folder: CoreContentNode = rest.remove(0);
        choices.push(FolderChoice { id: folder.id, name: folder.name });
    }
    choices
}

// ---- cookies as a page tells them ----

/// The name and value of a part `name=value`, both without white space around; none where there is
/// no equals sign.
pub open spec fn cookie_pair(part: Seq<char>) -> Option<(Seq<char>, Seq<char>)> {
    let bare = trimmed(part);
    let k = until(bare, '=');
    if k < bare.len() {
        Some((trimmed(bare.take(k)), trimmed(bare.skip(k + 1))))
    } else {
        None
    }
}

/// The names and values among `parts`.
pub open spec fn cookie_pairs(parts: Seq<Seq<char>>) -> Seq<(Seq<char>, Seq<char>)>
    decreases parts.len(),
{
    if parts.len() == 0 {
        seq![]
    } else {
        match cookie_pair(parts[0]) {
            Some(pair) => seq![pair] + cookie_pairs(parts.skip(1)),
            None => cookie_pairs(parts.skip(1)),
        }
    }
}

/// The cookies in a text with semicolons between them.
pub open spec fn document_cookies(text: Seq<char>) -> Seq<(Seq<char>, Seq<char>)> {
    cookie_pairs(split(text, ';'))
}

fn read_pair(text: &Vec<char>, from: usize, to: usize) -> (pair: Option<(String, String)>)
    requires
        from <= to <= text.len(),
    ensures
        match pair {
            Some(p) => cookie_pair(text@.subrange(from as int, to as int)) == Some((p.0@, p.1@)),
            None => cookie_pair(text@.subrange(from as int, to as int)) is None,
        },
{
    let (start, end) = trim_bounds(text, from, to);
    let ghost bare = text@.subrange(start as int, end as int);
    let eq: usize = find_char(text, '=', start);
    proof {
        let rest = text@.skip(start as int);
        until_properties(rest, '=');
        let k = if eq < end {
            eq - start
        } else {
            end - start
        };
        assert forall|j: int| 0 <= j < k implies bare[j] != '=' by {
            assert(bare[j] == rest[j]);
        }
        if k < bare.len() {
            assert(bare[k] == rest[k]);
        }
        until_is(bare, '=', k);
    }
    if eq >= end {
        return None;
    }
    let (name_start, name_end) = trim_bounds(text, start, eq);
    let (value_start, value_end) = trim_bounds(text, eq + 1, end);
    proof {
        assert(text@.subrange(start as int, eq as int) =~= bare.take(eq - start));
        assert(text@.subrange(eq + 1, end as int) =~= bare.skip(eq - start + 1));
    }
    Some((string_from(text, name_start, name_end), string_from(text, value_start, value_end)))
}

/// The cookies in a text with semicolons between them, in order.
pub fn read_document_cookies(text: &str) -> (pairs: Vec<(String, String)>)
    ensures
        row_view(pairs@) == document_cookies(text@),
{
    let chars: Vec<char> = chars_of(text);
    let mut pairs: Vec<(String, String)> = Vec::new();
    let mut start: usize = 0;
    proof {
        assert(chars@.skip(0) =~= chars@);
        assert(row_view(pairs@) + document_cookies(chars@) =~= document_cookies(chars@));
    }
    loop
        invariant_except_break
            start <= chars.len(),
            document_cookies(chars@) == row_view(pairs@) + document_cookies(
                chars@.skip(start as int),
            ),
        ensures
            document_cookies(chars@) == row_view(pairs@),
        decreases chars.len() - start,
    {
        let end: usize = find_char(&chars, ';', start);
        let ghost rest = chars@.skip(start as int);
        let ghost part = chars@.subrange(start as int, end as int);
        let ghost before = row_view(pairs@);
        let ghost parts = split(rest, ';');
        assert(rest.take(end - start) =~= part);
        assert(parts.len() > 0 && parts[0] == part) by {
            if end == chars.len() {
                assert(rest =~= part);
            }
        }
        let pair: Option<(String, String)> = read_pair(&chars, start, end);
        match pair {
            Some(p) => {
                let ghost shown = (p.0@, p.1@);
                pairs.push(p);
                assert(row_view(pairs@) =~= before.push(shown));
                assert(row_view(pairs@) + cookie_pairs(parts.skip(1)) =~= before + cookie_pairs(
                    parts,
                ));
            },
            None => {},
        }
        if end == chars.len() {
            assert(parts.skip(1) =~= seq![]);
            assert(row_view(pairs@) + cookie_pairs(parts.skip(1)) =~= row_view(pairs@));
            break;
        }
        start = end + 1;
        proof {
            let next = chars@.skip(start as int);
            assert(rest.skip(until(rest, ';') + 1) =~= next);
            assert(parts.skip(1) =~= split(next, ';'));
        }
    }
    pairs
}

/// The map of a list of names and values; of those with the same name the last counts.
pub open spec fn pair_map(pairs: Seq<(Seq<char>, Seq<char>)>) -> Map<Seq<char>, Seq<char>>
    decreases pairs.len(),
{
    if pairs.len() == 0 {
        Map::empty()
    } else {
        pair_map(pairs.drop_last()).insert(pairs.last().0, pairs.last().1)
    }
}

proof fn pair_map_of_entries(list: Seq<(String, String)>)
    ensures
        texts(last_entries(list)) == pair_map(row_view(list)),
    decreases list.len(),
{
    if list.len() > 0 {
        pair_map_of_entries(list.drop_last());
        assert(row_view(list).drop_last() =~= row_view(list.drop_last()));
    }
    assert(texts(last_entries(list)) =~= pair_map(row_view(list)));
}

/// A cookie of the browser, as far as it could be read.
#[derive(Debug)]
pub struct BrowserCookie {
    pub name: Option<String>,
    pub value: Option<String>,
}

/// The names and values of the cookies of which both could be read.
pub open spec fn readable(cookies: Seq<BrowserCookie>) -> Seq<(Seq<char>, Seq<char>)>
    decreases cookies.len(),
{
    if cookies.len() == 0 {
        seq![]
    } else {
        match (cookies.last().name, cookies.last().value) {
            (Some(name), Some(value)) => readable(cookies.drop_last()).push((name@, value@)),
            _ => readable(cookies.drop_last()),
        }
    }
}

/// The cookies of the browser of which name and value could be read; of those with the same name
/// the last counts.
pub fn collect_cookies(cookies: Vec<BrowserCookie>) -> (all: TextMap<String>)
    ensures
        texts(all@) == pair_map(readable(cookies@)),
{
    let ghost whole = cookies@;
    let mut rest: Vec<BrowserCookie> = cookies;
    let mut list: Vec<(String, String)> = Vec::new();
    assert(row_view(list@) =~= seq![]);
    while rest.len() > 0
        invariant
            rest@.len() <= whole.len(),
            rest@ == whole.skip(whole.len() - rest@.len()),
            row_view(list@) == readable(whole.take(whole.len() - rest@.len())),
        decreases rest.len(),
    {
        let ghost done = whole.len() - rest@.len();
        let ghost before = row_view(list@);
        let cookie: BrowserCookie = rest.remove(0);
        proof {
            assert(whole.take(done + 1).drop_last() =~= whole.take(done));
            assert(whole.take(done + 1).last() == cookie);
        }
        match (cookie.name, cookie.value) {
            (Some(name), Some(value)) => {
                let ghost shown = (name@, value@);
                list.push((name, value));
                assert(row_view(list@) =~= before.push(shown));
            },
            _ => {},
        }
    }
    assert(whole.take(whole.len() as int) =~= whole);
    proof {
        pair_map_of_entries(list@);
    }
    TextMap::from_entries(list)
}

/// What is known of the window when a page tells its cookies.
pub enum LoginBrowser {
    /// The window is gone.
    Closed,
    /// The window is there, but the browser did not tell its cookies.
    Silent,
    /// The browser told all its cookies for the page.
    Told(TextMap<String>),
}

/// The cookies of the page `page` with those of the browser, which count more.
pub open spec fn completed(
    page: Map<Seq<char>, Seq<char>>,
    browser: LoginBrowser,
) -> Map<Seq<char>, Seq<char>> {
    match browser {
        LoginBrowser::Told(cookies) => page.union_prefer_right(texts(cookies@)),
        _ => page,
    }
}

/// The token of the page, or else, while the window is there, that of all cookies.
pub open spec fn completed_token(
    page: Map<Seq<char>, Seq<char>>,
    browser: LoginBrowser,
) -> Seq<char> {
    if token_in(page).len() == 0 && !(browser is Closed) {
        token_in(completed(page, browser))
    } else {
        token_in(page)
    }
}

fn insert_all(cookies: TextMap<String>, more: TextMap<String>) -> (all: TextMap<String>)
    ensures
        texts(all@) == texts(cookies@).union_prefer_right(texts(more@)),
{
    let ghost first = cookies@;
    let mut all: TextMap<String> = cookies;
    let mut rest: Vec<(String, String)> = more.into_entries();
    let ghost whole = rest@;
    proof {
        distinct_entries(whole);
        assert(first.union_prefer_right(last_entries(whole.take(0))) =~= first);
    }
    while rest.len() > 0
        invariant
            rest@.len() <= whole.len(),
            rest@ == whole.skip(whole.len() - rest@.len()),
            all@ == first.union_prefer_right(last_entries(whole.take(whole.len() - rest@.len()))),
        decreases rest.len(),
    {
        let ghost done = whole.len() - rest@.len();
        let (name, value) = rest.remove(0);
        proof {
            assert(whole.take(done + 1).drop_last() =~= whole.take(done));
            assert(whole.take(done + 1).last() == (name, value));
            let known = last_entries(whole.take(done));
            assert(first.union_prefer_right(known.insert(name@, value))
                =~= first.union_prefer_right(known).insert(name@, value));
        }
        all.insert(name, value);
    }
    assert(whole.take(whole.len() as int) =~= whole);
    assert(texts(all@) =~= texts(first).union_prefer_right(texts(last_entries(whole))));
    all
}

/// The result of a login whose page has told its cookies in `text`.
pub fn complete_login(text: &str, browser: LoginBrowser) -> (result: CoreContentLoginResult)
    ensures
        result.csrf_token@ == completed_token(pair_map(document_cookies(text@)), browser),
        ({
            let page = pair_map(document_cookies(text@));
            let told = page.contains_key("CCM-XSRF-TOKEN"@) && page["CCM-XSRF-TOKEN"@].len() > 0;
            &&& told ==> result.csrf_token@ == page["CCM-XSRF-TOKEN"@]
            &&& !told ==> match browser {
                LoginBrowser::Told(cookies) => if cookies@.contains_key("CCM-XSRF-TOKEN"@) {
                    result.csrf_token@ == cookies@["CCM-XSRF-TOKEN"@]@
                } else {
                    result.csrf_token@.len() == 0
                },
                _ => result.csrf_token@.len() == 0,
            }
        }),
        result.cookies_json@.len() > 0,
        text_object(result.cookies_json@) == Some(
            completed(pair_map(document_cookies(text@)), browser),
        ),
        result.root_folders_json@.len() == 0,
{
    let pairs: Vec<(String, String)> = read_document_cookies(text);
    proof {
        pair_map_of_entries(pairs@);
    }
    let page: TextMap<String> = TextMap::from_entries(pairs);
    let token: String = find_token(&page);
    match browser {
        LoginBrowser::Closed => session_result(token, &page),
        LoginBrowser::Silent => session_result(token, &page),
        LoginBrowser::Told(cookies) => {
            let all: TextMap<String> = insert_all(page, cookies);
            let token: String = if token.as_str().is_empty() {
                find_token(&all)
            } else {
                token
            };
            session_result(token, &all)
        },
    }
}

/// The page whose cookies are wanted: the configured one, or else the one in the window.
pub open spec fn cookie_page(base_url: Seq<char>, window_url: Option<Seq<char>>) -> Seq<char> {
    if base_url.len() > 0 {
        base_url
    } else {
        match window_url {
            Some(url) => url,
            None => ""@,
        }
    }
}

/// The page whose cookies are wanted.
pub fn cookie_uri(base_url: &str, window_url: Option<String>) -> (uri: String)
    ensures
        uri@ == cookie_page(
            base_url@,
            match window_url {
                Some(url) => Some(url@),
                None => None,
            },
        ),
{
    if base_url.is_empty() {
        match window_url {
            Some(url) => url,
            None => "".to_owned(),
        }
    } else {
        base_url.to_owned()
    }
}

// ---- laws ----

/// A client that is made of the result of a login has exactly the cookies of the login, for the
/// origin of the address, where that is an address.
pub proof fn law_session_restored(
    result: CoreContentLoginResult,
    token: Seq<char>,
    cookies: Map<Seq<char>, String>,
    base_url: Seq<char>,
)
    requires
        holds_session(result, token, cookies),
        origin(base_url) matches Some(o) && is_address(o),
    ensures
        session_of(result.cookies_json@, base_url) == Some(
            Session { origin: origin(base_url)->0, cookies: texts(cookies) },
        ),
{
}

/// Of the cookies of the page and the browser none is lost and none is added, and where both have
/// one that of the page counts.
pub proof fn law_page_cookies_kept(
    page: Map<Seq<char>, String>,
    browser: Map<Seq<char>, String>,
    name: Seq<char>,
)
    ensures
        merged(page, Some(browser)).contains_key(name) <==> page.contains_key(name)
            || browser.contains_key(name),
        page.contains_key(name) ==> merged(page, Some(browser))[name] == page[name],
        browser.contains_key(name) && !page.contains_key(name) ==> merged(
            page,
            Some(browser),
        )[name] == browser[name],
{
}

/// Where the page tells its cookies itself, those of the browser count.
pub proof fn law_browser_cookies_kept(
    page: Map<Seq<char>, Seq<char>>,
    cookies: TextMap<String>,
    name: Seq<char>,
)
    ensures
        completed(page, LoginBrowser::Told(cookies)).contains_key(name) <==> page.contains_key(name)
            || cookies@.contains_key(name),
        cookies@.contains_key(name) ==> completed(page, LoginBrowser::Told(cookies))[name]
            == cookies@[name]@,
        page.contains_key(name) && !cookies@.contains_key(name) ==> completed(
            page,
            LoginBrowser::Told(cookies),
        )[name] == page[name],
{
}

/// The token that the page tells counts, even where the browser has another.
pub proof fn law_page_token_kept(page: Map<Seq<char>, Seq<char>>, browser: LoginBrowser)
    requires
        token_in(page).len() > 0,
    ensures
        completed_token(page, browser) == token_in(page),
{
}

/// The text that a page writes percent-encoded behind the mark is the text that is read, where the
/// mark does not stand in the address before.
pub proof fn law_signal_round_trip(head: Seq<char>, text: Seq<char>)
    requires
        forall|j: int|
            0 <= j < head.len() ==> !occurs_at(
                head + "__cc_data__"@ + url_encoded(encode_utf8(text)),
                "__cc_data__"@,
                j,
            ),
    ensures
        ({
            let url = head + "__cc_data__"@ + url_encoded(encode_utf8(text));
            &&& signal(url) matches Some(data) && decodable(encode_utf8(data))
            &&& polled(Some(url)) == signalled(text_object(text))
        }),
{
    let mark = "__cc_data__"@;
    let encoded = url_encoded(encode_utf8(text));
    let url = head + mark + encoded;
    let n = head.len() as int;
    assert(url.subrange(n, n + mark.len()) =~= mark);
    assert(occurs_at(url, mark, n));
    assert(first_at(url, mark, n));
    first_at_unique(url, mark, n, first_position(url, mark));
    assert(url.skip(n + mark.len()) =~= encoded);
    law_percent_round_trip(text);
}

/// A window without the mark in its address keeps the login waiting.
pub proof fn law_unmarked_waits(url: Seq<char>)
    requires
        absent(url, "__cc_data__"@),
    ensures
        polled(Some(url)) == Poll::Wait,
{
}

} // verus!
