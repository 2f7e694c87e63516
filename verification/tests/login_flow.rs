use std::path::PathBuf;

use llm_wiki::core_content_client::{CoreContentError, CoreContentNode};
use llm_wiki::json::read_object;
use llm_wiki::login::{
    asks_for_code, collect_cookies, complete_login, cookie_uri, folder_choices, login_window, merge_cookies,
    on_cookies, on_folders, on_poll, on_signal, open_login, read_document_cookies, session_config,
    signal_data, start_login, BrowserCookie, CoreContentLoginResult, LoginBrowser, LoginStep, PollStep, POLL_SECONDS,
};
use llm_wiki::text_map::TextMap;

fn cookies(list: &[(&str, &str)]) -> TextMap<String> {
    let mut map = TextMap::new();
    for (name, value) in list {
        map.insert(name.to_string(), value.to_string());
    }
    map
}

fn sorted(map: &TextMap<String>) -> Vec<(String, String)> {
    let mut list: Vec<(String, String)> = map.entries().to_vec();
    list.sort();
    list
}

fn pairs(list: &[(&str, &str)]) -> Vec<(String, String)> {
    list.iter().map(|(n, v)| (n.to_string(), v.to_string())).collect()
}

fn folder(id: &str, name: &str) -> CoreContentNode {
    CoreContentNode {
        id: id.into(),
        name: name.into(),
        is_container: true,
        size: 0,
        modify_date: None,
        mime_type: None,
        content_size: None,
        cms_links: None,
    }
}

fn result() -> CoreContentLoginResult {
    CoreContentLoginResult {
        csrf_token: "t".into(),
        cookies_json: "{}".into(),
        root_folders_json: "".into(),
    }
}

#[test]
fn a_login_window_is_labelled_and_scripted() {
    let window = login_window("42".into(), "u=__CC_BASE_URL__;i=__CC_LOGIN_ID__;", "http://h");
    assert_eq!(window.login_id, "42");
    assert_eq!(window.label, "core-content-login-42");
    assert_eq!(window.script, "u=http://h;i=42;");
    let window = login_window("42".into(), "__CC_BASE_URL__", "a__CC_LOGIN_ID__b");
    assert_eq!(window.script, "a42b");
}

#[test]
fn each_login_has_a_random_id() {
    let first = start_login("__CC_LOGIN_ID__", "http://h").unwrap();
    let second = start_login("__CC_LOGIN_ID__", "http://h").unwrap();
    assert_ne!(first.login_id, second.login_id);
    assert_eq!(first.script, first.login_id);
    assert_eq!(first.label, format!("core-content-login-{}", first.login_id));
    let id: Vec<char> = first.login_id.chars().collect();
    assert_eq!(id.len(), 36);
    for i in 0..36 {
        if i == 8 || i == 13 || i == 18 || i == 23 {
            assert_eq!(id[i], '-');
        } else {
            assert!(id[i].is_ascii_digit() || ('a'..='f').contains(&id[i]));
        }
    }
    assert_eq!(id[14], '4');
    assert!(['8', '9', 'a', 'b'].contains(&id[19]));
}

#[test]
fn a_login_needs_an_address() {
    assert_eq!(
        start_login("", "nowhere").unwrap_err(),
        "invalid base_url: relative URL without a base"
    );
    assert_eq!(start_login("", "http://").unwrap_err(), "invalid base_url: empty host");
    assert_eq!(
        open_login("1".into(), Some("why".into()), "", "http://h").unwrap_err(),
        "invalid base_url: why"
    );
    assert_eq!(open_login("1".into(), None, "", "http://h").unwrap().label, "core-content-login-1");
}

#[test]
fn only_cookies_that_can_be_read_are_collected() {
    let cookie = |name: Option<&str>, value: Option<&str>| BrowserCookie {
        name: name.map(str::to_string),
        value: value.map(str::to_string),
    };
    let all = collect_cookies(vec![
        cookie(Some("a"), Some("1")),
        cookie(None, Some("2")),
        cookie(Some("b"), None),
        cookie(Some("c"), Some("3")),
        cookie(Some("a"), Some("4")),
    ]);
    assert_eq!(sorted(&all), pairs(&[("a", "4"), ("c", "3")]));
    assert!(collect_cookies(vec![]).entries().is_empty());
}

#[test]
fn a_window_is_watched_until_it_signals() {
    assert_eq!(POLL_SECONDS, 1);
    assert!(matches!(on_poll(Some("https://example.com/login")), PollStep::Wait));
    match on_poll(None) {
        PollStep::Finished(result) => {
            assert_eq!(result.csrf_token, "");
            assert_eq!(result.cookies_json, "");
            assert_eq!(result.root_folders_json, "");
        }
        other => panic!("unexpected: {:?}", other),
    }
    let url = "https://example.com/#__cc_data__%7B%22a%22%3A%22b+c%22%7D";
    match on_poll(Some(url)) {
        PollStep::Cookies(found) => assert_eq!(sorted(&found), pairs(&[("a", "b c")])),
        other => panic!("unexpected: {:?}", other),
    }
    match on_poll(Some("https://example.com/#__cc_data__nonsense")) {
        PollStep::Finished(result) => assert_eq!(result.cookies_json, ""),
        other => panic!("unexpected: {:?}", other),
    }
}

#[test]
fn pages_that_ask_for_a_code() {
    assert!(asks_for_code("Enter the verification code"));
    assert!(asks_for_code("/login/mfa?x"));
    assert!(asks_for_code("Open your authenticator app"));
    assert!(!asks_for_code("Enter your password"));
    assert!(!asks_for_code(""));
}

#[test]
fn the_signal_stands_behind_the_first_mark() {
    assert_eq!(signal_data("x#__cc_data__a__cc_data__b"), Some("a__cc_data__b".to_string()));
    assert_eq!(signal_data("x#__cc_data__"), Some("".to_string()));
    assert_eq!(signal_data("x#__cc_dat"), None);
    match on_signal(Some(cookies(&[("a", "b")]))) {
        PollStep::Cookies(found) => assert_eq!(sorted(&found), pairs(&[("a", "b")])),
        other => panic!("unexpected: {:?}", other),
    }
    assert!(matches!(on_signal(None), PollStep::Finished(_)));
}

#[test]
fn cookies_of_the_page_win_over_those_of_the_browser() {
    let all = merge_cookies(
        cookies(&[("a", "page"), ("b", "page")]),
        Some(cookies(&[("b", "browser"), ("c", "browser")])),
    );
    assert_eq!(sorted(&all), pairs(&[("a", "page"), ("b", "page"), ("c", "browser")]));
    let all = merge_cookies(cookies(&[("a", "page")]), None);
    assert_eq!(sorted(&all), pairs(&[("a", "page")]));
}

#[test]
fn with_a_token_the_folders_are_listed() {
    let step = on_cookies(
        cookies(&[("session", "s\"1")]),
        Some(cookies(&[("CCM-XSRF-TOKEN", "tok")])),
        "https://example.com/app",
        PathBuf::from("cache"),
    );
    match step {
        LoginStep::ListFolders(client, result) => {
            assert_eq!(result.csrf_token, "tok");
            assert_eq!(result.root_folders_json, "");
            let stored = read_object(&result.cookies_json).expect("an object");
            let expected = pairs(&[("CCM-XSRF-TOKEN", "tok"), ("session", "s\"1")]);
            assert_eq!(sorted(&stored), expected);
            assert_eq!(client.config.csrf_token, "tok");
            assert_eq!(client.config.cookies_json, result.cookies_json);
            assert_eq!(client.csrf_token, "tok");
            assert_eq!(client.cache_dir, PathBuf::from("cache"));
            let session = client.session.expect("a session");
            assert_eq!(session.origin, "https://example.com");
            assert_eq!(sorted(&session.cookies), expected);
        }
        LoginStep::Finished(_) => panic!("there is a token"),
    }
}

#[test]
fn without_a_token_the_login_is_over() {
    let step = on_cookies(cookies(&[("a", "b")]), None, "https://example.com", PathBuf::from("c"));
    match step {
        LoginStep::Finished(result) => {
            assert_eq!(result.csrf_token, "");
            assert_eq!(result.cookies_json, "{\"a\":\"b\"}");
            assert_eq!(result.root_folders_json, "");
        }
        LoginStep::ListFolders(_, _) => panic!("there is no token"),
    }
}

#[test]
fn folders_or_an_error_complete_a_login() {
    let complete = on_folders(result(), Ok(vec![folder("1", "A \"b\""), folder("2", "C")]));
    assert_eq!(complete.csrf_token, "t");
    assert_eq!(complete.cookies_json, "{}");
    assert_eq!(
        complete.root_folders_json,
        "[{\"id\":\"1\",\"name\":\"A \\\"b\\\"\"},{\"id\":\"2\",\"name\":\"C\"}]"
    );
    assert_eq!(on_folders(result(), Ok(vec![])).root_folders_json, "[]");
    let failed = on_folders(result(), Err(CoreContentError::Other("a \"b\"".into())));
    assert_eq!(failed.root_folders_json, "{\"error\":\"Core Content error: a \\\"b\\\"\"}");
}

#[test]
fn folders_to_choose_from() {
    let choices = folder_choices(vec![folder("1", "A"), folder("2", "B")]);
    let shown: Vec<(String, String)> = choices.into_iter().map(|c| (c.id, c.name)).collect();
    assert_eq!(shown, pairs(&[("1", "A"), ("2", "B")]));
}

#[test]
fn the_configuration_of_a_session() {
    let config = session_config("http://h", "tok", "{}");
    assert!(config.enabled);
    assert_eq!(config.base_url, "http://h");
    assert_eq!(config.csrf_token, "tok");
    assert_eq!(config.cookies_json, "{}");
    assert_eq!(config.poll_interval_seconds, 30);
    assert_eq!(config.folder_node_id, "");
    assert_eq!(config.folder_name, "");
    assert_eq!(config.username, "");
    assert_eq!(config.password, "");
}

#[test]
fn cookies_as_a_page_tells_them() {
    assert_eq!(
        read_document_cookies(" a = 1 ;b=x=y; junk ;=z;c=;\u{a0}d=\u{2003}e "),
        pairs(&[("a", "1"), ("b", "x=y"), ("", "z"), ("c", ""), ("d", "e")])
    );
    assert!(read_document_cookies("").is_empty());
    assert!(read_document_cookies(";;").is_empty());
}

#[test]
fn a_login_that_the_page_completes() {
    let closed = complete_login("a=1; CCM-XSRF-TOKEN=x; a=2", LoginBrowser::Closed);
    assert_eq!(closed.csrf_token, "x");
    assert_eq!(closed.root_folders_json, "");
    assert_eq!(
        sorted(&read_object(&closed.cookies_json).unwrap()),
        pairs(&[("CCM-XSRF-TOKEN", "x"), ("a", "2")])
    );

    let browser = || cookies(&[("CCM-XSRF-TOKEN", "hidden"), ("a", "browser")]);
    let told = complete_login("a=1; b=2", LoginBrowser::Told(browser()));
    assert_eq!(told.csrf_token, "hidden");
    assert_eq!(
        sorted(&read_object(&told.cookies_json).unwrap()),
        pairs(&[("CCM-XSRF-TOKEN", "hidden"), ("a", "browser"), ("b", "2")])
    );

    let both = complete_login("CCM-XSRF-TOKEN=page", LoginBrowser::Told(browser()));
    assert_eq!(both.csrf_token, "page");

    let silent = complete_login("a=1", LoginBrowser::Silent);
    assert_eq!(silent.csrf_token, "");
    assert_eq!(silent.cookies_json, "{\"a\":\"1\"}");
}

#[test]
fn the_page_whose_cookies_are_wanted() {
    assert_eq!(cookie_uri("http://h", Some("http://w".into())), "http://h");
    assert_eq!(cookie_uri("", Some("http://w".into())), "http://w");
    assert_eq!(cookie_uri("", None), "");
}

#[test]
fn objects_of_texts() {
    assert!(read_object("").is_none());
    assert!(read_object("[]").is_none());
    assert!(read_object("{\"a\":null}").is_none());
    let twice = read_object("{\"a\":\"1\",\"a\":\"2\"}").unwrap();
    assert_eq!(sorted(&twice), pairs(&[("a", "2")]));
    let escaped = read_object("{\"\\u00fc\":\"\\n\"}").unwrap();
    assert_eq!(sorted(&escaped), pairs(&[("\u{fc}", "\n")]));
}
