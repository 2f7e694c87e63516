use std::path::PathBuf;

use llm_wiki::core_content_client::{
    base_origin, cache_key_for, nodes_of, read_number, read_optional_number, AnswerStep,
    ContentStep, CoreContentClient, CoreContentConfig, CoreContentError, CoreContentNode,
    ListingReply, ListingStep, NumOrStr, CORE_CONTENT_TIMEOUT_SECONDS,
};
use llm_wiki::text_map::TextMap;
use llm_wiki::transport::LostRequest;

fn config() -> CoreContentConfig {
    CoreContentConfig {
        enabled: true,
        base_url: "https://example.com/subscriptions/test".into(),
        folder_node_id: "abc123".into(),
        folder_name: "test".into(),
        username: "".into(),
        password: "".into(),
        csrf_token: "".into(),
        cookies_json: "".into(),
        poll_interval_seconds: 30,
    }
}

fn client() -> CoreContentClient {
    CoreContentClient::new(config(), PathBuf::from("cc-test-cache"))
}

fn node(id: &str, name: &str, is_container: bool) -> CoreContentNode {
    CoreContentNode {
        id: id.into(),
        name: name.into(),
        is_container,
        size: 5,
        modify_date: Some("d".into()),
        mime_type: None,
        content_size: None,
        cms_links: None,
    }
}

fn headers(client: &CoreContentClient) -> Vec<(String, String)> {
    client.cc_headers()
}

/// The children of a small hierarchy.
fn children_of(id: &str) -> Vec<CoreContentNode> {
    match id {
        "abc123" => vec![node("f1", "one", true), node("d1", "a.txt", false)],
        "f1" => vec![node("f2", "two", true), node("d2", "b.txt", false), node("f3", "x", true)],
        "f2" => vec![node("d3", "c.txt", false)],
        _ => vec![],
    }
}

#[test]
fn core_content_client_is_source_path_recognizes_valid_paths() {
    let config = CoreContentConfig {
        enabled: true,
        base_url: "https://example.com/subscriptions/test".into(),
        folder_node_id: "abc123".into(),
        folder_name: "test".into(),
        username: "".into(),
        password: "".into(),
        csrf_token: "".into(),
        cookies_json: "".into(),
        poll_interval_seconds: 30,
    };
    let client = CoreContentClient::new(config, PathBuf::from("cc-test-cache"));

    assert!(client.is_source_path("raw/sources"));
    assert!(client.is_source_path("raw/sources/doc.pdf"));
    assert!(client.is_source_path("raw/sources/folder/file.txt"));
    assert!(client.is_source_path("raw\\sources\\doc.pdf"));
    assert!(client.is_source_path("C:/Users/test/project/raw/sources/doc.pdf"));
    assert!(!client.is_source_path("wiki/index.md"));
    assert!(!client.is_source_path("purpose.md"));
    assert!(!client.is_source_path(""));
}

#[test]
fn core_content_client_cache_key_is_deterministic() {
    let node = CoreContentNode {
        id: "abc-123".into(),
        name: "test.pdf".into(),
        is_container: false,
        size: 100,
        modify_date: Some("2026-01-01T00:00:00".into()),
        mime_type: None,
        content_size: None,
        cms_links: None,
    };
    let k1 = cache_key_for(&node);
    let k2 = cache_key_for(&node);
    assert_eq!(k1, k2);
    assert_eq!(k1.len(), 32);
}

#[test]
fn core_content_client_cache_key_differs_on_modify_date_change() {
    let mut node = CoreContentNode {
        id: "abc-123".into(),
        name: "test.pdf".into(),
        is_container: false,
        size: 100,
        modify_date: Some("2026-01-01T00:00:00".into()),
        mime_type: None,
        content_size: None,
        cms_links: None,
    };
    let k1 = cache_key_for(&node);
    node.modify_date = Some("2026-06-01T00:00:00".into());
    let k2 = cache_key_for(&node);
    assert_ne!(k1, k2);
}

#[test]
fn error_display_messages() {
    assert!(CoreContentError::Auth("bad".into()).message().contains("auth"));
    assert!(CoreContentError::Network("timeout".into()).message().contains("network"));
    assert!(CoreContentError::NotFound("missing".into()).message().contains("not found"));
    assert!(CoreContentError::RateLimited.message().contains("rate limited"));
    assert!(CoreContentError::Other("oops".into()).message().contains("oops"));
}

#[test]
fn messages_of_all_core_content_errors() {
    assert_eq!(CoreContentError::Auth("bad".into()).message(), "Core Content auth error: bad");
    assert_eq!(CoreContentError::Network("x".into()).message(), "Core Content network error: x");
    assert_eq!(CoreContentError::NotFound("x".into()).message(), "Core Content not found: x");
    assert_eq!(CoreContentError::RateLimited.message(), "Core Content rate limited");
    assert_eq!(CoreContentError::Other("oops".into()).message(), "Core Content error: oops");
}

#[test]
fn lost_core_content_requests() {
    let lost = |timeout, connect| {
        CoreContentError::lost(LostRequest { timeout, connect, text: "why".to_string() }).message()
    };
    assert_eq!(lost(true, false), "Core Content network error: request timed out");
    assert_eq!(lost(false, true), "Core Content network error: connection failed: why");
    assert_eq!(lost(false, false), "Core Content error: HTTP request failed: why");
    let error = reqwest::Client::new().get("not an address").build().unwrap_err();
    let text = error.to_string();
    assert_eq!(
        CoreContentError::from(error).message(),
        format!("Core Content error: HTTP request failed: {}", text)
    );
}

#[test]
fn statuses_of_core_content() {
    assert!(CoreContentClient::check_status(204).is_ok());
    let message = |status| CoreContentClient::check_status(status).unwrap_err().message();
    assert_eq!(message(401), "Core Content auth error: session expired");
    assert_eq!(message(404), "Core Content not found: node not found");
    assert_eq!(message(429), "Core Content rate limited");
    assert_eq!(message(503), "Core Content error: HTTP 503");

    assert!(CoreContentClient::check_answer(200, "anything").is_ok());
    let answer = |status| CoreContentClient::check_answer(status, "why").unwrap_err().message();
    assert_eq!(answer(401), "Core Content auth error: session expired");
    assert_eq!(answer(404), "Core Content not found: node not found");
    assert_eq!(answer(429), "Core Content rate limited");
    assert_eq!(answer(503), "Core Content error: HTTP 503: why");
    assert_eq!(CORE_CONTENT_TIMEOUT_SECONDS, 60);
}

#[test]
fn numbers_and_texts_of_numbers() {
    assert_eq!(read_number(NumOrStr::N(7)), Ok(7));
    assert_eq!(read_number(NumOrStr::S("42".into())), Ok(42));
    assert_eq!(read_number(NumOrStr::S("+042".into())), Ok(42));
    assert_eq!(read_number(NumOrStr::S("18446744073709551615".into())), Ok(u64::MAX));
    assert_eq!(
        read_number(NumOrStr::S("18446744073709551616".into())),
        Err("number too large to fit in target type".to_string())
    );
    assert_eq!(
        read_number(NumOrStr::S("".into())),
        Err("cannot parse integer from empty string".to_string())
    );
    for text in ["+", "-1", " 1", "1 ", "1_0", "x"] {
        assert_eq!(
            read_number(NumOrStr::S(text.to_string())),
            Err("invalid digit found in string".to_string())
        );
    }
    assert_eq!(read_optional_number(None), Ok(None));
    assert_eq!(read_optional_number(Some(NumOrStr::S("9".into()))), Ok(Some(9)));
    assert!(read_optional_number(Some(NumOrStr::S("nine".into()))).is_err());
}

#[test]
fn origins() {
    let origin = |url: &str| base_origin(url).map(str::to_string);
    assert_eq!(origin("https://example.com/a/b"), Some("https://example.com".to_string()));
    assert_eq!(origin("https://example.com:8443"), Some("https://example.com:8443".to_string()));
    assert_eq!(origin("https:///x"), Some("https://".to_string()));
    assert_eq!(origin("a/b://c/d"), Some("a/b://c".to_string()));
    assert_eq!(origin("http://a/http://b/"), Some("http://a".to_string()));
    assert_eq!(origin("example.com/a"), None);
    assert_eq!(origin(""), None);
}

#[test]
fn session_cookies_of_a_configuration() {
    assert!(client().session.is_none());

    let mut with_cookies = config();
    with_cookies.cookies_json = "{\"b\":\"2\",\"a\":\"x=y\"}".into();
    let client = CoreContentClient::new(with_cookies, PathBuf::from("cc-test-cache"));
    let session = client.session.expect("a session");
    assert_eq!(session.origin, "https://example.com");
    let mut lines = session.lines();
    lines.sort();
    assert_eq!(lines, vec!["a=x=y".to_string(), "b=2".to_string()]);

    let mut broken = config();
    broken.cookies_json = "{\"a\":1}".into();
    assert!(CoreContentClient::new(broken, PathBuf::from("c")).session.is_none());

    let mut nowhere = config();
    nowhere.cookies_json = "{}".into();
    nowhere.base_url = "example.com".into();
    assert!(CoreContentClient::new(nowhere, PathBuf::from("c")).session.is_none());

    let mut no_address = config();
    no_address.cookies_json = "{}".into();
    no_address.base_url = "https:///path".into();
    assert!(CoreContentClient::new(no_address, PathBuf::from("c")).session.is_none());
}

#[test]
fn headers_of_every_request() {
    let mut config = config();
    config.csrf_token = "token".into();
    let client = CoreContentClient::new(config, PathBuf::from("c"));
    let expected: Vec<(String, String)> = vec![
        ("X-CCM-XSRF-TOKEN".into(), "token".into()),
        ("X-Requested-With".into(), "XMLHttpRequest".into()),
        ("Authorization".into(), "dummy".into()),
        ("Referer".into(), "https://example.com/subscriptions/test".into()),
    ];
    assert_eq!(headers(&client), expected);
}

#[test]
fn unusable_header_values_are_dropped() {
    let token_of = |token: &str| {
        let mut config = config();
        config.csrf_token = token.into();
        headers(&CoreContentClient::new(config, PathBuf::from("c")))[0].1.clone()
    };
    assert_eq!(token_of("a\tb c"), "a\tb c");
    assert_eq!(token_of("gr\u{fc}n"), "gr\u{fc}n");
    assert_eq!(token_of("a\nb"), "");
    assert_eq!(token_of("a\u{7f}b"), "");
    let mut config = config();
    config.base_url = "http://h\r/".into();
    assert_eq!(headers(&CoreContentClient::new(config, PathBuf::from("c")))[3].1, "");
}

#[test]
fn addresses_of_requests() {
    let client = client();
    let base = "https://example.com/subscriptions/test";
    assert_eq!(client.api_get("/x").url, format!("{}/x", base));
    assert_eq!(client.api_get("https://other/x").url, "https://other/x");
    assert_eq!(client.api_get("httpx").url, "httpx");
    assert_eq!(client.list_root_folders().url, format!("{}/cm/v1/node/root", base));
    let walk = client.list_directory("n1");
    assert_eq!(
        client.list_nodes_paginated(&walk).url,
        format!("{}/cm/v1/node/n1/nodes?page=0&size=200", base)
    );
    assert_eq!(client.get_content("n1").url, format!("{}/cm/v1/node/n1", base));
    assert_eq!(client.get_content("n1").headers, headers(&client));
    let walk = client.on_root(Some("r".into())).unwrap();
    assert_eq!(
        client.list_nodes_paginated(&walk).url,
        format!("{}/cm/v1/node/r/nodes?page=0&size=200", base)
    );
    assert_eq!(
        client.on_root(None).unwrap_err().message(),
        "Core Content not found: root node has no id"
    );
}

#[test]
fn a_listing_holds_each_id_once() {
    let items = || {
        Some(vec![
            Some(node("a", "first", false)),
            None,
            Some(node("b", "second", true)),
            Some(node("a", "again", false)),
        ])
    };
    let names = |nodes: Vec<CoreContentNode>| -> Vec<String> {
        nodes.into_iter().map(|n| n.name).collect()
    };
    let reply = ListingReply { collection: items(), data: Some(vec![]), total: None };
    assert_eq!(names(nodes_of(reply)), vec!["first".to_string(), "second".to_string()]);
    let reply = ListingReply { collection: None, data: items(), total: None };
    assert_eq!(names(nodes_of(reply)), vec!["first".to_string(), "second".to_string()]);
    let reply = ListingReply { collection: Some(vec![]), data: items(), total: None };
    assert!(nodes_of(reply).is_empty());
    assert!(nodes_of(ListingReply { collection: None, data: None, total: None }).is_empty());
    let reply = ListingReply { collection: items(), data: None, total: None };
    let folders = CoreContentClient::on_root_children(nodes_of(reply));
    assert_eq!(names(folders), vec!["second".to_string()]);
}

/// Lists `count` children of a server that heeds the size, with the sizes that were asked for.
fn list_children(count: u64, tells_total: bool) -> (Vec<CoreContentNode>, Vec<u64>) {
    let mut walk = client().list_directory("n");
    let mut sizes = vec![];
    loop {
        sizes.push(walk.size);
        let items = (0..count.min(walk.size))
            .map(|i| Some(node(&format!("id{}", i), "x", false)))
            .collect();
        let total = if tells_total { Some(count) } else { None };
        match walk.on_reply(ListingReply { collection: Some(items), data: None, total }) {
            ListingStep::Again(larger) => walk = larger,
            ListingStep::Done(nodes) => return (nodes, sizes),
        }
    }
}

#[test]
fn a_large_folder_is_listed_whole() {
    for (count, sizes) in
        [(0, vec![200]), (199, vec![200]), (200, vec![200]), (201, vec![200, 201]), (1234, vec![200, 1234])]
    {
        let (nodes, asked) = list_children(count, true);
        assert_eq!(nodes.len() as u64, count);
        assert_eq!(asked, sizes);
    }
    for (count, sizes) in
        [(199, vec![200]), (200, vec![200, 400]), (500, vec![200, 400, 800])]
    {
        let (nodes, asked) = list_children(count, false);
        assert_eq!(nodes.len() as u64, count);
        assert_eq!(asked, sizes);
    }
}

#[test]
fn a_server_that_holds_back_is_not_asked_for_ever() {
    let walk = client().list_directory("n");
    let some = || Some(vec![Some(node("a", "x", false))]);
    let reply = ListingReply { collection: some(), data: None, total: Some(900) };
    let walk = match walk.on_reply(reply) {
        ListingStep::Again(walk) => walk,
        ListingStep::Done(_) => panic!("there is more"),
    };
    assert_eq!((walk.node_id.as_str(), walk.size), ("n", 900));
    let reply = ListingReply { collection: some(), data: None, total: Some(900) };
    match walk.on_reply(reply) {
        ListingStep::Again(_) => panic!("it will not send more"),
        ListingStep::Done(nodes) => assert_eq!(nodes.len(), 1),
    }
}

fn with_credentials() -> CoreContentClient {
    let mut config = config();
    config.username = "me".into();
    config.password = "secret".into();
    config.csrf_token = "old".into();
    CoreContentClient::new(config, PathBuf::from("c"))
}

#[test]
fn an_expired_session_is_renewed_once() {
    let mut client = with_credentials();
    let request = client.get_content("n");
    assert!(matches!(client.on_answer(false, 401, "x"), AnswerStep::Authenticate));
    assert!(matches!(client.on_download(false, 401), AnswerStep::Authenticate));
    let url = request.url.clone();
    let again = client.on_login(request, "new".into(), "{\"a\":\"b\"}".into()).unwrap();
    assert_eq!(again.url, url);
    assert_eq!(again.headers[0].1, "new");
    assert_eq!(client.csrf_token, "new");
    assert_eq!(client.config.csrf_token, "new");
    assert_eq!(client.config.cookies_json, "{\"a\":\"b\"}");
    assert_eq!(client.config.username, "me");
    let session = client.session.as_ref().unwrap();
    assert_eq!(session.lines(), vec!["a=b".to_string()]);
    for step in [client.on_answer(true, 401, "x"), client.on_download(true, 401)] {
        match step {
            AnswerStep::Fail(error) => {
                assert_eq!(error.message(), "Core Content auth error: session expired")
            }
            other => panic!("unexpected: {:?}", other),
        }
    }
    assert!(matches!(client.on_answer(true, 200, ""), AnswerStep::ReadBody));
    assert!(matches!(client.on_download(false, 204), AnswerStep::ReadBody));
}

#[test]
fn a_session_that_cannot_be_renewed() {
    match client().on_answer(false, 401, "x") {
        AnswerStep::Fail(error) => {
            assert_eq!(error.message(), "Core Content auth error: session expired")
        }
        other => panic!("unexpected: {:?}", other),
    }
    let mut client = with_credentials();
    let request = client.get_content("n");
    let error = client.on_login(request, "".into(), "{}".into()).unwrap_err();
    assert_eq!(error.message(), "Core Content auth error: session expired");
    assert_eq!(client.csrf_token, "old");
    match client.on_answer(false, 500, "why") {
        AnswerStep::Fail(error) => {
            assert_eq!(error.message(), "Core Content error: HTTP 500: why")
        }
        other => panic!("unexpected: {:?}", other),
    }
    match client.on_download(false, 500) {
        AnswerStep::Fail(error) => assert_eq!(error.message(), "Core Content error: HTTP 500"),
        other => panic!("unexpected: {:?}", other),
    }
}

#[test]
fn contents_and_their_links() {
    let client = client();
    let mut document = node("d", "a.pdf", false);
    match client.on_cache(&document, Some(vec![9])).unwrap() {
        ContentStep::Cached(bytes) => assert_eq!(bytes, vec![9]),
        other => panic!("unexpected: {:?}", other),
    }
    assert_eq!(
        client.on_cache(&document, None).unwrap_err().message(),
        "Core Content not found: node has no cms_links"
    );
    let mut links = TextMap::new();
    links.insert("self".to_string(), "/self".to_string());
    document.cms_links = Some(links.clone());
    assert_eq!(
        client.on_cache(&document, None).unwrap_err().message(),
        "Core Content not found: no download-media link"
    );
    links.insert("urn:eim:linkrel:download-media".to_string(), "/dl/1".to_string());
    document.cms_links = Some(links);
    match client.on_cache(&document, None).unwrap() {
        ContentStep::Download(request) => {
            assert_eq!(request.url, "https://example.com/dl/1");
            assert_eq!(request.headers, headers(&client));
        }
        other => panic!("unexpected: {:?}", other),
    }
    let mut config = config();
    config.base_url = "nowhere".into();
    let lost = CoreContentClient::new(config, PathBuf::from("c"));
    assert_eq!(
        lost.on_cache(&document, None).unwrap_err().message(),
        "Core Content error: invalid base_url"
    );
}

#[test]
fn the_cache_key_of_a_named_node() {
    let mut document = node("abc-123", "test.pdf", false);
    document.modify_date = Some("2026-01-01T00:00:00".into());
    assert_eq!(cache_key_for(&document), "b6af2a15771f4919a2a75714caa676a8");
    document.modify_date = None;
    assert_eq!(cache_key_for(&document), "b7c94c71a47941cb1f04de7a07f64394");
}

#[test]
fn a_survey_records_documents_only() {
    let client = client();
    let mut walk = client.recursive_snapshot();
    let mut listings = 0;
    while let Some(id) = walk.next() {
        listings += 1;
        walk.on_children(children_of(&id));
    }
    assert_eq!(listings, 4);
    let mut ids: Vec<String> = walk.entries.entries().iter().map(|e| e.0.clone()).collect();
    ids.sort();
    assert_eq!(ids, vec!["d1".to_string(), "d2".to_string(), "d3".to_string()]);
    assert_eq!(walk.entries.get("d3").unwrap().name, "c.txt");
    assert_eq!(walk.entries.get("d3").unwrap().modify_date, Some("d".to_string()));
    assert!(!walk.entries.contains_key("f1"));
}

#[test]
fn the_larger_size_is_recorded() {
    let mut walk = client().recursive_snapshot();
    let mut large = node("l", "l", false);
    large.content_size = Some(9);
    let mut small = node("s", "s", false);
    small.content_size = Some(2);
    walk.on_children(vec![large, small, node("n", "n", false)]);
    assert_eq!(walk.entries.get("l").unwrap().size, 9);
    assert_eq!(walk.entries.get("s").unwrap().size, 5);
    assert_eq!(walk.entries.get("n").unwrap().size, 5);
}

fn find(path: &str) -> Result<String, CoreContentError> {
    let client = client();
    let mut search = client.resolve_path(path);
    while let Some(id) = search.walk.next() {
        search.walk.on_children(children_of(&id));
    }
    client.on_snapshot(&search.name, &search.walk.entries)
}

#[test]
fn documents_are_found_by_the_last_name_of_a_path() {
    assert_eq!(find("raw/sources/c.txt").unwrap(), "d3");
    assert_eq!(find("/home/me/raw/sources/x/b.txt/").unwrap(), "d2");
    assert_eq!(find("a.txt/.").unwrap(), "d1");
    assert_eq!(find("C:/Users/test/project/raw/sources/c.txt").unwrap(), "d3");
    assert_eq!(find("//server/share/raw/sources/c.txt").unwrap(), "d3");
    assert_eq!(find("C:raw/sources/c.txt").unwrap(), "d3");
    let named = |path: &str| client().resolve_path(path).name;
    assert_eq!(named("raw/sources/a: b.pdf"), "a: b.pdf");
    assert_eq!(named("raw/sources/a:/x:y"), "x:y");
    assert_eq!(named("C:/Users/test/project/raw/sources/doc.pdf"), "doc.pdf");
    assert_eq!(named("C:/.."), "");
    assert_eq!(named("/:x"), ":x");
    let backslash_separates = std::path::is_separator('\\');
    let name = named("raw/sources/a\\b.txt");
    assert_eq!(name, if backslash_separates { "b.txt" } else { "a\\b.txt" });
    assert_eq!(
        find("raw/sources/none.txt").unwrap_err().message(),
        "Core Content not found: file 'none.txt' not found in Core Content folder 'test'"
    );
    assert_eq!(
        find("a.txt/..").unwrap_err().message(),
        "Core Content not found: file '' not found in Core Content folder 'test'"
    );
    assert!(find("").is_err());
    assert!(find("/").is_err());
}
