use std::path::PathBuf;

use llm_wiki::encoding::urlencoding;
use llm_wiki::transport::LostRequest;
use llm_wiki::xecm_client::{
    cache_key_for, workspace_choices, CallStep, ContentStep, PageStep, PathStep, XecmClient,
    XecmConfig, XecmError, XecmNode, XECM_TIMEOUT_SECONDS,
};

const TEST_BASE_URL: &str = "http://192.168.0.29/otcs/cs.exe/api/v1";
const TEST_USERNAME: &str = "admin";
const TEST_PASSWORD: &str = "OpenText1";
const TEST_WORKSPACE: &str = "Enterprise";

fn test_config() -> XecmConfig {
    XecmConfig {
        enabled: true,
        base_url: TEST_BASE_URL.to_string(),
        workspace_node_id: 2000,
        workspace_name: TEST_WORKSPACE.to_string(),
        username: TEST_USERNAME.to_string(),
        password: TEST_PASSWORD.to_string(),
        ticket: Some("ticket".to_string()),
        poll_interval_seconds: 30,
    }
}

fn test_client() -> XecmClient {
    XecmClient::new(test_config(), PathBuf::from("xecm-test-cache"))
}

fn node(id: u64, name: &str, container: bool) -> XecmNode {
    XecmNode {
        id,
        name: name.to_string(),
        type_: if container { 0 } else { 144 },
        container,
        size: 10,
        modify_date: None,
        mime_type: None,
        parent_id: 2000,
    }
}

/// The children of a small hierarchy.
fn children_of(id: u64) -> Vec<XecmNode> {
    match id {
        2000 => vec![node(1, "folder", true), node(2, "a.txt", false), node(3, "empty", true)],
        1 => vec![node(4, "deep", true), node(5, "b.txt", false)],
        4 => vec![node(6, "c.txt", false)],
        _ => vec![],
    }
}

/// Resolves a path on the small hierarchy, counting the listings.
fn resolve(client: &mut XecmClient, path: &str) -> (Result<u64, XecmError>, usize) {
    let mut step = client.resolve_path(path);
    let mut listings = 0;
    loop {
        match step {
            PathStep::Found(id) => return (Ok(id), listings),
            PathStep::Failed(error) => return (Err(error), listings),
            PathStep::List(walk) => {
                listings += 1;
                let children = children_of(walk.current);
                step = client.on_children(walk, children);
            }
        }
    }
}

#[test]
fn urlencoding_handles_special_characters() {
    assert_eq!(urlencoding("admin"), "admin");
    assert_eq!(urlencoding("user@name"), "user%40name");
    assert_eq!(urlencoding("a b"), "a%20b");
    assert_eq!(urlencoding("a+b"), "a%2Bb");
}

#[test]
fn xecm_client_cache_key_is_deterministic() {
    let node = XecmNode {
        id: 123,
        name: "test.pdf".into(),
        type_: 144,
        container: false,
        size: 100,
        modify_date: Some("2026-01-01T00:00:00".into()),
        mime_type: None,
        parent_id: 0,
    };
    let k1 = cache_key_for(&node);
    let k2 = cache_key_for(&node);
    assert_eq!(k1, k2);
    assert_eq!(k1.len(), 32);
}

#[test]
fn xecm_client_cache_key_differs_on_modify_date_change() {
    let mut node = XecmNode {
        id: 123,
        name: "test.pdf".into(),
        type_: 144,
        container: false,
        size: 100,
        modify_date: Some("2026-01-01T00:00:00".into()),
        mime_type: None,
        parent_id: 0,
    };
    let k1 = cache_key_for(&node);
    node.modify_date = Some("2026-06-01T00:00:00".into());
    let k2 = cache_key_for(&node);
    assert_ne!(k1, k2);
}

#[test]
fn xecm_client_is_source_path_recognizes_valid_paths() {
    let config = test_config();
    let client = XecmClient::new(config, PathBuf::from("xecm-test-cache"));
    assert!(client.is_source_path("raw/sources"));
    assert!(client.is_source_path("raw/sources/doc.pdf"));
    assert!(client.is_source_path("raw/sources/folder/file.txt"));
    assert!(client.is_source_path("raw\\sources\\doc.pdf"));
    // Absolute paths (what the frontend actually sends)
    assert!(client.is_source_path("C:/Users/test/project/raw/sources"));
    assert!(client.is_source_path("C:/Users/test/project/raw/sources/doc.pdf"));
    assert!(client.is_source_path("C:/Users/test/project/raw/sources/folder/file.txt"));
    assert!(!client.is_source_path("wiki/index.md"));
    assert!(!client.is_source_path("purpose.md"));
    assert!(!client.is_source_path(""));
}

#[test]
fn xecm_error_display_messages() {
    assert!(XecmError::Auth("bad".into()).message().contains("auth"));
    assert!(XecmError::Network("timeout".into()).message().contains("network"));
    assert!(XecmError::NotFound("missing".into()).message().contains("not found"));
    assert!(XecmError::RateLimited.message().contains("rate limited"));
    assert!(XecmError::Other("oops".into()).message().contains("oops"));
}

#[test]
fn resolve_path_finds_root() {
    let mut client = test_client();
    let (id, _) = resolve(&mut client, "raw/sources");
    assert_eq!(id.expect("resolve_path"), 2000);
}

#[test]
fn resolve_path_caches_repeated_lookups() {
    let mut client = test_client();
    let id1 = resolve(&mut client, "raw/sources").0.expect("resolve_path");
    let id2 = resolve(&mut client, "raw/sources").0.expect("resolve_path");
    assert_eq!(id1, id2);
    assert!(client.path_cache.contains_key("raw/sources"));
}

#[test]
fn recursive_snapshot_collects_all_nodes() {
    let client = test_client();
    let mut walk = client.recursive_snapshot();
    let mut listings = 0;
    while let Some(id) = walk.next() {
        listings += 1;
        walk.on_children(children_of(id));
    }
    assert_eq!(listings, 4);
    assert_eq!(walk.nodes.len(), 6);
    for (id, node) in &walk.nodes {
        assert_eq!(*id, node.id);
        assert!(!node.name.is_empty());
    }
}

#[test]
fn list_workspaces_finds_enterprise() {
    let client = test_client();
    let request = XecmClient::list_workspaces(TEST_BASE_URL, "t1");
    assert_eq!(request.url, "http://192.168.0.29/otcs/cs.exe/api/v1/volumes");
    assert_eq!(request.ticket, "t1");
    let workspaces = vec![node(1999, "Other", true), node(2000, TEST_WORKSPACE, true)];
    let workspaces = XecmClient::on_workspaces(workspaces);
    assert!(!workspaces.is_empty(), "no workspaces returned");
    let enterprise = client.pick_workspace(workspaces).expect("Enterprise workspace not found");
    assert_eq!(enterprise.id, 2000);
}

#[test]
fn authenticate_returns_ticket() {
    let form = XecmClient::authenticate(TEST_BASE_URL, TEST_USERNAME, TEST_PASSWORD);
    assert_eq!(form.url, format!("{}/auth", TEST_BASE_URL));
    assert_eq!(form.body, "username=admin&password=OpenText1");
    let ticket = XecmClient::check_authentication(200);
    assert!(ticket.is_ok(), "auth failed: {:?}", ticket.err());
}

#[test]
fn get_node_returns_workspace_root() {
    let client = test_client();
    let call = client.get_node(2000).expect("get_node");
    assert_eq!(call.url, format!("{}/nodes/2000", TEST_BASE_URL));
    assert!(matches!(client.on_status(call, 200), CallStep::ReadBody));
}

#[test]
fn list_directory_returns_items() {
    let client = test_client();
    let call = client.list_directory(2000, 1).expect("list_directory");
    assert_eq!(call.url, format!("{}/nodes/2000/nodes?limit=100&page=1", TEST_BASE_URL));
    assert!(matches!(client.on_status(call, 200), CallStep::ReadBody));
    let items = match XecmClient::list_all_children(2000).on_page(children_of(2000), Some(1)) {
        PageStep::Done(items) => items,
        PageStep::Next(_) => panic!("there is one page"),
    };
    assert!(!items.is_empty(), "workspace should have items");
    for item in &items {
        assert!(!item.name.is_empty(), "every item should have a name");
        assert!(item.id > 0, "every item should have a valid id");
    }
}

#[test]
fn get_content_downloads_file_bytes() {
    let client = test_client();
    let children = children_of(2000);
    let file = children
        .iter()
        .find(|n| !n.container && n.size > 0)
        .expect("need at least one non-empty file in workspace");
    let fetch = client.get_content(file.id, file);
    match client.on_cache(fetch, None).expect("get_content") {
        ContentStep::Download(call) => {
            assert_eq!(call.url, format!("{}/nodes/{}/content", TEST_BASE_URL, file.id));
            assert!(matches!(client.on_status(call, 200), CallStep::ReadBody));
        }
        other => panic!("unexpected: {:?}", other),
    }
}

#[test]
fn list_all_children_gets_all_pages() {
    let walk = XecmClient::list_all_children(2000);
    assert_eq!((walk.node_id, walk.page), (2000, 1));
    let walk = match walk.on_page(vec![node(1, "a", false)], Some(3)) {
        PageStep::Next(walk) => walk,
        PageStep::Done(_) => panic!("two pages are due"),
    };
    assert_eq!((walk.node_id, walk.page), (2000, 2));
    let walk = match walk.on_page(vec![node(2, "b", false)], Some(3)) {
        PageStep::Next(walk) => walk,
        PageStep::Done(_) => panic!("one page is due"),
    };
    match walk.on_page(vec![node(3, "c", false)], Some(3)) {
        PageStep::Next(_) => panic!("no page is due"),
        PageStep::Done(nodes) => {
            let ids: Vec<u64> = nodes.iter().map(|n| n.id).collect();
            assert_eq!(ids, vec![1, 2, 3]);
        }
    }
}

#[test]
fn a_listing_without_a_total_has_one_page() {
    match XecmClient::list_all_children(7).on_page(vec![node(1, "a", false)], None) {
        PageStep::Next(_) => panic!("no page is due"),
        PageStep::Done(nodes) => assert_eq!(nodes.len(), 1),
    }
}

#[test]
fn messages_of_all_xecm_errors() {
    assert_eq!(XecmError::Auth("bad".into()).message(), "xECM auth error: bad");
    assert_eq!(XecmError::Network("down".into()).message(), "xECM network error: down");
    assert_eq!(XecmError::NotFound("gone".into()).message(), "xECM not found: gone");
    assert_eq!(XecmError::RateLimited.message(), "xECM rate limited");
    assert_eq!(XecmError::Other("oops".into()).message(), "xECM error: oops");
}

#[test]
fn lost_xecm_requests() {
    let lost = |timeout, connect| {
        XecmError::lost(LostRequest { timeout, connect, text: "why".to_string() }).message()
    };
    assert_eq!(lost(true, false), "xECM network error: request timed out");
    assert_eq!(lost(true, true), "xECM network error: request timed out");
    assert_eq!(lost(false, true), "xECM network error: connection failed: why");
    assert_eq!(lost(false, false), "xECM error: HTTP request failed: why");
}

/// An error of `reqwest` that comes without any network.
fn address_error() -> reqwest::Error {
    reqwest::Client::new().get("not an address").build().unwrap_err()
}

#[test]
fn a_real_request_error_is_described() {
    let error = address_error();
    let text = error.to_string();
    assert!(!error.is_timeout() && !error.is_connect());
    assert_eq!(
        XecmError::from(error).message(),
        format!("xECM error: HTTP request failed: {}", text)
    );
}

#[test]
fn a_refused_connection_is_a_network_error() {
    let runtime = tokio::runtime::Builder::new_current_thread().enable_all().build().unwrap();
    let error = runtime
        .block_on(async { reqwest::Client::new().get("http://127.0.0.1:1/").send().await })
        .unwrap_err();
    let text = error.to_string();
    assert!(error.is_connect());
    assert_eq!(
        XecmError::from(error).message(),
        format!("xECM network error: connection failed: {}", text)
    );
}

#[test]
fn statuses_of_xecm() {
    assert!(XecmClient::check_status(200).is_ok());
    assert!(XecmClient::check_status(299).is_ok());
    let message = |status| XecmClient::check_status(status).unwrap_err().message();
    assert_eq!(message(401), "xECM auth error: session expired");
    assert_eq!(message(404), "xECM not found: node not found");
    assert_eq!(message(429), "xECM rate limited");
    assert_eq!(message(500), "xECM error: HTTP 500");
    assert_eq!(message(199), "xECM error: HTTP 199");
    assert_eq!(message(300), "xECM error: HTTP 300");
}

#[test]
fn authentication_form_and_answers() {
    let form = XecmClient::authenticate("http://h/api", "user@name", "a b&c=d");
    assert_eq!(form.url, "http://h/api/auth");
    assert_eq!(form.body, "username=user%40name&password=a%20b%26c%3Dd");
    assert!(XecmClient::check_authentication(200).is_ok());
    assert_eq!(
        XecmClient::check_authentication(401).unwrap_err().message(),
        "xECM auth error: authentication failed with status 401 Unauthorized"
    );
    assert_eq!(
        XecmClient::check_authentication(799).unwrap_err().message(),
        "xECM auth error: authentication failed with status 799 <unknown status code>"
    );
}

#[test]
fn a_client_without_a_ticket() {
    let mut config = test_config();
    config.ticket = None;
    let client = XecmClient::new(config, PathBuf::from("cache"));
    assert_eq!(client.ticket().unwrap_err().message(), "xECM auth error: no ticket configured");
    assert!(client.get_node(1).is_err());
    assert!(client.list_directory(1, 1).is_err());
    assert!(client.resolve_workspace().is_err());
    assert_eq!(XECM_TIMEOUT_SECONDS, 30);
}

#[test]
fn calls_carry_the_ticket() {
    let client = test_client();
    let call = client.get_node(17).unwrap();
    assert_eq!(call.url, format!("{}/nodes/17", TEST_BASE_URL));
    assert_eq!(call.ticket, "ticket");
    assert!(!call.retried);
    let call = client.list_directory(17, 3).unwrap();
    assert_eq!(call.url, format!("{}/nodes/17/nodes?limit=100&page=3", TEST_BASE_URL));
    let request = client.resolve_workspace().unwrap();
    assert_eq!(request.url, format!("{}/volumes", TEST_BASE_URL));
    assert_eq!(request.ticket, "ticket");
}

#[test]
fn an_expired_ticket_is_renewed_once() {
    let mut client = test_client();
    let call = client.get_node(17).unwrap();
    let expired = match client.on_status(call, 401) {
        CallStep::Authenticate(expired) => expired,
        other => panic!("unexpected: {:?}", other),
    };
    assert_eq!(expired.form.url, format!("{}/auth", TEST_BASE_URL));
    assert_eq!(expired.form.body, "username=admin&password=OpenText1");
    let again = client.on_ticket(expired, "fresh".to_string());
    assert_eq!(again.url, format!("{}/nodes/17", TEST_BASE_URL));
    assert_eq!(again.ticket, "fresh");
    assert_eq!(client.ticket().unwrap(), "fresh");
    match client.on_status(again, 401) {
        CallStep::Fail(error) => assert_eq!(error.message(), "xECM auth error: session expired"),
        other => panic!("unexpected: {:?}", other),
    }
    let call = client.get_node(18).unwrap();
    assert!(matches!(client.on_status(call, 200), CallStep::ReadBody));
}

#[test]
fn without_a_password_no_ticket_is_renewed() {
    let mut config = test_config();
    config.password = String::new();
    let client = XecmClient::new(config, PathBuf::from("cache"));
    let call = client.get_node(17).unwrap();
    match client.on_status(call, 401) {
        CallStep::Fail(error) => assert_eq!(
            error.message(),
            "xECM auth error: no password stored, cannot re-authenticate"
        ),
        other => panic!("unexpected: {:?}", other),
    }
}

#[test]
fn a_missing_workspace() {
    let client = test_client();
    let error = client.pick_workspace(vec![node(1, "Other", true)]).unwrap_err();
    assert_eq!(error.message(), "xECM not found: workspace 'Enterprise' not found");
    let twice = vec![node(5, TEST_WORKSPACE, true), node(6, TEST_WORKSPACE, true)];
    assert_eq!(client.pick_workspace(twice).unwrap().id, 5);
}

#[test]
fn only_containers_are_workspaces() {
    let ids: Vec<u64> =
        XecmClient::on_workspaces(children_of(2000)).iter().map(|n| n.id).collect();
    assert_eq!(ids, vec![1, 3]);
    let choices = workspace_choices(children_of(2000));
    let shown: Vec<(String, u64, u64)> =
        choices.into_iter().map(|c| (c.name, c.id, c.type_)).collect();
    assert_eq!(shown, vec![("folder".to_string(), 1, 0), ("empty".to_string(), 3, 0)]);
}

#[test]
fn contents_come_from_the_cache_or_the_server() {
    let client = test_client();
    let mut document = node(123, "test.pdf", false);
    document.modify_date = Some("2026-01-01T00:00:00".to_string());
    let fetch = client.get_content(123, &document);
    assert_eq!(fetch.cache_key, cache_key_for(&document));
    assert_eq!(fetch.url, format!("{}/nodes/123/content", TEST_BASE_URL));
    match client.on_cache(fetch, Some(vec![1, 2, 3])).unwrap() {
        ContentStep::Cached(bytes) => assert_eq!(bytes, vec![1, 2, 3]),
        other => panic!("unexpected: {:?}", other),
    }
    let fetch = client.get_content(123, &document);
    match client.on_cache(fetch, None).unwrap() {
        ContentStep::Download(call) => {
            assert_eq!(call.url, format!("{}/nodes/123/content", TEST_BASE_URL))
        }
        other => panic!("unexpected: {:?}", other),
    }
}

#[test]
fn the_cache_key_is_the_digest_of_id_and_date() {
    let mut document = node(123, "test.pdf", false);
    document.modify_date = Some("2026-01-01T00:00:00".to_string());
    assert_eq!(cache_key_for(&document), "5ad8057837f9ac8833bf7d889b30bad6");
    document.modify_date = None;
    assert_eq!(cache_key_for(&document), "2b7c3f88c57701818c9968c88e0155b7");
}

#[test]
fn a_deep_path_is_resolved_name_by_name() {
    let mut client = test_client();
    let (id, listings) = resolve(&mut client, "/home/me/wiki/raw/sources/folder//deep/c.txt");
    assert_eq!(id.unwrap(), 6);
    assert_eq!(listings, 3);
    let (id, listings) = resolve(&mut client, "/home/me/wiki/raw/sources/folder//deep/c.txt");
    assert_eq!(id.unwrap(), 6);
    assert_eq!(listings, 0);
    let (id, listings) = resolve(&mut client, "\\home\\me\\wiki\\raw\\sources\\folder\\\\deep\\c.txt");
    assert_eq!(id.unwrap(), 6);
    assert_eq!(listings, 0);
}

#[test]
fn paths_that_lead_nowhere() {
    let mut client = test_client();
    let (result, listings) = resolve(&mut client, "raw/sources/folder/none.txt");
    assert_eq!(
        result.unwrap_err().message(),
        "xECM not found: 'none.txt' not found in parent node 1 (path: raw/sources/folder/none.txt)"
    );
    assert_eq!(listings, 2);
    let (result, listings) = resolve(&mut client, "wiki/index.md");
    assert_eq!(
        result.unwrap_err().message(),
        "xECM error: path 'wiki/index.md' is not under raw/sources/"
    );
    assert_eq!(listings, 0);
    assert!(!client.path_cache.contains_key("raw/sources/folder/none.txt"));
    assert!(!client.path_cache.contains_key("wiki/index.md"));
}
