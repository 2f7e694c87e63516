use std::path::PathBuf;

use llm_wiki::core_content_client::{
    CoreContentClient, CoreContentConfig, CoreContentError, CoreContentNode,
};
use llm_wiki::desktop::{
    close_behavior, core_content_cache_dir, core_content_config_file, entry_candidates,
    on_close_requested, on_quit_answer, pick_entry, tray_available, xecm_cache_dir, CloseAction, CloseBehaviorState, EntryBase,
    RemoteSources,
};
use llm_wiki::login::window_label;
use llm_wiki::xecm_client::XecmConfig;

fn xecm(enabled: bool) -> XecmConfig {
    XecmConfig {
        enabled,
        base_url: "http://h".into(),
        workspace_node_id: 1,
        workspace_name: "W".into(),
        username: "u".into(),
        ticket: Some("t".into()),
        password: "".into(),
        poll_interval_seconds: 30,
    }
}

fn core_content(enabled: bool) -> CoreContentConfig {
    CoreContentConfig {
        enabled,
        base_url: "https://example.com".into(),
        folder_node_id: "".into(),
        folder_name: "".into(),
        username: "".into(),
        password: "".into(),
        csrf_token: "tok".into(),
        cookies_json: "".into(),
        poll_interval_seconds: 30,
    }
}

#[test]
fn one_remote_source_at_a_time() {
    let mut sources = RemoteSources::new();
    assert!(sources.xecm.is_none() && sources.core_content.is_none());
    let message = sources.set_xecm_config(Some(xecm(true)), PathBuf::from(xecm_cache_dir()));
    assert_eq!(message, "xECM client configured");
    assert_eq!(sources.xecm.as_ref().unwrap().ticket, Some("t".to_string()));
    assert_eq!(
        sources.xecm.as_ref().unwrap().cache_dir,
        PathBuf::from(".llm-wiki/xecm-cache")
    );

    let dir = PathBuf::from(core_content_cache_dir());
    let message = sources.set_core_content_config(Some(core_content(true)), dir);
    assert_eq!(message, "Core Content client configured");
    assert!(sources.xecm.is_none());
    assert_eq!(sources.core_content.as_ref().unwrap().csrf_token, "tok");
    assert_eq!(
        sources.core_content.as_ref().unwrap().cache_dir,
        PathBuf::from(".llm-wiki/core-content-cache")
    );

    let message = sources.set_xecm_config(Some(xecm(false)), PathBuf::from("c"));
    assert_eq!(message, "xECM client cleared");
    assert!(sources.core_content.is_some());

    sources.set_xecm_config(Some(xecm(true)), PathBuf::from("c"));
    assert!(sources.core_content.is_none());
    let message = sources.set_core_content_config(None, PathBuf::from("c"));
    assert_eq!(message, "Core Content client cleared");
    assert!(sources.xecm.is_some());
    let message = sources.set_core_content_config(Some(core_content(false)), PathBuf::from("c"));
    assert_eq!(message, "Core Content client cleared");
    assert_eq!(sources.set_xecm_config(None, PathBuf::from("c")), "xECM client cleared");
    assert!(sources.xecm.is_none());
}

#[test]
fn a_folder_needs_a_client() {
    let mut sources = RemoteSources::new();
    assert_eq!(
        sources.core_content_select_folder("f".into(), "F".into()).unwrap_err(),
        "No Core Content client configured"
    );
    assert!(!sources.uses_folder("f"));
    sources.set_core_content_config(Some(core_content(true)), PathBuf::from("c"));
    let selected = sources.core_content_select_folder("f".into(), "F".into()).unwrap();
    assert_eq!(selected.message, "folder selected");
    assert_eq!(selected.stored.folder_node_id, "f");
    assert_eq!(selected.stored.folder_name, "F");
    assert_eq!(selected.stored.base_url, "https://example.com");
    assert_eq!(selected.stored.csrf_token, "");
    assert_eq!(selected.stored.cookies_json, "");
    assert_eq!(selected.watched.csrf_token, "tok");
    assert_eq!(selected.watched.folder_node_id, "f");
    assert_eq!(selected.watch_seconds, 30);
    assert!(sources.uses_folder("f"));
    assert!(!sources.uses_folder("g"));
    let client = sources.core_content.unwrap();
    assert_eq!(client.config.folder_node_id, "f");
    assert_eq!(client.config.folder_name, "F");
    assert_eq!(client.config.base_url, "https://example.com");
}

#[test]
fn a_folder_is_not_watched_too_often() {
    for (interval, seconds) in [(0, 10), (9, 10), (10, 10), (11, 11)] {
        let mut config = core_content(true);
        config.poll_interval_seconds = interval;
        let mut sources = RemoteSources::new();
        sources.set_core_content_config(Some(config), PathBuf::from("c"));
        let selected = sources.core_content_select_folder("f".into(), "F".into()).unwrap();
        assert_eq!(selected.watch_seconds, seconds);
    }
    assert_eq!(core_content_config_file(), ".llm-wiki/core-content-config.json");
}

#[test]
fn a_finished_connection_is_stored() {
    let client = || CoreContentClient::new(core_content(true), PathBuf::from("c"));
    let folder = CoreContentNode {
        id: "1".into(),
        name: "A".into(),
        is_container: true,
        size: 0,
        modify_date: None,
        mime_type: None,
        content_size: None,
        cms_links: None,
    };
    let mut sources = RemoteSources::new();
    sources.set_xecm_config(Some(xecm(true)), PathBuf::from("c"));
    let failed = Err(CoreContentError::NotFound("root node has no id".into()));
    assert_eq!(
        sources.core_content_connect_finish(client(), failed).unwrap_err(),
        "Core Content not found: root node has no id"
    );
    assert!(sources.xecm.is_some() && sources.core_content.is_none());
    let choices = sources.core_content_connect_finish(client(), Ok(vec![folder])).unwrap();
    assert_eq!(choices.len(), 1);
    assert_eq!((choices[0].id.as_str(), choices[0].name.as_str()), ("1", "A"));
    assert!(sources.xecm.is_none());
    assert_eq!(sources.core_content.as_ref().unwrap().csrf_token, "tok");
    assert!(sources.core_content_select_folder("1".into(), "A".into()).is_ok());
}

#[test]
fn known_close_behaviors() {
    let mut state = CloseBehaviorState::new();
    assert_eq!(state.value, "minimize");
    for value in ["ask", "exit", "minimize"] {
        assert_eq!(state.set_close_behavior(value.to_string()), Ok(value.to_string()));
        assert_eq!(close_behavior(Some(&state)), value);
    }
    assert_eq!(
        state.set_close_behavior("Exit".to_string()),
        Err("Invalid close behavior: Exit".to_string())
    );
    assert_eq!(state.value, "minimize");
    assert_eq!(close_behavior(None), "minimize");
    assert!(tray_available(Some(true)));
    assert!(!tray_available(Some(false)));
    assert!(!tray_available(None));
}

#[test]
fn closing_windows() {
    assert_eq!(on_close_requested("main", "exit", true), CloseAction::Exit);
    assert_eq!(on_close_requested("main", "minimize", true), CloseAction::Hide);
    assert_eq!(on_close_requested("main", "minimize", false), CloseAction::Minimize);
    assert_eq!(on_close_requested("main", "ask", true), CloseAction::Ask);
    let login = window_label("42");
    for behavior in ["ask", "minimize", "exit"] {
        assert_eq!(on_close_requested(&login, behavior, false), CloseAction::Close);
    }
    assert_eq!(on_close_requested("core-content-login", "exit", false), CloseAction::Exit);
    assert_eq!(on_quit_answer(true), CloseAction::Exit);
    assert_eq!(on_quit_answer(false), CloseAction::Hide);
}

#[test]
fn places_of_the_helper_server() {
    let entry = ["mcp-server", "dist", "src", "index.js"];
    let all = entry_candidates(true, true, true);
    let places: Vec<(EntryBase, Vec<String>)> =
        all.into_iter().map(|c| (c.base, c.steps)).collect();
    let place = |base: EntryBase, detour: &[&str]| {
        let steps: Vec<String> = detour.iter().chain(entry.iter()).map(|s| s.to_string()).collect();
        (base, steps)
    };
    assert_eq!(
        places,
        vec![
            place(EntryBase::Manifest, &[]),
            place(EntryBase::Manifest, &[".."]),
            place(EntryBase::Manifest, &["..", ".."]),
            place(EntryBase::Current, &[]),
            place(EntryBase::Current, &[".."]),
            place(EntryBase::Current, &["..", ".."]),
            place(EntryBase::Resources, &[]),
            place(EntryBase::Program, &[]),
            place(EntryBase::Program, &["..", "Resources"]),
        ]
    );
    assert_eq!(entry_candidates(false, false, false).len(), 3);
    assert_eq!(entry_candidates(false, true, false)[3].base, EntryBase::Resources);
}

#[test]
fn the_first_entry_counts() {
    assert_eq!(pick_entry(&vec![false, true, true]), Ok(1));
    let message = "MCP server entry was not found. Run `npm run mcp:build` from the LLM Wiki repository, then reopen Settings.";
    assert_eq!(pick_entry(&vec![false, false]), Err(message.to_string()));
    assert_eq!(pick_entry(&vec![]), Err(message.to_string()));
}
