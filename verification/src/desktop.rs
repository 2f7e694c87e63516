//! What the desktop application keeps and decides: its remote source, its windows and where its
//! helper server is.

use std::path::PathBuf;

use vstd::prelude::*;
use vstd::string::*;

use crate::core_content_client::{
    core_content_message, session_of, session_view, CoreContentClient, CoreContentConfig,
    CoreContentError, CoreContentNode,
};
use crate::login::{choices_show, folder_choices, login_label, FolderChoice};
use crate::source_path::views;
use crate::text::{begins_with, chars_of, joined, same_text, stands_at};
use crate::xecm_client::{XecmClient, XecmConfig};

verus! {

broadcast use vstd::string::group_string_axioms;

// ---- remote sources ----

/// The remote source in use, if any.
pub struct RemoteSources {
    pub xecm: Option<XecmClient>,
    pub core_content: Option<CoreContentClient>,
}

/// Where the contents of an xECM source are cached.
pub fn xecm_cache_dir() -> (dir: String)
    ensures
        dir@ == ".llm-wiki/xecm-cache"@,
{
    ".llm-wiki/xecm-cache".to_owned()
}

/// Where the contents of a Core Content source are cached.
pub fn core_content_cache_dir() -> (dir: String)
    ensures
        dir@ == ".llm-wiki/core-content-cache"@,
{
    ".llm-wiki/core-content-cache".to_owned()
}

/// Whether `client` is a new client of `config`.
pub open spec fn is_new_xecm(client: XecmClient, config: XecmConfig, cache_dir: PathBuf) -> bool {
    &&& client.config == config
    &&& client.ticket == config.ticket
    &&& client.path_cache@ == Map::<Seq<char>, u64>::empty()
    &&& client.cache_dir == cache_dir
}

/// Whether `client` is a new client of `config`.
pub open spec fn is_new_core_content(
    client: CoreContentClient,
    config: CoreContentConfig,
    cache_dir: PathBuf,
) -> bool {
    &&& client.config == config
    &&& client.csrf_token@ == config.csrf_token@
    &&& session_view(client.session) == session_of(config.cookies_json@, config.base_url@)
    &&& client.cache_dir == cache_dir
}

/// The configuration without the token and the cookies, which do not outlast the session.
pub open spec fn without_session(stored: CoreContentConfig, config: CoreContentConfig) -> bool {
    &&& stored == (CoreContentConfig {
        csrf_token: stored.csrf_token,
        cookies_json: stored.cookies_json,
        ..config
    })
    &&& stored.csrf_token@.len() == 0
    &&& stored.cookies_json@.len() == 0
}

/// The least time between two looks at a folder, in seconds.
pub const LEAST_WATCH_SECONDS: u64 = 10;

/// What to do with a folder that has been chosen.
#[derive(Debug)]
pub struct SelectedFolder {
    pub message: String,
    /// The configuration to store.
    pub stored: CoreContentConfig,
    /// The configuration to watch the folder with.
    pub watched: CoreContentConfig,
    /// How long to wait between two looks at the folder, in seconds.
    pub watch_seconds: u64,
}

/// Whether `selected` says what to do with the folder of `config`.
pub open spec fn is_selection(selected: SelectedFolder, config: CoreContentConfig) -> bool {
    &&& selected.message@ == "folder selected"@
    &&& without_session(selected.stored, config)
    &&& selected.watched == config
    &&& selected.watch_seconds == if config.poll_interval_seconds < LEAST_WATCH_SECONDS {
        LEAST_WATCH_SECONDS
    } else {
        config.poll_interval_seconds
    }
}

fn selection(config: &CoreContentConfig) -> (selected: SelectedFolder)
    ensures
        is_selection(selected, *config),
{
    let mut stored: CoreContentConfig = config.copied();
    stored.csrf_token = String::new();
    stored.cookies_json = String::new();
    let interval: u64 = config.poll_interval_seconds;
    SelectedFolder {
        message: "folder selected".to_owned(),
        stored,
        watched: config.copied(),
        watch_seconds: if interval < LEAST_WATCH_SECONDS {
            LEAST_WATCH_SECONDS
        } else {
            interval
        },
    }
}

/// Where the configuration of a Core Content source is stored.
pub fn core_content_config_file() -> (file: String)
    ensures
        file@ == ".llm-wiki/core-content-config.json"@,
{
    ".llm-wiki/core-content-config.json".to_owned()
}

impl RemoteSources {
    /// No remote source.
    pub fn new() -> (sources: Self)
        ensures
            sources.xecm is None,
            sources.core_content is None,
    {
        RemoteSources { xecm: None, core_content: None }
    }

    /// At most one remote source is in use.
    pub open spec fn exclusive(&self) -> bool {
        self.xecm is None || self.core_content is None
    }

    /// Whether the folder `folder_node_id` of Core Content is in use.
    pub fn uses_folder(&self, folder_node_id: &str) -> (yes: bool)
        ensures
            yes == (self.core_content matches Some(client) && client.config.folder_node_id@
                == folder_node_id@),
    {
        match &self.core_content {
            Some(client) => same_text(client.config.folder_node_id.as_str(), folder_node_id),
            None => false,
        }
    }

    /// Takes an enabled xECM source into use, in place of any other; otherwise leaves xECM.
    pub fn set_xecm_config(&mut self, config: Option<XecmConfig>, cache_dir: PathBuf) -> (message:
        String)
        ensures
            match config {
                Some(c) => if c.enabled {
                    &&& final(self).xecm matches Some(client) && is_new_xecm(client, c, cache_dir)
                    &&& final(self).core_content is None
                    &&& message@ == "xECM client configured"@
                } else {
                    &&& final(self).xecm is None
                    &&& final(self).core_content == old(self).core_content
                    &&& message@ == "xECM client cleared"@
                },
                None => {
                    &&& final(self).xecm is None
                    &&& final(self).core_content == old(self).core_content
                    &&& message@ == "xECM client cleared"@
                },
            },
            final(self).exclusive(),
    {
        match config {
            Some(c) => if c.enabled {
                self.core_content = None;
                self.xecm = Some(XecmClient::new(c, cache_dir));
                return "xECM client configured".to_owned();
            },
            None => {},
        }
        self.xecm = None;
        "xECM client cleared".to_owned()
    }

    /// Takes an enabled Core Content source into use, in place of any other; otherwise leaves Core
    /// Content.
    pub fn set_core_content_config(
        &mut self,
        config: Option<CoreContentConfig>,
        cache_dir: PathBuf,
    ) -> (message: String)
        ensures
            match config {
                Some(c) => if c.enabled {
                    &&& final(self).core_content matches Some(client) && is_new_core_content(
                        client,
                        c,
                        cache_dir,
                    )
                    &&& final(self).xecm is None
                    &&& message@ == "Core Content client configured"@
                } else {
                    &&& final(self).core_content is None
                    &&& final(self).xecm == old(self).xecm
                    &&& message@ == "Core Content client cleared"@
                },
                None => {
                    &&& final(self).core_content is None
                    &&& final(self).xecm == old(self).xecm
                    &&& message@ == "Core Content client cleared"@
                },
            },
            final(self).exclusive(),
    {
        match config {
            Some(c) => if c.enabled {
                self.xecm = None;
                self.core_content = Some(CoreContentClient::new(c, cache_dir));
                return "Core Content client configured".to_owned();
            },
            None => {},
        }
        self.core_content = None;
        "Core Content client cleared".to_owned()
    }

    /// Finishes a connection to Core Content: where the root folders could be listed with `client`,
    /// it is taken into use, in place of any other source, and the folders are to choose from.
    pub fn core_content_connect_finish(
        &mut self,
        client: CoreContentClient,
        folders: Result<Vec<CoreContentNode>, CoreContentError>,
    ) -> (result: Result<Vec<FolderChoice>, String>)
        ensures
            match folders {
                Ok(nodes) => {
                    &&& final(self).core_content == Some(client)
                    &&& final(self).xecm is None
                    &&& result matches Ok(choices) && choices_show(choices@, nodes@)
                },
                Err(e) => {
                    &&& *final(self) == *old(self)
                    &&& result matches Err(m) && m@ == core_content_message(e@)
                },
            },
            old(self).exclusive() ==> final(self).exclusive(),
    {
        match folders {
            Ok(nodes) => {
                self.xecm = None;
                self.core_content = Some(client);
                Ok(folder_choices(nodes))
            },
            Err(error) => Err(error.message()),
        }
    }

    /// Chooses the folder of the Core Content source in use, whose configuration is then to be
    /// stored and whose folder to be watched.
    pub fn core_content_select_folder(&mut self, folder_node_id: String, folder_name: String) -> (
    result: Result<SelectedFolder, String>)
        ensures
            match old(self).core_content {
                Some(before) => {
                    &&& final(self).core_content == Some(
                        CoreContentClient {
                            config: CoreContentConfig {
                                folder_node_id,
                                folder_name,
                                ..before.config
                            },
                            ..before
                        },
                    )
                    &&& result matches Ok(selected) && is_selection(
                        selected,
                        final(self).core_content->0.config,
                    )
                },
                None => {
                    &&& final(self).core_content is None
                    &&& result matches Err(m) && m@ == "No Core Content client configured"@
                },
            },
            final(self).xecm == old(self).xecm,
            old(self).exclusive() ==> final(self).exclusive(),
    {
        match &mut self.core_content {
            Some(client) => {
                client.config.folder_node_id = folder_node_id;
                client.config.folder_name = folder_name;
                Ok(selection(&client.config))
            },
            None => Err("No Core Content client configured".to_owned()),
        }
    }
}

// ---- closing windows ----

/// What closing a window does, by its name.
pub open spec fn is_close_behavior(value: Seq<char>) -> bool {
    value == "ask"@ || value == "minimize"@ || value == "exit"@
}

/// What closing a window does.
pub struct CloseBehaviorState {
    pub value: String,
}

impl CloseBehaviorState {
    /// At first, closing a window minimizes it.
    pub fn new() -> (state: Self)
        ensures
            state.value@ == "minimize"@,
            state.well_formed(),
    {
        CloseBehaviorState { value: "minimize".to_owned() }
    }

    /// The value is one of those that are known.
    pub open spec fn well_formed(&self) -> bool {
        is_close_behavior(self.value@)
    }

    /// Changes what closing a window does; an unknown value changes nothing.
    pub fn set_close_behavior(&mut self, value: String) -> (result: Result<String, String>)
        ensures
            if is_close_behavior(value@) {
                &&& result == Ok::<String, String>(value)
                &&& final(self).value@ == value@
            } else {
                &&& result matches Err(m) && m@ == "Invalid close behavior: "@ + value@
                &&& final(self).value == old(self).value
            },
            old(self).well_formed() ==> final(self).well_formed(),
    {
        if same_text(value.as_str(), "ask") || same_text(value.as_str(), "minimize") || same_text(
            value.as_str(),
            "exit",
        ) {
            self.value = value.clone();
            Ok(value)
        } else {
            Err(joined("Invalid close behavior: ", value.as_str()))
        }
    }
}

/// What closing a window does, where that can be known.
pub fn close_behavior(state: Option<&CloseBehaviorState>) -> (behavior: String)
    ensures
        behavior@ == match state {
            Some(s) => s.value@,
            None => "minimize"@,
        },
{
    match state {
        Some(s) => s.value.clone(),
        None => "minimize".to_owned(),
    }
}

/// Whether there is a tray, where that can be known.
pub fn tray_available(state: Option<bool>) -> (available: bool)
    ensures
        available == (state == Some(true)),
{
    match state {
        Some(available) => available,
        None => false,
    }
}

/// What to do when a window is to be closed.
#[derive(Debug, Clone, Copy, PartialEq, Eq, Structural)]
pub enum CloseAction {
    /// Let it close.
    Close,
    /// Destroy it and leave the application.
    Exit,
    Hide,
    Minimize,
    /// Ask whether to quit.
    Ask,
}

/// The window of a login closes; another one does as the behavior says, and hides only where there
/// is a tray.
pub open spec fn close_action(label: Seq<char>, behavior: Seq<char>, tray: bool) -> CloseAction {
    if begins_with(label, "core-content-login-"@) {
        CloseAction::Close
    } else if behavior == "exit"@ {
        CloseAction::Exit
    } else if behavior == "minimize"@ {
        if tray {
            CloseAction::Hide
        } else {
            CloseAction::Minimize
        }
    } else {
        CloseAction::Ask
    }
}

/// What to do when the window `label` is to be closed.
pub fn on_close_requested(label: &str, behavior: &str, tray: bool) -> (action: CloseAction)
    ensures
        action == close_action(label@, behavior@, tray),
{
    let text: Vec<char> = chars_of(label);
    let prefix: Vec<char> = chars_of("core-content-login-");
    if stands_at(&text, &prefix, 0) {
        CloseAction::Close
    } else if same_text(behavior, "exit") {
        CloseAction::Exit
    } else if same_text(behavior, "minimize") {
        if tray {
            CloseAction::Hide
        } else {
            CloseAction::Minimize
        }
    } else {
        CloseAction::Ask
    }
}

/// What to do when the question whether to quit has been answered.
pub fn on_quit_answer(confirmed: bool) -> (action: CloseAction)
    ensures
        action == if confirmed {
            CloseAction::Exit
        } else {
            CloseAction::Hide
        },
{
    if confirmed {
        CloseAction::Exit
    } else {
        CloseAction::Hide
    }
}

/// The window of a login closes, whatever closing a window does otherwise.
pub proof fn law_login_window_closes(login_id: Seq<char>, behavior: Seq<char>, tray: bool)
    ensures
        close_action(login_label(login_id), behavior, tray) == CloseAction::Close,
{
    let label = login_label(login_id);
    let prefix = "core-content-login-"@;
    assert(label.subrange(0, prefix.len() as int) =~= prefix);
}

/// A window closes exactly where its label begins as that of a login does. Any other leaves the
/// application exactly where the behavior is `exit`, goes away exactly where it is `minimize`, into
/// the tray where there is one, and asks in all other cases.
pub proof fn law_closing(label: Seq<char>, behavior: Seq<char>, tray: bool)
    ensures
        ({
            let action = close_action(label, behavior, tray);
            let login = label.len() >= 19 && label.take(19) == "core-content-login-"@;
            &&& action == CloseAction::Close <==> login
            &&& action == CloseAction::Exit <==> !login && behavior == "exit"@
            &&& action == CloseAction::Hide <==> !login && behavior == "minimize"@ && tray
            &&& action == CloseAction::Minimize <==> !login && behavior == "minimize"@ && !tray
            &&& action == CloseAction::Ask <==> !login && behavior != "exit"@ && behavior
                != "minimize"@
        }),
{
    reveal_strlit("core-content-login-");
    reveal_strlit("exit");
    reveal_strlit("minimize");
    assert("exit"@.len() != "minimize"@.len());
    if label.len() >= 19 {
        assert(label.subrange(0, 19) =~= label.take(19));
    }
}

/// What closing a window does is well-formed exactly where it is one of the three behaviors.
pub proof fn law_behavior_kept(state: CloseBehaviorState)
    ensures
        state.well_formed() <==> state.value@ == "ask"@ || state.value@ == "minimize"@
            || state.value@ == "exit"@,
{
}

/// The three behaviors are known, and no other.
pub proof fn law_close_behaviors(value: Seq<char>)
    ensures
        is_close_behavior("ask"@) && is_close_behavior("minimize"@) && is_close_behavior("exit"@),
        value != "ask"@ && value != "minimize"@ && value != "exit"@ ==> !is_close_behavior(value),
{
}

/// Without a tray no window is hidden, unless the user chose so when asked.
pub proof fn law_no_tray_no_hiding(label: Seq<char>, behavior: Seq<char>)
    ensures
        close_action(label, behavior, false) != CloseAction::Hide,
{
}

/// A known behavior other than `ask` never asks.
pub proof fn law_asks_only_when_told(label: Seq<char>, behavior: Seq<char>, tray: bool)
    requires
        is_close_behavior(behavior),
        close_action(label, behavior, tray) == CloseAction::Ask,
    ensures
        behavior == "ask"@,
{
}

// ---- the helper server ----

/// A directory from which the helper server is looked for.
#[derive(Debug, Clone, Copy, PartialEq, Eq, Structural)]
pub enum EntryBase {
    /// The directory that the application was built in.
    Manifest,
    /// The current directory.
    Current,
    /// The directory of the resources of the application.
    Resources,
    /// The directory of the program.
    Program,
}

/// A place to look for the helper server: the names to follow from a directory.
#[derive(Debug)]
pub struct EntryCandidate {
    pub base: EntryBase,
    pub steps: Vec<String>,
}

/// The content of an `EntryCandidate`.
pub struct Place {
    pub base: EntryBase,
    pub steps: Seq<Seq<char>>,
}

impl View for EntryCandidate {
    type V = Place;

    open spec fn view(&self) -> Place {
        Place { base: self.base, steps: views(self.steps@) }
    }
}

/// Places by their views.
pub open spec fn places(candidates: Seq<EntryCandidate>) -> Seq<Place> {
    candidates.map_values(|c: EntryCandidate| c@)
}

/// Where the helper server is below the directory that holds it.
pub open spec fn entry_steps() -> Seq<Seq<char>> {
    seq!["mcp-server"@, "dist"@, "src"@, "index.js"@]
}

/// The place of the helper server behind `detour` from `base`.
pub open spec fn entry_place(base: EntryBase, detour: Seq<Seq<char>>) -> Place {
    Place { base, steps: detour + entry_steps() }
}

/// The places in a directory and the two above it.
pub open spec fn repository_places(base: EntryBase) -> Seq<Place> {
    seq![
        entry_place(base, seq![]),
        entry_place(base, seq![".."@]),
        entry_place(base, seq![".."@, ".."@]),
    ]
}

/// All places to look at, in order.
pub open spec fn entry_places(current: bool, resources: bool, program: bool) -> Seq<Place> {
    let manifest = repository_places(EntryBase::Manifest);
    let current_places = if current {
        repository_places(EntryBase::Current)
    } else {
        seq![]
    };
    let resource_places = if resources {
        seq![entry_place(EntryBase::Resources, seq![])]
    } else {
        seq![]
    };
    let program_places = if program {
        seq![
            entry_place(EntryBase::Program, seq![]),
            entry_place(EntryBase::Program, seq![".."@, "Resources"@]),
        ]
    } else {
        seq![]
    };
    manifest + current_places + resource_places + program_places
}

fn candidate(base: EntryBase, detour: Vec<String>) -> (place: EntryCandidate)
    ensures
        place@ == entry_place(base, views(detour@)),
{
    let ghost before = views(detour@);
    let mut steps: Vec<String> = detour;
    steps.push("mcp-server".to_owned());
    steps.push("dist".to_owned());
    steps.push("src".to_owned());
    steps.push("index.js".to_owned());
    let place = EntryCandidate { base, steps };
    assert(place@.steps =~= before + entry_steps());
    place
}

fn push_repository_candidates(candidates: &mut Vec<EntryCandidate>, base: EntryBase)
    ensures
        places(final(candidates)@) == places(old(candidates)@) + repository_places(base),
{
    let here: EntryCandidate = candidate(base, Vec::new());
    let mut up: Vec<String> = Vec::new();
    up.push("..".to_owned());
    assert(views(up@) =~= seq![".."@]);
    let above: EntryCandidate = candidate(base, up);
    let mut twice: Vec<String> = Vec::new();
    twice.push("..".to_owned());
    twice.push("..".to_owned());
    assert(views(twice@) =~= seq![".."@, ".."@]);
    let further: EntryCandidate = candidate(base, twice);
    assert(here@.steps =~= entry_place(base, seq![]).steps);
    candidates.push(here);
    candidates.push(above);
    candidates.push(further);
    assert(places(candidates@) =~= places(old(candidates)@) + repository_places(base));
}

/// All places to look for the helper server at, in order, given which directories are known.
pub fn entry_candidates(current: bool, resources: bool, program: bool) -> (candidates: Vec<
    EntryCandidate,
>)
    ensures
        places(candidates@) == entry_places(current, resources, program),
{
    let mut candidates: Vec<EntryCandidate> = Vec::new();
    push_repository_candidates(&mut candidates, EntryBase::Manifest);
    assert(places(candidates@) =~= repository_places(EntryBase::Manifest));
    let ghost first = places(candidates@);
    if current {
        push_repository_candidates(&mut candidates, EntryBase::Current);
    }
    let ghost second = places(candidates@);
    if resources {
        let place: EntryCandidate = candidate(EntryBase::Resources, Vec::new());
        assert(place@.steps =~= entry_place(EntryBase::Resources, seq![]).steps);
        candidates.push(place);
        assert(places(candidates@) =~= second + seq![
            entry_place(EntryBase::Resources, seq![]),
        ]);
    }
    let ghost third = places(candidates@);
    if program {
        let here: EntryCandidate = candidate(EntryBase::Program, Vec::new());
        assert(here@.steps =~= entry_place(EntryBase::Program, seq![]).steps);
        let mut detour: Vec<String> = Vec::new();
        detour.push("..".to_owned());
        detour.push("Resources".to_owned());
        assert(views(detour@) =~= seq![".."@, "Resources"@]);
        let bundle: EntryCandidate = candidate(EntryBase::Program, detour);
        candidates.push(here);
        candidates.push(bundle);
        assert(places(candidates@) =~= third + seq![
            entry_place(EntryBase::Program, seq![]),
            entry_place(EntryBase::Program, seq![".."@, "Resources"@]),
        ]);
    }
    assert(places(candidates@) =~= entry_places(current, resources, program));
    candidates
}

/// Every place to look at is the file of the helper server.
pub proof fn law_places_are_entries(current: bool, resources: bool, program: bool)
    ensures
        forall|i: int|
            0 <= i < entry_places(current, resources, program).len() ==> ends_in_entry(
                #[trigger] entry_places(current, resources, program)[i],
            ),
{
    let none = Seq::<Seq<char>>::empty();
    assert((none + entry_steps()).skip(0) =~= entry_steps());
    assert((seq![".."@] + entry_steps()).skip(1) =~= entry_steps());
    assert((seq![".."@, ".."@] + entry_steps()).skip(2) =~= entry_steps());
    assert((seq![".."@, "Resources"@] + entry_steps()).skip(2) =~= entry_steps());
}

/// Whether a place ends in the names of the file of the helper server.
pub open spec fn ends_in_entry(place: Place) -> bool {
    place.steps.len() >= entry_steps().len() && place.steps.skip(
        place.steps.len() - entry_steps().len(),
    ) == entry_steps()
}

/// The message for a helper server that is nowhere.
pub open spec fn entry_missing() -> Seq<char> {
    "MCP server entry was not found. Run `npm run mcp:build` from the LLM Wiki repository, then reopen Settings."@
}

/// The first of the places that hold a file, given for each whether it does.
pub fn pick_entry(found: &Vec<bool>) -> (position: Result<usize, String>)
    ensures
        match position {
            Ok(i) => {
                &&& i < found.len()
                &&& found@[i as int]
                &&& forall|k: int| 0 <= k < i ==> !#[trigger] found@[k]
            },
            Err(m) => {
                &&& forall|k: int| 0 <= k < found.len() ==> !#[trigger] found@[k]
                &&& m@ == entry_missing()
                &&& m@
                    == "MCP server entry was not found. Run `npm run mcp:build` from the LLM Wiki repository, then reopen Settings."@
            },
        },
{
    let mut i: usize = 0;
    while i < found.len()
        invariant
            i <= found.len(),
            forall|k: int| 0 <= k < i ==> !#[trigger] found@[k],
        decreases found.len() - i,
    {
        if found[i] {
            return Ok(i);
        }
        i = i + 1;
    }
    Err(
        "MCP server entry was not found. Run `npm run mcp:build` from the LLM Wiki repository, then reopen Settings.".to_owned(),
    )
}

/// Places are what their directory and their steps are, in order.
pub proof fn law_places_seen(candidates: Seq<EntryCandidate>, candidate: EntryCandidate)
    ensures
        candidate@.base == candidate.base,
        candidate@.steps.len() == candidate.steps@.len(),
        forall|i: int|
            0 <= i < candidate.steps@.len() ==> #[trigger] candidate@.steps[i]
                == candidate.steps@[i]@,
        places(candidates).len() == candidates.len(),
        forall|i: int|
            0 <= i < candidates.len() ==> #[trigger] places(candidates)[i] == candidates[i]@,
{
}

/// The file of the helper server is looked for in the directory and in the two above it.
pub proof fn law_repository_places(base: EntryBase)
    ensures
        repository_places(base).len() == 3,
        forall|i: int|
            0 <= i < 3 ==> {
                let place = #[trigger] repository_places(base)[i];
                &&& place.base == base
                &&& place.steps.len() == i + 4
                &&& forall|k: int| 0 <= k < i ==> #[trigger] place.steps[k] == ".."@
                &&& place.steps[i] == "mcp-server"@
                &&& place.steps[i + 1] == "dist"@
                &&& place.steps[i + 2] == "src"@
                &&& place.steps[i + 3] == "index.js"@
            },
{
}

/// A directory that is known is looked at in its turn, and one that is not known leaves out its
/// places and no others.
pub proof fn law_places_of_known_directories(current: bool, resources: bool, program: bool)
    ensures
        ({
            let all = entry_places(current, resources, program);
            let a = if current {
                6
            } else {
                3int
            };
            let b = if resources {
                a + 1
            } else {
                a
            };
            &&& all.len() == if program {
                b + 2
            } else {
                b
            }
            &&& all.take(3) == repository_places(EntryBase::Manifest)
            &&& current ==> all.subrange(3, 6) == repository_places(EntryBase::Current)
            &&& resources ==> all[a] == repository_places(EntryBase::Resources)[0]
            &&& program ==> all[b] == repository_places(EntryBase::Program)[0]
            &&& program ==> {
                &&& all[b + 1].base == EntryBase::Program
                &&& all[b + 1].steps.len() == 6
                &&& all[b + 1].steps[0] == ".."@
                &&& all[b + 1].steps[1] == "Resources"@
                &&& all[b + 1].steps.skip(2) == repository_places(EntryBase::Program)[0].steps
            }
        }),
{
    let all = entry_places(current, resources, program);
    assert(all.take(3) =~= repository_places(EntryBase::Manifest));
    if current {
        assert(all.subrange(3, 6) =~= repository_places(EntryBase::Current));
    }
    let none = Seq::<Seq<char>>::empty();
    assert(none + entry_steps() =~= entry_steps());
    assert((seq![".."@, "Resources"@] + entry_steps()).skip(2) =~= entry_steps());
}

// ---- clients and configurations ----

/// A new client of xECM has the configuration and its ticket, knows no path and caches where it is
/// told to.
pub proof fn law_new_xecm(client: XecmClient, config: XecmConfig, cache_dir: PathBuf)
    requires
        is_new_xecm(client, config, cache_dir),
    ensures
        client.config == config,
        client.ticket == config.ticket,
        client.path_cache@.dom() == Set::<Seq<char>>::empty(),
        client.cache_dir == cache_dir,
{
    assert(client.path_cache@.dom() =~= Set::<Seq<char>>::empty());
}

/// A new client of Core Content has the configuration, its token, whole, and the session of its
/// cookies, and caches where it is told to.
pub proof fn law_new_core_content(
    client: CoreContentClient,
    config: CoreContentConfig,
    cache_dir: PathBuf,
)
    requires
        is_new_core_content(client, config, cache_dir),
    ensures
        client.config == config,
        client.csrf_token@ == config.csrf_token@,
        client.cache_dir == cache_dir,
        client.session is Some <==> session_of(config.cookies_json@, config.base_url@) is Some,
        client.session matches Some(session) ==> session_of(config.cookies_json@, config.base_url@)
            == Some(session@),
{
}

/// What is stored of a configuration has no session and is the configuration otherwise.
pub proof fn law_stored_without_session(stored: CoreContentConfig, config: CoreContentConfig)
    requires
        without_session(stored, config),
    ensures
        stored.csrf_token@.len() == 0,
        stored.cookies_json@.len() == 0,
        stored.enabled == config.enabled,
        stored.base_url == config.base_url,
        stored.folder_node_id == config.folder_node_id,
        stored.folder_name == config.folder_name,
        stored.username == config.username,
        stored.password == config.password,
        stored.poll_interval_seconds == config.poll_interval_seconds,
{
}

/// A selected folder is watched with the whole configuration, as often as it says but not more often
/// than every ten seconds, and stored without its session.
pub proof fn law_selection(selected: SelectedFolder, config: CoreContentConfig)
    requires
        is_selection(selected, config),
    ensures
        selected.message@ == "folder selected"@,
        selected.watched == config,
        without_session(selected.stored, config),
        selected.watch_seconds >= 10,
        selected.watch_seconds >= config.poll_interval_seconds,
        selected.watch_seconds == 10 || selected.watch_seconds == config.poll_interval_seconds,
{
}

/// Sources are exclusive exactly where there are not two of them.
pub proof fn law_exclusive(sources: RemoteSources)
    ensures
        sources.exclusive() <==> !(sources.xecm is Some && sources.core_content is Some),
{
}

} // verus!
