//! The invocation by Herdr: context, remembered viewers and the commands that are asked.

use herdr_agent_diff::command::{CommandOutput, Reply};
use herdr_agent_diff::context::{find_string, find_value, Environment, PluginContext};
use herdr_agent_diff::herdr::{
    check_target, open_or_focus, open_or_focus_tab, pane_exists, pane_info, pane_left_neighbor,
    pane_root, register_viewer, register_viewer_for, OpenProgress, OpenStep, ProcessHerdr, Query,
};
use herdr_agent_diff::path::FilePath;
use herdr_agent_diff::program::{
    handle_event, parse_command, viewer_placement, viewer_root, ProgramCommand,
};
use herdr_agent_diff::state::{
    pane_key, LookupStep, MappingRead, SearchStep, StateStore, StoredMapping, ViewerMapping,
    ViewerPlacement,
};
use serde_json::Value;
use std::collections::BTreeMap;

fn json(text: &str) -> Value {
    serde_json::from_str(text).expect("JSON")
}

#[test]
fn parses_nested_event_shapes_defensively() {
    let event = json(
        r#"{"event": {"pane": {"pane_id": "w1:p2", "foreground_cwd": "/tmp/demo"}}}"#,
    );
    let values = [Some(&event)];
    assert_eq!(find_string(&values, &["pane_id"]).as_deref(), Some("w1:p2"));
}

#[test]
fn recognizes_current_focused_pane_context_fields() {
    let context = json(
        r#"{
            "focused_pane_id": "w2:p3",
            "focused_pane_cwd": "/tmp/repository",
            "workspace_cwd": "/tmp/other-repository"
        }"#,
    );
    let values = [Some(&context)];
    assert_eq!(
        find_string(&values, &["pane_id", "target_pane_id", "focused_pane_id"]).as_deref(),
        Some("w2:p3")
    );
    assert_eq!(
        find_string(&values, &["foreground_cwd", "cwd", "focused_pane_cwd"]).as_deref(),
        Some("/tmp/repository")
    );
}

#[test]
fn keys_are_found_at_the_top_first_and_not_inside_lists() {
    let value = json(r#"{"a": {"id": "inner"}, "id": "outer", "list": [{"deep": "x"}]}"#);
    assert_eq!(find_value(&value, "id").and_then(Value::as_str), Some("outer"));
    assert!(find_value(&value, "deep").is_none());
    assert!(find_value(&json("[1]"), "id").is_none());
    // A key whose value is no text is passed over for the next key.
    let number = json(r#"{"pane_id": 7, "target_pane_id": "p"}"#);
    assert_eq!(
        find_string(&[None, Some(&number)], &["pane_id", "target_pane_id"]).as_deref(),
        Some("p")
    );
}

fn environment() -> Environment {
    Environment {
        context_json: None,
        event_json: None,
        pane_id: None,
        workspace_id: None,
        active_pane_cwd: None,
    }
}

#[test]
fn events_go_before_contexts_and_contexts_before_variables() {
    let context = PluginContext::from_env(&Environment {
        context_json: Some(r#"{"pane_id": "c", "workspace_id": "wc"}"#.to_owned()),
        event_json: Some(r#"{"pane_id": "e"}"#.to_owned()),
        pane_id: Some("v".to_owned()),
        workspace_id: Some("wv".to_owned()),
        active_pane_cwd: Some("/tmp/cwd".to_owned()),
    });
    assert_eq!(context.pane_id.as_deref(), Some("e"));
    assert_eq!(context.workspace_id.as_deref(), Some("wc"));
    assert_eq!(context.cwd, Some(FilePath::from_text("/tmp/cwd")));

    let broken = PluginContext::from_env(&Environment {
        event_json: Some("{not json".to_owned()),
        pane_id: Some("v".to_owned()),
        ..environment()
    });
    assert_eq!(broken.pane_id.as_deref(), Some("v"));
    assert!(broken.workspace_id.is_none());
    assert!(broken.cwd.is_none());
}

fn output(success: bool, stdout: &str, stderr: &str) -> Reply {
    Reply::Output(CommandOutput {
        success,
        code: Some(if success { 0 } else { 1 }),
        stdout: stdout.as_bytes().to_vec(),
        stderr: stderr.as_bytes().to_vec(),
    })
}

/// A directory of mappings in memory and a Herdr that records what it is asked.
struct Fake {
    files: BTreeMap<Vec<u8>, ViewerMapping>,
    calls: Vec<Vec<String>>,
    pane_exists: bool,
}

impl Fake {
    fn new(pane_exists: bool) -> Fake {
        Fake {
            files: BTreeMap::new(),
            calls: Vec::new(),
            pane_exists,
        }
    }

    fn answer(&mut self, arguments: Vec<String>) -> Reply {
        let is_get = arguments.first().is_some_and(|value| value == "pane")
            && arguments.get(1).is_some_and(|value| value == "get");
        self.calls.push(arguments);
        if is_get && !self.pane_exists {
            output(false, "", "")
        } else {
            output(
                true,
                r#"{"result":{"plugin_pane":{"pane":{"pane_id":"w1:p2"}}}}"#,
                "",
            )
        }
    }

    fn read(&self, path: &FilePath) -> MappingRead {
        match self.files.get(&path.bytes) {
            Some(mapping) => MappingRead::Found(mapping.clone()),
            None => MappingRead::Missing,
        }
    }

    fn list(&self) -> Vec<StoredMapping> {
        self.files
            .iter()
            .map(|(path, mapping)| StoredMapping {
                path: FilePath {
                    bytes: path.clone(),
                },
                mapping: Some(mapping.clone()),
            })
            .collect()
    }

    fn write(&mut self, store: &StateStore, mapping: &ViewerMapping, placement: ViewerPlacement) {
        let write = store.set_viewer_mapping_for(mapping, placement);
        self.files.insert(write.path.bytes, write.mapping);
    }

    fn lookup(
        &self,
        store: &StateStore,
        target: &str,
        placement: ViewerPlacement,
    ) -> Option<ViewerMapping> {
        let LookupStep::Read(path) = store.viewer_mapping_for(target, placement, &None) else {
            panic!("a lookup begins with a file")
        };
        let read = Some(self.read(&path));
        match store.viewer_mapping_for(target, placement, &read) {
            LookupStep::Done(Ok(mapping)) => mapping,
            step => panic!("unexpected step: {step:?}"),
        }
    }

    fn open(
        &mut self,
        store: &StateStore,
        context: &PluginContext,
        placement: ViewerPlacement,
    ) -> Result<(), String> {
        let mut progress = OpenProgress {
            files: None,
            mapping: None,
            presence: None,
            removal: None,
            replies: Vec::new(),
        };
        loop {
            let step = match placement {
                ViewerPlacement::Split => open_or_focus(store, context, &progress),
                ViewerPlacement::Tab => open_or_focus_tab(store, context, &progress),
            };
            match step {
                OpenStep::ListMappings(path) => {
                    assert_eq!(path, store.viewers());
                    progress.files = Some(Ok(self.list()));
                }
                OpenStep::ReadMapping(path) => {
                    progress.mapping = Some(match self.read(&path) {
                        MappingRead::Found(mapping) => Ok(Some(mapping)),
                        MappingRead::Missing => Ok(None),
                        MappingRead::Failed(error) => Err(error),
                    });
                }
                OpenStep::CheckViewer(arguments) => {
                    progress.presence = Some(self.answer(arguments));
                }
                OpenStep::RemoveMapping(path) => {
                    self.files.remove(&path.bytes);
                    progress.removal = Some(Ok(()));
                }
                OpenStep::Ask(arguments) => {
                    let reply = self.answer(arguments);
                    progress.replies.push(reply);
                }
                OpenStep::Done(result) => return result,
            }
        }
    }
}

fn context() -> PluginContext {
    PluginContext {
        pane_id: Some("w1:p1".to_owned()),
        workspace_id: Some("w1".to_owned()),
        cwd: Some(FilePath::from_text("/tmp/project")),
    }
}

fn store() -> StateStore {
    StateStore::new(FilePath::from_text("/state"))
}

fn mapping(target: &str, viewer: &str) -> ViewerMapping {
    ViewerMapping {
        target_pane_id: target.to_owned(),
        viewer_pane_id: viewer.to_owned(),
    }
}

#[test]
fn open_uses_exact_documented_plugin_pane_arguments() {
    let mut herdr = Fake::new(false);
    herdr
        .open(&store(), &context(), ViewerPlacement::Split)
        .expect("open");
    assert_eq!(
        herdr.calls[0],
        [
            "plugin",
            "pane",
            "open",
            "--plugin",
            "herdr-agent-diff",
            "--entrypoint",
            "viewer",
            "--placement",
            "split",
            "--target-pane",
            "w1:p1",
            "--direction",
            "right",
            "--env",
            "HERDR_AGENT_DIFF_TARGET_PANE=w1:p1",
            "--env",
            "HERDR_AGENT_DIFF_ROOT=/tmp/project",
            "--focus",
        ]
    );
    assert_eq!(herdr.calls[1], ["pane", "zoom", "w1:p2", "--on"]);
}

#[test]
fn open_tab_uses_tab_placement_and_keeps_split_opening_available() {
    let mut herdr = Fake::new(false);
    herdr
        .open(&store(), &context(), ViewerPlacement::Tab)
        .expect("open tab");
    assert_eq!(
        herdr.calls[0],
        [
            "plugin",
            "pane",
            "open",
            "--plugin",
            "herdr-agent-diff",
            "--entrypoint",
            "viewer",
            "--placement",
            "tab",
            "--workspace",
            "w1",
            "--env",
            "HERDR_AGENT_DIFF_TARGET_PANE=w1:p1",
            "--env",
            "HERDR_AGENT_DIFF_VIEWER_PLACEMENT=tab",
            "--env",
            "HERDR_AGENT_DIFF_ROOT=/tmp/project",
            "--focus",
        ]
    );
}

#[test]
fn split_and_tab_mappings_are_independent() {
    let store = store();
    let mut herdr = Fake::new(false);
    let split = store.set_viewer_mapping(&mapping("w1:p1", "w1:p2"));
    herdr.files.insert(split.path.bytes, split.mapping);
    herdr.write(&store, &mapping("w1:p1", "w1:p3"), ViewerPlacement::Tab);

    let LookupStep::Read(path) = store.viewer_mapping("w1:p1", &None) else {
        panic!("a lookup begins with a file")
    };
    let read = Some(herdr.read(&path));
    let LookupStep::Done(Ok(Some(found))) = store.viewer_mapping("w1:p1", &read) else {
        panic!("split")
    };
    assert_eq!(found.viewer_pane_id, "w1:p2");
    assert_eq!(
        herdr
            .lookup(&store, "w1:p1", ViewerPlacement::Tab)
            .expect("tab")
            .viewer_pane_id,
        "w1:p3"
    );
}

#[test]
fn open_focuses_live_viewer_and_replaces_stale_mapping() {
    let store = store();
    let mut live = Fake::new(true);
    live.write(&store, &mapping("w1:p1", "w1:p2"), ViewerPlacement::Split);
    live.open(&store, &context(), ViewerPlacement::Split)
        .expect("focus");
    assert_eq!(live.calls[0], ["pane", "get", "w1:p2"]);
    assert_eq!(live.calls[1], ["plugin", "pane", "focus", "w1:p2"]);
    assert_eq!(live.calls[2], ["pane", "zoom", "w1:p2", "--on"]);

    let mut missing_viewer = Fake::new(false);
    missing_viewer.files = live.files;
    missing_viewer
        .open(&store, &context(), ViewerPlacement::Split)
        .expect("replace");
    assert!(missing_viewer
        .calls
        .iter()
        .any(|call| call.get(2).is_some_and(|value| value == "open")));
    assert!(missing_viewer.files.is_empty());
}

#[test]
fn opening_fails_without_a_pane_a_workspace_or_an_answer() {
    let store = store();
    let nobody = PluginContext {
        pane_id: None,
        workspace_id: None,
        cwd: None,
    };
    assert_eq!(
        Fake::new(false).open(&store, &nobody, ViewerPlacement::Split),
        Err("Herdr did not provide an invoking pane".to_owned())
    );
    let homeless = PluginContext {
        pane_id: Some("w1:p1".to_owned()),
        workspace_id: None,
        cwd: None,
    };
    assert_eq!(
        Fake::new(false).open(&store, &homeless, ViewerPlacement::Tab),
        Err("Herdr did not provide an invoking workspace".to_owned())
    );
    let asked = |reply: Reply| {
        let progress = OpenProgress {
            files: Some(Ok(Vec::new())),
            mapping: Some(Ok(None)),
            presence: None,
            removal: None,
            replies: vec![reply],
        };
        match open_or_focus(&store, &homeless, &progress) {
            OpenStep::Done(result) => result,
            step => panic!("unexpected step: {step:?}"),
        }
    };
    assert_eq!(
        asked(output(true, r#"{"result":{}}"#, "")),
        Err("Herdr did not return the viewer pane id".to_owned())
    );
    assert_eq!(
        asked(output(false, "", "  no such plugin\n")),
        Err("Herdr command failed: no such plugin".to_owned())
    );
    assert_eq!(
        asked(Reply::Failed("not found".to_owned())),
        Err("not found".to_owned())
    );
    assert!(asked(output(true, "not json", "")).is_err());
    let unreadable = OpenProgress {
        files: Some(Ok(Vec::new())),
        mapping: Some(Err("permission denied".to_owned())),
        presence: None,
        removal: None,
        replies: Vec::new(),
    };
    assert!(matches!(
        open_or_focus(&store, &homeless, &unreadable),
        OpenStep::Done(Err(error)) if error == "permission denied"
    ));
    let unlisted = OpenProgress {
        files: Some(Err("no such directory".to_owned())),
        ..unreadable
    };
    assert!(matches!(
        open_or_focus(&store, &homeless, &unlisted),
        OpenStep::Done(Err(error)) if error == "no such directory"
    ));
}

#[test]
fn opening_inside_a_viewer_is_for_its_source_pane() {
    let store = store();
    let inside = PluginContext {
        pane_id: Some("w1:p2".to_owned()),
        ..context()
    };
    let names_viewer = |calls: &[Vec<String>]| {
        calls.iter().any(|call| {
            call.windows(2)
                .any(|pair| pair[0] == "--target-pane" && pair[1] == "w1:p2")
                || call
                    .iter()
                    .any(|word| word == "HERDR_AGENT_DIFF_TARGET_PANE=w1:p2")
        })
    };

    // The viewer is there: it is focused again.
    let mut live = Fake::new(true);
    live.write(&store, &mapping("w1:p1", "w1:p2"), ViewerPlacement::Split);
    live.open(&store, &inside, ViewerPlacement::Split).expect("focus");
    assert_eq!(
        live.calls,
        [
            vec!["pane", "get", "w1:p2"],
            vec!["plugin", "pane", "focus", "w1:p2"],
            vec!["pane", "zoom", "w1:p2", "--on"],
        ]
    );

    // The viewer is gone: another is opened beside the source pane.
    let mut gone = Fake::new(false);
    gone.write(&store, &mapping("w1:p1", "w1:p2"), ViewerPlacement::Split);
    gone.open(&store, &inside, ViewerPlacement::Split).expect("open");
    assert!(gone.files.is_empty());
    assert!(gone.calls[1].contains(&"HERDR_AGENT_DIFF_TARGET_PANE=w1:p1".to_owned()));
    assert!(!names_viewer(&gone.calls));

    // A tab that is opened inside a split is one for the source pane, too.
    let mut tab = Fake::new(true);
    tab.write(&store, &mapping("w1:p1", "w1:p2"), ViewerPlacement::Split);
    tab.open(&store, &inside, ViewerPlacement::Tab).expect("open tab");
    assert!(tab.calls[0].contains(&"HERDR_AGENT_DIFF_TARGET_PANE=w1:p1".to_owned()));
    assert!(!names_viewer(&tab.calls));

    // The calls are those of an invocation in the source pane.
    let mut outside = Fake::new(false);
    outside.write(&store, &mapping("w1:p1", "w1:p2"), ViewerPlacement::Split);
    outside.open(&store, &context(), ViewerPlacement::Split).expect("open");
    assert_eq!(gone.calls, outside.calls);
}

#[test]
fn pane_keys_hold_letters_digits_dashes_and_underscores() {
    assert_eq!(pane_key("w1:p1"), "w1_p1");
    assert_eq!(pane_key("a-b_C.9/ü"), "a-b_C_9__");
    let path = store().viewer_path("w1:p1", ViewerPlacement::Tab);
    assert_eq!(path, FilePath::from_text("/state/viewers/w1_p1.tab.json"));
    assert_eq!(ViewerPlacement::Split.as_str(), "split");
    assert_eq!(ViewerPlacement::Tab.as_str(), "tab");
    assert_eq!(ViewerPlacement::default(), ViewerPlacement::Split);
}

#[test]
fn mappings_stay_in_the_directory_of_viewers() {
    let viewers = store().viewers();
    for pane in ["../x", "a/b", "x.tab", "..", ""] {
        for placement in [ViewerPlacement::Split, ViewerPlacement::Tab] {
            let path = store().viewer_path(pane, placement);
            assert_eq!(path.parent(), Some(viewers.clone()));
        }
    }
    let name = |pane: &str| store().viewer_path(pane, ViewerPlacement::Split).file_name();
    assert_eq!(name("../x"), Some(b"___x.json".to_vec()));
    assert_eq!(name("x.tab"), Some(b"x_tab.json".to_vec()));
}

#[test]
fn closed_panes_lose_their_viewers_and_the_mappings_that_name_them() {
    let store = store();
    let mut herdr = Fake::new(false);
    herdr.write(&store, &mapping("a", "v1"), ViewerPlacement::Split);
    herdr.write(&store, &mapping("a", "v2"), ViewerPlacement::Tab);
    herdr.write(&store, &mapping("b", "a"), ViewerPlacement::Split);
    herdr.write(&store, &mapping("c", "v3"), ViewerPlacement::Split);
    for path in store.remove_pane("a", &None) {
        herdr.files.remove(&path.bytes);
    }
    assert!(matches!(
        store.mapping_for_viewer("a", &None),
        SearchStep::List(path) if path == FilePath::from_text("/state/viewers")
    ));
    assert!(matches!(
        store.mapping_for_viewer("a", &Some(Ok(herdr.list()))),
        SearchStep::Done(Ok(Some(found))) if found.target_pane_id == "b"
    ));
    assert!(matches!(
        store.mapping_for_viewer("v1", &Some(Ok(herdr.list()))),
        SearchStep::Done(Ok(None))
    ));
    assert!(matches!(
        store.mapping_for_viewer("a", &Some(Err("denied".to_owned()))),
        SearchStep::Done(Err(error)) if error == "denied"
    ));
    for path in store.remove_pane("a", &Some(herdr.list())) {
        herdr.files.remove(&path.bytes);
    }
    assert!(herdr.lookup(&store, "a", ViewerPlacement::Split).is_none());
    assert!(herdr.lookup(&store, "a", ViewerPlacement::Tab).is_none());
    assert!(herdr.lookup(&store, "b", ViewerPlacement::Split).is_none());
    assert_eq!(
        herdr
            .lookup(&store, "c", ViewerPlacement::Split)
            .expect("other mapping")
            .viewer_pane_id,
        "v3"
    );
}

#[test]
fn forgetting_a_viewer_removes_its_file_only() {
    let store = store();
    assert_eq!(
        store.remove_viewer_mapping_for("w1:p1", ViewerPlacement::Split),
        FilePath::from_text("/state/viewers/w1_p1.json")
    );
    let failed = Some(MappingRead::Failed("broken".to_owned()));
    assert!(matches!(
        store.viewer_mapping("w1:p1", &failed),
        LookupStep::Done(Err(error)) if error == "broken"
    ));
}

#[test]
fn viewers_register_under_their_own_pane() {
    let store = store();
    let write = register_viewer(&store, "w1:p1", Some("w1:p9")).expect("registered");
    assert_eq!(write.path, FilePath::from_text("/state/viewers/w1_p1.json"));
    assert_eq!(write.mapping.target_pane_id, "w1:p1");
    assert_eq!(write.mapping.viewer_pane_id, "w1:p9");
    let tab = register_viewer_for(&store, "w1:p1", Some("w1:p9"), ViewerPlacement::Tab)
        .expect("registered");
    assert_eq!(tab.path, FilePath::from_text("/state/viewers/w1_p1.tab.json"));
    assert_eq!(
        register_viewer(&store, "w1:p1", None).err(),
        Some("viewer pane id is unavailable".to_owned())
    );
}

#[test]
fn pane_roots_prefer_the_foreground_directory() {
    assert!(matches!(
        pane_root("w1:p1", &vec![]),
        Query::Ask(arguments) if arguments == ["pane", "get", "w1:p1"]
    ));
    let root = |stdout: &str| match pane_root("w1:p1", &vec![output(true, stdout, "")]) {
        Query::Done(result) => result,
        step => panic!("unexpected step: {step:?}"),
    };
    assert_eq!(
        root(r#"{"result":{"pane":{"foreground_cwd":"/a","cwd":"/b"}}}"#),
        Ok(FilePath::from_text("/a"))
    );
    assert_eq!(
        root(r#"{"result":{"pane":{"cwd":"/b"}}}"#),
        Ok(FilePath::from_text("/b"))
    );
    assert_eq!(
        root(r#"{"result":{}}"#),
        Err("Herdr pane response has no pane record".to_owned())
    );
    assert_eq!(
        root(r#"{"result":{"pane":{"foreground_cwd":3,"cwd":"/b"}}}"#),
        Err("Herdr pane has no working directory".to_owned())
    );
}

#[test]
fn panes_are_described_and_their_neighbors_named() {
    assert!(matches!(
        pane_left_neighbor("w1:p1", &vec![]),
        Query::Ask(arguments)
            if arguments == ["pane", "neighbor", "--pane", "w1:p1", "--direction", "left"]
    ));
    let neighbor = |stdout: &str| {
        match pane_left_neighbor("w1:p1", &vec![output(true, stdout, "")]) {
            Query::Done(result) => result,
            Query::Ask(arguments) => panic!("unexpected question: {arguments:?}"),
        }
    };
    assert_eq!(
        neighbor(r#"{"result":{"neighbor":{"neighbor_pane_id":"w1:p0"}}}"#),
        Ok(Some("w1:p0".to_owned()))
    );
    assert_eq!(neighbor(r#"{"result":{}}"#), Ok(None));
    let Query::Done(Ok(info)) = pane_info("w1:p1", &vec![output(true, r#"{"id":"x"}"#, "")])
    else {
        panic!("pane info")
    };
    assert_eq!(info.value.get("id").and_then(Value::as_str), Some("x"));
}

#[test]
fn a_check_that_does_not_run_says_nothing_of_the_pane() {
    assert!(pane_exists(&output(true, "", "")));
    assert!(!pane_exists(&output(false, "", "")));
    assert!(!pane_exists(&Reply::Failed("gone".to_owned())));
    assert!(matches!(
        check_target("w1:p1", &vec![output(false, "", "")]),
        Query::Done(Ok(false))
    ));
    assert!(matches!(
        check_target("w1:p1", &vec![Reply::Failed("gone".to_owned())]),
        Query::Done(Err(error)) if error == "gone"
    ));
}

#[test]
fn the_program_knows_four_commands() {
    assert_eq!(parse_command(Some("event")), Ok(ProgramCommand::Event));
    assert_eq!(parse_command(Some("open")), Ok(ProgramCommand::Open));
    assert_eq!(parse_command(Some("open-tab")), Ok(ProgramCommand::OpenTab));
    assert_eq!(parse_command(Some("view")), Ok(ProgramCommand::View));
    assert_eq!(
        parse_command(Some("close")),
        Err("unknown command: close".to_owned())
    );
    assert_eq!(
        parse_command(None),
        Err("usage: herdr-agent-diff <event|open|open-tab|view>".to_owned())
    );
    assert_eq!(
        ProcessHerdr::from_env(None).binary,
        "herdr"
    );
    assert_eq!(
        ProcessHerdr::from_env(Some("/opt/herdr".to_owned())).binary,
        "/opt/herdr"
    );
}

#[test]
fn only_closing_events_forget_a_pane() {
    assert_eq!(
        handle_event("pane.closed", &context()),
        Ok(Some("w1:p1".to_owned()))
    );
    assert_eq!(
        handle_event("pane.exited", &context()),
        Ok(Some("w1:p1".to_owned()))
    );
    assert_eq!(handle_event("pane.focused", &context()), Ok(None));
    let nobody = PluginContext {
        pane_id: None,
        ..context()
    };
    assert_eq!(
        handle_event("pane.focused", &nobody),
        Err("event did not identify a pane".to_owned())
    );
}

#[test]
fn viewers_take_a_directory_or_ask_for_one() {
    assert_eq!(viewer_placement(Some("tab")), ViewerPlacement::Tab);
    assert_eq!(viewer_placement(Some("other")), ViewerPlacement::Split);
    assert_eq!(viewer_placement(None), ViewerPlacement::Split);
    let root = || Some(FilePath::from_text("/work"));
    assert_eq!(viewer_root(root(), true), Ok(root()));
    let unavailable = Err("invoking pane workspace directory is unavailable".to_owned());
    assert_eq!(viewer_root(root(), false), unavailable);
    assert_eq!(
        viewer_root(Some(FilePath::from_text("work")), true),
        unavailable
    );
    assert_eq!(viewer_root(None, false), Ok(None));
}
