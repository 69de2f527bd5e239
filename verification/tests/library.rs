use openai_assistant::agent::config::Config;
use openai_assistant::agent::{plan_conv, Agent, Conv, ConvPlan};
use openai_assistant::ais::asst::{
    first_by_name, get_first_thread_msg_content, get_files_hashmap, plan_load_or_create,
    plan_upload, run_step, status_name, AsstId, AsstInfo, AsstPlan, FileId, FileIndex, OrgFile,
    RunStatus, RunStep, ThreadId, UploadPlan,
};
use openai_assistant::ais::msg::{get_text_content, MsgContent, ThreadMsg};
use openai_assistant::cmd::Cmd;
use openai_assistant::error::AgentError;
use openai_assistant::utils::files::{
    get_glob_set, join_path, keep_entry, list_files_filter, walk_depth, x_file_name,
};

fn asst(id: &str, name: Option<&str>) -> AsstInfo {
    AsstInfo { id: id.to_string(), name: name.map(|n| n.to_string()) }
}

fn org(id: &str, filename: &str) -> OrgFile {
    OrgFile { id: id.to_string(), filename: filename.to_string() }
}

fn text_msg(t: &str) -> ThreadMsg {
    ThreadMsg { content: vec![MsgContent::Text(t.to_string())] }
}

fn message_of(r: Result<String, AgentError>) -> String {
    match r {
        Ok(_) => panic!("expected an error"),
        Err(AgentError::Message(m)) => m,
        Err(AgentError::Glob(m)) => panic!("unexpected glob error {m}"),
    }
}

// --- Commands

#[test]
fn cmd_slash_commands() {
    assert!(matches!(Cmd::from_input("/q"), Cmd::Quit));
    assert!(matches!(Cmd::from_input("/r"), Cmd::RefreshAll));
    assert!(matches!(Cmd::from_input("/ra"), Cmd::RefreshAll));
    assert!(matches!(Cmd::from_input("/ri"), Cmd::RefreshInst));
    assert!(matches!(Cmd::from_input("/rf"), Cmd::RefreshFiles));
    assert!(matches!(Cmd::from_input("/rc"), Cmd::RefreshConv));
}

#[test]
fn cmd_anything_else_is_chat() {
    match Cmd::from_input("hello there") {
        Cmd::Chat(s) => assert_eq!(s, "hello there"),
        _ => panic!("expected chat"),
    }
    match Cmd::from_input("/q ") {
        Cmd::Chat(s) => assert_eq!(s, "/q "),
        _ => panic!("expected chat"),
    }
    match Cmd::from_input("") {
        Cmd::Chat(s) => assert_eq!(s, ""),
        _ => panic!("expected chat"),
    }
}

// --- Assistants

#[test]
fn first_by_name_finds_first_of_name() {
    let assts = vec![asst("a1", None), asst("a2", Some("buddy")), asst("a3", Some("buddy"))];
    assert_eq!(first_by_name(&assts, "buddy"), Some(1));
    assert_eq!(first_by_name(&assts, "other"), None);
    assert_eq!(first_by_name(&Vec::new(), "buddy"), None);
}

#[test]
fn load_or_create_reuses_existing() {
    let assts = vec![asst("a1", Some("x")), asst("a2", Some("buddy"))];
    match plan_load_or_create(&assts, "buddy", false) {
        AsstPlan::Reuse(id) => assert_eq!(id.as_str(), "a2"),
        _ => panic!("expected reuse"),
    }
}

#[test]
fn load_or_create_recreates_existing() {
    let assts = vec![asst("a2", Some("buddy")), asst("a3", Some("buddy"))];
    match plan_load_or_create(&assts, "buddy", true) {
        AsstPlan::DeleteAndCreate(id) => assert_eq!(id.as_str(), "a2"),
        _ => panic!("expected delete and create"),
    }
}

#[test]
fn load_or_create_creates_missing() {
    let assts = vec![asst("a1", Some("x"))];
    assert!(matches!(plan_load_or_create(&assts, "buddy", false), AsstPlan::Create));
    assert!(matches!(plan_load_or_create(&assts, "buddy", true), AsstPlan::Create));
}

#[test]
fn ids_keep_their_text() {
    assert_eq!(AsstId::from("asst_1".to_string()).as_str(), "asst_1");
    assert_eq!(ThreadId::from("thread_1".to_string()).as_str(), "thread_1");
    assert_eq!(FileId::from("file_1".to_string()).as_str(), "file_1");
    let conv = Conv::from(ThreadId::from("thread_9".to_string()));
    assert_eq!(conv.thread_id().as_str(), "thread_9");
}

// --- Runs and messages

#[test]
fn run_step_waits_while_running() {
    assert!(matches!(run_step(RunStatus::Queued, None), RunStep::Wait));
    assert!(matches!(run_step(RunStatus::InProgress, None), RunStep::Wait));
}

#[test]
fn run_step_reads_reply_when_completed() {
    assert!(matches!(run_step(RunStatus::Completed, None), RunStep::ReadReply));
}

#[test]
fn run_step_failed_answers_error_message() {
    match run_step(RunStatus::Failed, Some("rate limited".to_string())) {
        RunStep::Reply(t) => assert_eq!(t, "rate limited"),
        _ => panic!("expected reply"),
    }
    match run_step(RunStatus::Failed, None) {
        RunStep::Reply(t) => assert_eq!(t, "No error specified"),
        _ => panic!("expected reply"),
    }
}

#[test]
fn run_step_other_status_fails() {
    let cases = [
        (RunStatus::RequiresAction, "ERROR WHILE RUN: RequiresAction"),
        (RunStatus::Cancelling, "ERROR WHILE RUN: Cancelling"),
        (RunStatus::Cancelled, "ERROR WHILE RUN: Cancelled"),
        (RunStatus::Expired, "ERROR WHILE RUN: Expired"),
    ];
    for (status, expected) in cases {
        match run_step(status, None) {
            RunStep::Fail(e) => assert_eq!(e.message(), expected),
            _ => panic!("expected failure"),
        }
    }
}

#[test]
fn status_names() {
    assert_eq!(status_name(&RunStatus::Queued), "Queued");
    assert_eq!(status_name(&RunStatus::Completed), "Completed");
}

#[test]
fn first_thread_msg_content_takes_first_message() {
    let msgs = vec![text_msg("latest"), text_msg("older")];
    assert_eq!(get_first_thread_msg_content(msgs).ok().unwrap(), "latest");
}

#[test]
fn first_thread_msg_content_without_message() {
    assert_eq!(message_of(get_first_thread_msg_content(Vec::new())), "No message found");
}

#[test]
fn text_content_errors() {
    let empty = ThreadMsg { content: Vec::new() };
    assert_eq!(message_of(get_text_content(empty)), "No message content found");
    let image = ThreadMsg {
        content: vec![MsgContent::ImageFile("file_1".to_string()), MsgContent::Text("t".to_string())],
    };
    assert_eq!(message_of(get_text_content(image)), "Message image not supported yet");
    let text_first = ThreadMsg {
        content: vec![MsgContent::Text("t".to_string()), MsgContent::ImageFile("f".to_string())],
    };
    assert_eq!(get_text_content(text_first).ok().unwrap(), "t");
}

// --- Files

#[test]
fn file_index_insert_remove() {
    let mut idx = FileIndex::new();
    idx.insert("a.md".to_string(), FileId::from("f1".to_string()));
    idx.insert("b.md".to_string(), FileId::from("f2".to_string()));
    idx.insert("a.md".to_string(), FileId::from("f3".to_string()));
    assert_eq!(idx.remove("a.md").unwrap().as_str(), "f3");
    assert!(idx.remove("a.md").is_none());
    assert!(idx.remove("c.md").is_none());
    let values: Vec<String> = idx.into_values().iter().map(|f| f.as_str().to_string()).collect();
    assert_eq!(values, vec!["f2".to_string()]);
}

#[test]
fn file_index_values_one_per_name() {
    let mut idx = FileIndex::new();
    idx.insert("a".to_string(), FileId::from("1".to_string()));
    idx.insert("b".to_string(), FileId::from("2".to_string()));
    idx.insert("c".to_string(), FileId::from("3".to_string()));
    let mut values: Vec<String> = idx.into_values().iter().map(|f| f.as_str().to_string()).collect();
    values.sort();
    assert_eq!(values, vec!["1", "2", "3"]);
}

#[test]
fn files_hashmap_keeps_attached_files() {
    let attached = vec!["f1".to_string(), "f3".to_string()];
    let org_files = vec![org("f1", "a.md"), org("f2", "b.md"), org("f3", "c.md")];
    let mut idx = get_files_hashmap(&attached, &org_files);
    assert_eq!(idx.remove("a.md").unwrap().as_str(), "f1");
    assert!(idx.remove("b.md").is_none());
    assert_eq!(idx.remove("c.md").unwrap().as_str(), "f3");
    assert!(idx.into_values().is_empty());
}

#[test]
fn files_hashmap_later_file_of_a_name_wins() {
    let attached = vec!["f1".to_string(), "f2".to_string()];
    let org_files = vec![org("f1", "a.md"), org("f2", "a.md")];
    let mut idx = get_files_hashmap(&attached, &org_files);
    assert_eq!(idx.remove("a.md").unwrap().as_str(), "f2");
}

fn index_with(name: &str, id: &str) -> FileIndex {
    let mut idx = FileIndex::new();
    idx.insert(name.to_string(), FileId::from(id.to_string()));
    idx
}

#[test]
fn upload_keeps_existing_without_force() {
    match plan_upload(index_with("a.md", "f1"), "a.md", false) {
        UploadPlan::Keep(id) => assert_eq!(id.as_str(), "f1"),
        _ => panic!("expected keep"),
    }
}

#[test]
fn upload_replaces_existing_with_force() {
    match plan_upload(index_with("a.md", "f1"), "a.md", true) {
        UploadPlan::Replace(id) => assert_eq!(id.as_str(), "f1"),
        _ => panic!("expected replace"),
    }
}

#[test]
fn upload_new_file() {
    assert!(matches!(plan_upload(index_with("a.md", "f1"), "b.md", false), UploadPlan::Upload));
    assert!(matches!(plan_upload(FileIndex::new(), "b.md", true), UploadPlan::Upload));
}

// --- Paths and globs

#[test]
fn join_paths() {
    assert_eq!(join_path("agent", ".agent"), "agent/.agent");
    assert_eq!(join_path("agent/", ".agent"), "agent/.agent");
    assert_eq!(join_path("", "conv.json"), "conv.json");
    assert_eq!(join_path("agent", "/etc/x"), "/etc/x");
    assert_eq!(join_path("agent", ""), "agent/");
    assert_eq!(join_path("a/b", "c/d"), "a/b/c/d");
    let std_joined = std::path::Path::new("a/b").join("c/d");
    assert_eq!(std_joined.to_str().unwrap(), join_path("a/b", "c/d"));
}

#[test]
fn agent_paths() {
    let config = Config {
        name: "buddy-01".to_string(),
        model: "gpt-4".to_string(),
        instructions_file: "inst.md".to_string(),
    };
    let create = config.create_config();
    assert_eq!(create.name, "buddy-01");
    assert_eq!(create.model, "gpt-4");
    let agent = Agent::new("agent", (), AsstId::from("asst_1".to_string()), config);
    assert_eq!(agent.name(), "buddy-01");
    assert_eq!(agent.asst_id().as_str(), "asst_1");
    assert_eq!(agent.config().instructions_file, "inst.md");
    assert_eq!(agent.instructions_path(), "agent/inst.md");
    assert_eq!(agent.data_dir(), "agent/.agent");
    assert_eq!(agent.data_files_dir(), "agent/.agent/files");
    assert_eq!(agent.conv_file(), "agent/.agent/conv.json");
}

#[test]
fn walk_depth_follows_double_star() {
    assert_eq!(walk_depth(None), 1);
    assert_eq!(walk_depth(Some(&["*.rs"])), 1);
    assert_eq!(walk_depth(Some(&["*.md", "src/**/*.rs"])), 100);
    assert_eq!(walk_depth(Some(&[])), 1);
}

#[test]
fn keep_entry_rules() {
    assert!(keep_entry(true, false, None, None));
    assert!(!keep_entry(true, true, Some(false), Some(true)));
    assert!(!keep_entry(false, false, Some(true), Some(true)));
    assert!(keep_entry(false, false, Some(false), None));
    assert!(!keep_entry(false, false, None, Some(false)));
    assert!(keep_entry(false, false, None, Some(true)));
    assert!(keep_entry(false, false, None, None));
}

#[test]
fn glob_sets() {
    let set = get_glob_set(&["*.rs", "docs/**"]).ok().unwrap();
    assert!(set.is_match("main.rs"));
    assert!(set.is_match("docs/a/b.md"));
    assert!(!set.is_match("main.md"));
    match get_glob_set(&["*.rs", "a[b"]) {
        Err(AgentError::Glob(_)) => {}
        _ => panic!("expected a glob error"),
    }
}

#[test]
fn walk_filter_decides() {
    let (depth, filter) = list_files_filter(Some(&["**/*.rs"]), Some(&["**/skip.rs"])).ok().unwrap();
    assert_eq!(depth, 100);
    assert!(filter.keep(false, "src/main.rs"));
    assert!(!filter.keep(false, "src/skip.rs"));
    assert!(!filter.keep(false, "src/main.md"));
    assert!(filter.keep(true, "src"));
    assert!(!filter.keep(true, ".git"));
    assert!(!filter.keep(true, "target"));
    let (depth, filter) = list_files_filter(None, None).ok().unwrap();
    assert_eq!(depth, 1);
    assert!(filter.keep(false, "anything.txt"));
    assert!(list_files_filter(Some(&["a[b"]), None).is_err());
}

#[test]
fn error_messages() {
    assert_eq!(AgentError::Message("boom".to_string()).message(), "boom");
    assert_eq!(AgentError::Glob("bad glob".to_string()).message(), "bad glob");
}

#[test]
fn conv_plans() {
    let id = || Some(ThreadId::from("thread_1".to_string()));
    assert!(matches!(plan_conv(true, true, id()), ConvPlan::RemoveAndCreate));
    match plan_conv(false, true, id()) {
        ConvPlan::Verify(t) => assert_eq!(t.as_str(), "thread_1"),
        _ => panic!("expected verify"),
    }
    match plan_conv(true, false, id()) {
        ConvPlan::Verify(t) => assert_eq!(t.as_str(), "thread_1"),
        _ => panic!("expected verify"),
    }
    assert!(matches!(plan_conv(false, true, None), ConvPlan::Create));
    assert!(matches!(plan_conv(false, false, None), ConvPlan::Create));
}

#[test]
fn glob_set_from_single_pattern() {
    let set = get_glob_set(&["*.rs"]).ok().unwrap();
    assert!(set.is_match("main.rs"));
    assert!(!set.is_match("main.toml"));
    let empty = get_glob_set(&[]).ok().unwrap();
    assert!(!empty.is_match("main.rs"));
}

#[test]
fn walk_filter_include_and_exclude_both_match() {
    let (_, filter) = list_files_filter(Some(&["*.rs"]), Some(&["*.rs"])).ok().unwrap();
    assert!(!filter.keep(false, "main.rs"));
    let (_, filter) = list_files_filter(Some(&["*.rs"]), None).ok().unwrap();
    assert!(filter.keep(false, "main.rs"));
    assert!(!filter.keep(false, "main.toml"));
    let (_, filter) = list_files_filter(None, Some(&["*.toml"])).ok().unwrap();
    assert!(!filter.keep(false, "Cargo.toml"));
    assert!(filter.keep(false, "main.rs"));
}

#[test]
fn file_names() {
    assert_eq!(x_file_name("a/b/c.md"), "c.md");
    assert_eq!(x_file_name("c.md"), "c.md");
    assert_eq!(x_file_name("a/b/"), "b");
    assert_eq!(x_file_name("a/b/."), "b");
    assert_eq!(x_file_name("a/b//"), "b");
    assert_eq!(x_file_name("a/.."), "");
    assert_eq!(x_file_name("/"), "");
    assert_eq!(x_file_name(""), "");
    assert_eq!(x_file_name("."), "");
    assert_eq!(x_file_name("./x"), "x");
    for p in ["a/b/c.md", "a/b/", "a/b/.", "a/..", "/", "", ".", "./x", "x/./", "../y", "/z"] {
        let std_name = std::path::Path::new(p).file_name().and_then(|n| n.to_str()).unwrap_or("");
        assert_eq!(x_file_name(p), std_name, "path {p:?}");
    }
}

#[test]
fn glob_error_messages_are_globsets() {
    let expected = globset::Glob::new("a[b").err().unwrap().to_string();
    match get_glob_set(&["*.rs", "a[b", "c{d"]) {
        Err(AgentError::Glob(m)) => assert_eq!(m, expected),
        _ => panic!("expected a glob error"),
    }
    match list_files_filter(None, Some(&["a[b"])) {
        Err(AgentError::Glob(m)) => assert_eq!(m, expected),
        _ => panic!("expected a glob error"),
    }
}
