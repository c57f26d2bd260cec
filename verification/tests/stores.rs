use serde_json::Value;
use soa::brain;
use soa::brain::{BrainOp, BrainPlan, Memory};
use soa::config::ProjectContext;
use soa::diff::{
    collect_changes, compute, earliest_restorable_since, extract_paths, restore, snapshot,
    DiffEntry, FileState, RestorePlan, Snapshot, Watched,
};
use soa::git::{
    analyze, commits_since, digest, fetch_commit, files_touched, rev_list_args, substantial_line,
    weight, Commit, FindingKind,
};
use soa::insights::{
    extract_signals, load_git_marks, load_reflected, save_git_marks, save_reflected, Signal,
    SignalKind, EXCERPT_CHARS,
};
use soa::json::{Json, Number};
use soa::mentions::{
    clamp, expand_mentions, find_mentions, mentioned_paths, tried_paths, Found, MentionStatus,
};
use soa::model::{FunctionCall, Message, ToolCall};
use soa::reflect::{
    digest_session, digest_sessions, fit_digests, guard_lesson_wipe, lessons_covered, lessons_diff,
    mark_reflected, may_write_skill, read_lessons, replace_lessons_block, reply_object,
    same_lessons, select_sessions, sessions_in,
    select_skills, skill_file, soa_added_lines, split_lessons_block, user_prompt,
    validate_lessons, SkillProposal, LESSONS_END, LESSONS_START, MAX_LESSON_CHARS,
};
use soa::session::Session;
use soa::skills::{
    apply_skills, candidates, compose_system, entry_name, list_skills, load_skill, parse_skill,
    required_skill_error, skills_dirs, SkillFile,
};
use soa::slug::slug;
use soa::table::Table;

fn convert(v: &Value) -> Json {
    match v {
        Value::Null => Json::Null,
        Value::Bool(b) => Json::Bool(*b),
        Value::Number(n) => Json::Number(match (n.as_u64(), n.as_i64()) {
            (Some(u), _) => Number::Unsigned(u),
            (None, Some(i)) => Number::Negative(i),
            _ => Number::Decimal(n.to_string()),
        }),
        Value::String(s) => Json::Text(s.clone()),
        Value::Array(items) => Json::Array(items.iter().map(convert).collect()),
        Value::Object(map) => {
            Json::Object(map.iter().map(|(k, v)| (k.clone(), convert(v))).collect())
        }
    }
}

fn js(text: &str) -> Json {
    convert(&serde_json::from_str::<Value>(text).unwrap())
}

fn texts(items: &[&str]) -> Vec<String> {
    items.iter().map(|s| s.to_string()).collect()
}

// --- changes ---------------------------------------------------------------

#[test]
fn extracts_path_like_arguments() {
    let args = js(r#"{"path": "/a/b.rs", "content": "x", "destination": "/c/d.rs"}"#);
    assert_eq!(extract_paths(&args), vec!["/a/b.rs", "/c/d.rs"]);
    assert!(extract_paths(&Json::Text("not json".into())).is_empty());
    assert!(extract_paths(&js(r#"{"query": "hi"}"#)).is_empty());
}

#[test]
fn diff_counts_and_headers() {
    let entry = compute("fs__edit", "src/x.rs", Some("a\nb\nc\n"), Some("a\nB\nc\nd\n"));
    assert_eq!(entry.added, 2);
    assert_eq!(entry.removed, 1);
    assert!(entry.unified.contains("a/src/x.rs"));
    assert!(entry.unified.contains("+B"));
    assert!(entry.unified.contains("-b"));
}

#[test]
fn file_creation_is_all_additions() {
    let entry = compute("fs__write", "new.txt", None, Some("one\ntwo\n"));
    assert_eq!(entry.added, 2);
    assert_eq!(entry.removed, 0);
    assert!(matches!(entry.before, Snapshot::Absent));
}

fn entry(path: &str, before: Snapshot) -> DiffEntry {
    DiffEntry {
        tool: "t".into(),
        path: path.into(),
        unified: String::new(),
        added: 0,
        removed: 0,
        before,
    }
}

fn held(s: &Snapshot) -> Option<&str> {
    match s {
        Snapshot::Content(c) => Some(c.as_str()),
        _ => None,
    }
}

#[test]
fn earliest_restorable_since_dedups_by_path() {
    let diffs = vec![
        entry("a", Snapshot::Content("a0".into())),
        entry("b", Snapshot::Unavailable),
        entry("a", Snapshot::Content("a1".into())),
        entry("b", Snapshot::Content("b1".into())),
    ];
    // From the start: a's first entry wins; b's Unavailable entry is skipped
    // in favor of its later restorable one.
    let all = earliest_restorable_since(&diffs, 0);
    assert_eq!(all.len(), 2);
    assert_eq!(held(&all[0].before), Some("a0"));
    assert_eq!(held(&all[1].before), Some("b1"));
    // From index 2: only the later entries are considered.
    let since = earliest_restorable_since(&diffs, 2);
    assert_eq!(held(&since[0].before), Some("a1"));
    // Past the end: nothing.
    assert!(earliest_restorable_since(&diffs, 4).is_empty());
}

#[test]
fn legacy_entries_deserialize_as_unrestorable() {
    let entry = DiffEntry {
        tool: "t".into(),
        path: "p".into(),
        unified: String::new(),
        added: 0,
        removed: 0,
        before: Snapshot::Unavailable,
    };
    assert!(!entry.restorable());
    let state = FileState { content: None, exists: false };
    assert!(restore(&entry, &state).err().unwrap().contains("no restore data"));
}

fn file(content: &str) -> FileState {
    FileState { content: Some(content.to_string()), exists: true }
}

#[test]
fn restoring_undoes_and_can_be_undone() {
    let absent = FileState { content: None, exists: false };
    let unread = FileState { content: None, exists: true };
    let states = vec![
        ("a.txt".to_string(), file("original\n")),
        ("new.txt".to_string(), absent),
        ("blob".to_string(), unread),
    ];
    let before = snapshot(&states);
    assert_eq!(before.len(), 3);
    assert_eq!((before[0].0.as_str(), held(&before[0].1)), ("a.txt", Some("original\n")));
    assert!(before[1].0 == "new.txt" && matches!(before[1].1, Snapshot::Absent));
    assert!(before[2].0 == "blob" && matches!(before[2].1, Snapshot::Unavailable));
    let watch = |now: [Option<&str>; 3]| -> Vec<Watched> {
        before
            .iter()
            .zip(now)
            .map(|((path, before), after)| Watched {
                path: path.clone(),
                before: before.clone(),
                after: after.map(str::to_string),
            })
            .collect()
    };
    assert!(collect_changes("edit_file", &watch([Some("original\n"), None, None])).is_empty());
    let watched = watch([Some("modified\n"), Some("brand new\n"), None]);
    let entries = collect_changes("edit_file", &watched);
    assert_eq!(entries.len(), 2);
    let reverse = match restore(&entries[0], &file("modified\n")).ok().unwrap() {
        RestorePlan::Write { content, reverse } => {
            assert_eq!(content, "original\n");
            reverse
        }
        _ => panic!("an edited file is written back"),
    };
    assert_eq!(reverse.tool, "rewind");
    assert_eq!(held(&reverse.before), Some("modified\n"));
    assert!(matches!(
        restore(&entries[1], &file("brand new\n")).ok().unwrap(),
        RestorePlan::Remove { .. }
    ));
    // Restoring again changes nothing; restoring the reverse applies it anew.
    assert!(matches!(
        restore(&entries[0], &file("original\n")).ok().unwrap(),
        RestorePlan::Nothing
    ));
    assert!(matches!(
        restore(&reverse, &file("original\n")).ok().unwrap(),
        RestorePlan::Write { content, .. } if content == "modified\n"
    ));
}

// --- signals ---------------------------------------------------------------

fn session_with(history: Vec<Message>, diffs: Vec<DiffEntry>) -> Session {
    Session {
        id: "20260713-120000".to_string(),
        started_at: 0,
        updated_at: 1,
        stage: "s".to_string(),
        title: "t".to_string(),
        cwd: "/p".to_string(),
        history,
        diffs,
    }
}

fn tool_call(id: &str, name: &str) -> ToolCall {
    ToolCall {
        id: id.to_string(),
        function: FunctionCall {
            name: name.to_string(),
            arguments: Json::Text("{}".to_string()),
        },
    }
}

fn asks(calls: Vec<ToolCall>) -> Message {
    Message::Assistant { content: None, tool_calls: Some(calls), reasoning: None }
}

fn result(content: &str, id: &str) -> Message {
    Message::Tool { content: content.into(), tool_call_id: id.into() }
}

fn change(tool: &str, added: usize, removed: usize) -> DiffEntry {
    DiffEntry {
        tool: tool.into(),
        path: "src/x.rs".into(),
        unified: String::new(),
        added,
        removed,
        before: Snapshot::Absent,
    }
}

#[test]
fn extracts_denials_errors_and_rollbacks() {
    let history = vec![
        Message::User { content: "do it".into() },
        asks(vec![tool_call("1", "write_file"), tool_call("2", "grep")]),
        result("DENIED: the user declined `write_file src/x.rs`.", "1"),
        result("3 matches", "2"),
        asks(vec![tool_call("3", "edit_lines")]),
        result("ERROR: stale anchor `4:9f3a` — re-read the file.", "3"),
    ];
    let diffs = vec![change("edit_file", 1, 0), change("rewind", 0, 1)];
    let signals = extract_signals(&session_with(history, diffs));
    let kinds: Vec<(SignalKind, &str)> =
        signals.iter().map(|s| (s.kind, s.tool.as_str())).collect();
    assert_eq!(
        kinds,
        vec![
            (SignalKind::Denied, "write_file"),
            (SignalKind::ToolError, "edit_lines"),
            (SignalKind::Rollback, "rewind"),
        ]
    );
    assert!(signals[0].excerpt.starts_with("DENIED:"));
    assert_eq!(signals[0].session_id, "20260713-120000");
    // Successful tool results and plain messages yield nothing.
    assert!(extract_signals(&session_with(
        vec![Message::User { content: "hi".into() }],
        Vec::new()
    ))
    .is_empty());
}

#[test]
fn excerpts_are_squashed_and_capped() {
    let long = format!("ERROR: {}", "word ".repeat(200));
    let history = vec![asks(vec![tool_call("1", "shell")]), result(&long, "1")];
    let signals = extract_signals(&session_with(history, Vec::new()));
    assert_eq!(signals.len(), 1);
    assert!(signals[0].excerpt.chars().count() <= EXCERPT_CHARS + 1);
    assert!(!signals[0].excerpt.contains('\n'));
}

#[test]
fn marks_are_read_back() {
    let mut seen: Table<u64> = Table::new();
    seen.insert("b".to_string(), 2);
    seen.insert("a \"quoted\"".to_string(), 1);
    let raw = save_reflected(&seen);
    let back = load_reflected(Some(&raw));
    assert_eq!((back.get("b"), back.get("a \"quoted\"")), (Some(&2), Some(&1)));
    assert!(load_reflected(Some("{broken")).entries.is_empty());
    assert!(load_reflected(None).entries.is_empty());

    let mut marks: Table<String> = Table::new();
    marks.insert("/p".to_string(), "abc".to_string());
    let raw = save_git_marks(&marks);
    assert_eq!(load_git_marks(Some(&raw)).get("/p").unwrap(), "abc");
}

// --- mentions --------------------------------------------------------------

#[test]
fn finds_mentions_at_boundaries_only() {
    assert_eq!(find_mentions("see @a/b and (@c) but not user@host"), vec!["a/b", "c)"]);
    assert_eq!(find_mentions("@\"my file.txt\" end"), vec!["my file.txt"]);
    assert_eq!(find_mentions("no mentions here"), Vec::<String>::new());
}

fn look_up(prompt: &str, find: &dyn Fn(&str) -> Option<Found>) -> Table<Found> {
    let mut files = Table::new();
    for path in mentioned_paths(prompt) {
        if let Some(found) = find(&path) {
            files.insert(path, found);
        }
    }
    files
}

fn workspace(path: &str) -> Option<Found> {
    match path {
        "notes.txt" => Some(Found::File("line one\nline two\n".to_string())),
        "my file.txt" => Some(Found::File("spaced\n".to_string())),
        "sub" => Some(Found::Directory(vec!["inner.rs".to_string()])),
        _ => None,
    }
}

#[test]
fn mentioned_files_and_directories_are_attached() {
    let text = "check @notes.txt and @sub plus @ghost.rs";
    let (expanded, reports) = expand_mentions(text, &look_up(text, &workspace), 0);
    assert!(expanded.starts_with(text)); // original preserved
    assert!(expanded.contains("[Attached file: notes.txt]\n```\nline one\nline two\n```"));
    assert!(expanded.contains("[Directory listing: sub]\n- inner.rs"));
    assert_eq!(reports.len(), 3);
    assert_eq!(reports[0].status, MentionStatus::File { lines: 2, truncated: false });
    assert_eq!(reports[1].status, MentionStatus::Directory { entries: 1 });
    assert_eq!(reports[2].status, MentionStatus::NotFound);
    assert!(reports[2].describe().contains("ghost.rs"));
}

#[test]
fn mentions_may_be_quoted_or_end_a_sentence() {
    let text = "read @\"my file.txt\"!";
    let (expanded, reports) = expand_mentions(text, &look_up(text, &workspace), 0);
    assert!(expanded.contains("[Attached file: my file.txt]"));
    assert_eq!(reports[0].status, MentionStatus::File { lines: 1, truncated: false });

    // Trailing sentence punctuation retried.
    let text = "see @notes.txt.";
    let (_, reports) = expand_mentions(text, &look_up(text, &workspace), 0);
    assert_eq!(reports[0].status, MentionStatus::File { lines: 2, truncated: false });

    // Truncation.
    let text = "@notes.txt";
    let (expanded, reports) = expand_mentions(text, &look_up(text, &workspace), 5);
    assert!(expanded.contains("(truncated)"));
    assert_eq!(reports[0].status, MentionStatus::File { lines: 2, truncated: true });

    // Bare words without path characters aren't flagged.
    let text = "hey @everyone";
    let (_, reports) = expand_mentions(text, &look_up(text, &workspace), 0);
    assert!(reports.is_empty());
    assert_eq!(clamp("abcdef", 3), ("abc".to_string(), true));
}

#[test]
fn the_prompt_says_what_is_looked_up() {
    assert_eq!(tried_paths("a.rs"), vec!["a.rs"]);
    assert_eq!(tried_paths("a.rs)."), vec!["a.rs).", "a.rs"]);
    assert_eq!(mentioned_paths("@a.rs. then @b and me@host"), vec!["a.rs.", "a.rs", "b"]);
    // What the prompt does not mention is not attached, nor anything twice.
    let mut files = look_up("@notes.txt", &workspace);
    files.insert("other.txt".to_string(), Found::File("secret".to_string()));
    let (expanded, reports) = expand_mentions("@notes.txt, @notes.txt", &files, 0);
    assert_eq!(
        expanded,
        "@notes.txt, @notes.txt\n\n[Attached file: notes.txt]\n```\nline one\nline two\n```"
    );
    assert_eq!(reports.len(), 1);
    assert_eq!(expand_mentions("plain", &files, 0).0, "plain");
    // The path as it is written comes first.
    files.insert("notes.txt.".to_string(), Found::Unreadable);
    let (_, reports) = expand_mentions("@notes.txt.", &files, 0);
    assert_eq!(reports[0].status, MentionStatus::Unreadable);
    assert_eq!(reports[0].display, "notes.txt.");
}

// --- lessons ---------------------------------------------------------------

#[test]
fn parses_bare_fenced_and_wrapped_json() {
    let bare = r#"{"lessons": ["a"], "skills": [], "note": "n"}"#;
    let lessons = |reply: &str| -> Value {
        serde_json::from_str::<Value>(&reply_object(reply).ok().unwrap()).unwrap()
    };
    assert_eq!(lessons(bare)["lessons"][0], "a");
    let fenced = format!("```json\n{bare}\n```");
    assert_eq!(lessons(&fenced)["lessons"][0], "a");
    let chatty = format!("Here is my analysis:\n{bare}\nHope that helps!");
    assert_eq!(lessons(&chatty)["lessons"][0], "a");
    assert_eq!(lessons(&chatty)["note"], "n");
    assert!(lessons(r#"{"lessons": []}"#).get("skills").is_none());
    assert_eq!(reply_object("no json here").err().unwrap(), "no JSON object in the reply");
}

#[test]
fn lessons_block_roundtrip_preserves_user_content() {
    // Appending to a file with existing content.
    let user_file = "# My project\n\nHand-written notes.\n";
    let one = replace_lessons_block(user_file, &texts(&["always run cargo check"]));
    assert!(one.starts_with("# My project\n\nHand-written notes."));
    assert!(one.contains("- always run cargo check\n"));

    // Read back and replace: user content above and below survives.
    let mut with_suffix = one.clone();
    with_suffix.push_str("\nMore notes below.\n");
    assert_eq!(read_lessons(&with_suffix), vec!["always run cargo check"]);
    let two = replace_lessons_block(
        &with_suffix,
        &texts(&["prefer edit_lines", "run tests before replying"]),
    );
    assert!(two.contains("Hand-written notes."));
    assert!(two.contains("More notes below."));
    assert!(two.contains("- prefer edit_lines\n- run tests before replying\n"));
    assert!(!two.contains("always run cargo check"));
    // Exactly one managed block.
    assert_eq!(two.matches(LESSONS_START).count(), 1);

    // Empty file gets just the block; empty lessons keep the markers.
    let fresh = replace_lessons_block("", &texts(&["x"]));
    assert!(fresh.starts_with(LESSONS_START));
    let emptied = replace_lessons_block(&fresh, &Vec::new());
    assert!(emptied.contains(LESSONS_START) && emptied.contains(LESSONS_END));
    assert!(!emptied.contains("- x"));
    assert!(split_lessons_block("nothing managed").is_none());
}

#[test]
fn slugs_and_lesson_validation() {
    assert_eq!(slug("Careful Editing!"), Some("careful-editing".to_string()));
    assert_eq!(slug("--x--"), Some("x".to_string()));
    assert_eq!(slug("  "), None);
    assert_eq!(slug(&"y".repeat(80)), None);

    let lessons = validate_lessons(&vec![
        "  spaced   out  ".to_string(),
        String::new(),
        "z".repeat(500),
    ]);
    assert_eq!(lessons[0], "spaced out");
    assert_eq!(lessons.len(), 2); // the empty one is dropped
    assert!(lessons[1].chars().count() <= MAX_LESSON_CHARS + 1);
}

#[test]
fn empty_proposal_cannot_wipe_existing_lessons() {
    let existing = vec!["always run tests".to_string()];

    // An empty replacement of a non-empty list is refused...
    let (kept, refused) = guard_lesson_wipe(&existing, Vec::new());
    assert!(refused);
    assert_eq!(kept, existing);

    // ...but a real replacement, and an empty-to-empty answer, pass through.
    let (kept, refused) = guard_lesson_wipe(&existing, vec!["new rule".to_string()]);
    assert!(!refused);
    assert_eq!(kept, vec!["new rule".to_string()]);
    let (kept, refused) = guard_lesson_wipe(&Vec::new(), Vec::new());
    assert!(!refused);
    assert!(kept.is_empty());
}

fn recorded(path: &str) -> Session {
    let mut written = change("edit_file", 0, 0);
    written.path = path.to_string();
    written.unified = "--- a/src/a.rs\n+++ b/src/a.rs\n@@\n-old_line_of_code();\n+let written_by_soa = compute_from_input(x);\n+}\n".to_string();
    let mut undone = change("rewind", 0, 0);
    undone.path = "src/a.rs".to_string();
    undone.unified = "+++ b/src/a.rs\n+let rolled_back_line = never_kept();\n".to_string();
    session_with(Vec::new(), vec![written, undone])
}

#[test]
fn soa_added_lines_indexes_recorded_writes() {
    let lines = soa_added_lines(&vec![recorded("src/a.rs")]);
    // The added substantial line is indexed to its file; the removed line, the
    // header, the brace, and the rewind entry are not.
    assert_eq!(
        lines.get("let written_by_soa = compute_from_input(x);").map(String::as_str),
        Some("src/a.rs")
    );
    assert_eq!(lines.entries.len(), 1);

    // First-writer wins when the same line appears in more sessions.
    let lines = soa_added_lines(&vec![recorded("src/b.rs"), recorded("src/b.rs")]);
    assert_eq!(
        lines.get("let written_by_soa = compute_from_input(x);").unwrap(),
        "src/b.rs"
    );
}

#[test]
fn digest_names_signals_and_caps_messages() {
    let mut history = vec![Message::User { content: "fix the bug".to_string() }];
    for i in 0..10 {
        history.push(Message::User { content: format!("more {i}") });
    }
    history.push(Message::Assistant {
        content: Some("done, tests pass".to_string()),
        tool_calls: None,
        reasoning: None,
    });
    let mut session = session_with(history, Vec::new());
    session.id = "s1".to_string();
    session.stage = "implement".to_string();
    session.title = "fix the bug".to_string();
    let signals = vec![Signal {
        session_id: "s1".to_string(),
        cwd: "/p".to_string(),
        at: 1,
        kind: SignalKind::Denied,
        tool: "write_file".to_string(),
        commit: String::new(),
        excerpt: "DENIED: nope".to_string(),
    }];
    let digest = digest_session(&session, &signals);
    assert!(digest.contains("## Session s1"));
    assert!(digest.contains("user: fix the bug"));
    assert!(digest.contains("… 3 more user message(s)"));
    assert!(digest.contains("final reply: done, tests pass"));
    assert!(digest.contains("signal [denied] write_file: DENIED: nope"));
    // No signals reads as an explicit "none".
    assert!(digest_session(&session, &Vec::new()).contains("signals: none"));
}

#[test]
fn reflection_looks_at_new_sessions_once() {
    let sessions = vec![session_with(Vec::new(), Vec::new())];
    let mut seen: Table<u64> = Table::new();
    assert_eq!(select_sessions(&sessions, "/p", &seen), vec![0]);
    assert!(select_sessions(&sessions, "/elsewhere", &seen).is_empty());
    mark_reflected(&mut seen, &sessions, &vec![0]);
    assert!(select_sessions(&sessions, "/p", &seen).is_empty());
}

#[test]
fn sessions_are_taken_up_as_far_as_they_fit() {
    let failing = |id: &str, failures: usize| {
        let results = (0..failures)
            .map(|n| Message::Tool {
                content: format!("ERROR: {id} {n} {}", "x".repeat(230)),
                tool_call_id: "c".to_string(),
            })
            .collect();
        let mut session = session_with(results, Vec::new());
        session.id = id.to_string();
        session
    };
    let mut elsewhere = failing("other", 1);
    elsewhere.cwd = "/elsewhere".to_string();
    let sessions =
        sessions_in(vec![failing("a", 2), elsewhere, failing("b", 3), failing("c", 120)], "/p");
    let ids: Vec<&str> = sessions.iter().map(|session| session.id.as_str()).collect();
    assert_eq!(ids, vec!["a", "b", "c"]);

    let taken = digest_sessions(&sessions, &vec![1, 0, 2]);
    assert_eq!((taken.digested, taken.signals.len()), (2, 5));
    assert!(taken.text.find("Session b").unwrap() < taken.text.find("Session a").unwrap());
    assert!(!taken.text.contains("Session c"));
    assert_eq!(taken.signals[0].session_id, "b");
    assert_eq!(taken.signals[4].session_id, "a");
    // The first is taken whatever its length.
    let taken = digest_sessions(&sessions, &vec![2, 0]);
    assert_eq!((taken.digested, taken.signals.len()), (1, 120));
    assert_eq!(digest_sessions(&sessions, &Vec::new()).digested, 0);
}

#[test]
fn reflection_writes_only_its_own_skills() {
    let proposals = vec![
        SkillProposal {
            name: "Run Tests".to_string(),
            description: "how".to_string(),
            body: "do it".to_string(),
        },
        SkillProposal { name: "!".to_string(), description: String::new(), body: "x".to_string() },
    ];
    let chosen = select_skills(&proposals);
    assert_eq!(chosen, vec![(0, "run-tests".to_string())]);
    let file = skill_file("run-tests", &proposals[0], "2026-01-01");
    assert!(may_write_skill(Some(&file)) && may_write_skill(None));
    assert!(!may_write_skill(Some("written by hand")));
    let (added, removed) = lessons_diff(&texts(&["a", "b"]), &texts(&["b", "c"]));
    assert_eq!((added, removed), (texts(&["+ c"]), texts(&["- a"])));
    assert!(same_lessons(&texts(&["a"]), &texts(&["a"])));
    let (fitted, n) = fit_digests(&texts(&["one", "two"]));
    assert!(fitted.contains("one") && n == 2);
    assert!(user_prompt(&texts(&["keep"]), &Vec::new(), "d", None).contains("keep"));
}

// --- skills ----------------------------------------------------------------

#[test]
fn parses_frontmatter_and_body() {
    let skill = parse_skill(
        "x",
        "---\nname: renamed\ndescription: does things\n---\n\nThe body.",
        "",
    );
    assert_eq!(skill.name, "renamed");
    assert_eq!(skill.description, "does things");
    assert_eq!(skill.body, "The body.");

    let bare = parse_skill("x", "Just a body.", "");
    assert_eq!(bare.name, "x");
    assert_eq!(bare.body, "Just a body.");
    assert!(bare.description.is_empty());
}

#[test]
fn skills_are_found_and_composed() {
    let dirs = skills_dirs("/", Some("s"), "/data");
    assert!(dirs.contains(&"/s".to_string()), "{dirs:?}");
    let look = |name: &str| -> Result<soa::skills::Skill, String> {
        let files: Vec<SkillFile> = candidates(&dirs, name)
            .iter()
            .map(|path| match path.as_str() {
                "/s/flat.md" => SkillFile::Found(
                    "---\ndescription: flat skill\n---\nFLAT BODY".to_string(),
                ),
                "/s/nested/SKILL.md" => SkillFile::Found("NESTED BODY".to_string()),
                "/s/locked.md" => SkillFile::Unreadable("denied".to_string()),
                _ => SkillFile::Missing,
            })
            .collect();
        load_skill(&dirs, name, &files)
    };
    let skills = vec![look("flat").ok().unwrap(), look("nested").ok().unwrap()];
    let composed = apply_skills(Some("Base prompt.".to_string()), &skills).unwrap();
    assert!(composed.starts_with("Base prompt."));
    assert!(composed.contains("# Skill: flat\n\nFLAT BODY"));
    assert!(composed.contains("# Skill: nested\n\nNESTED BODY"));
    let contexts = vec![ProjectContext { path: "/p/SOA.md".into(), content: "Be brief.".into() }];
    let whole = compose_system(Some("Base prompt.".to_string()), &skills, &contexts).unwrap();
    assert_eq!(whole, format!("{composed}\n\n# Project instructions (/p/SOA.md)\n\nBe brief."));
    assert!(compose_system(None, &Vec::new(), &Vec::new()).is_none());
    let why = look("ghost").err().unwrap();
    assert!(required_skill_error("stage `s`", &why).contains("stage `s`"));
    assert!(look("locked").is_err());
    assert_eq!(entry_name("flat.md", false), Some("flat".to_string()));

    let listed = list_skills(vec![
        ("nested".to_string(), look("nested").ok()),
        ("flat".to_string(), look("flat").ok()),
        ("flat".to_string(), look("nested").ok()),
    ]);
    assert_eq!(
        listed.iter().map(|s| s.name.as_str()).collect::<Vec<_>>(),
        vec!["flat", "nested"]
    );
    assert_eq!(listed[0].description, "flat skill");
}

// --- memories --------------------------------------------------------------

#[test]
fn slugs() {
    assert_eq!(slug("API Retry policy!"), Some("api-retry-policy".to_string()));
    assert_eq!(slug("--x--"), Some("x".to_string()));
    assert_eq!(slug("  "), None);
    assert_eq!(slug(&"y".repeat(80)), None);
    assert!(brain::memory_slug("BRAIN").is_err());
    assert!(brain::memory_slug("brain-md").is_ok());
    // A slug has single dashes, and its own slug is itself.
    assert_eq!(slug("a - (b)__C").as_deref(), Some("a-b-c"));
    for name in ["a-b-c", "x", "9-lives"] {
        assert_eq!(slug(name).as_deref(), Some(name));
        assert_eq!(brain::memory_slug(name).ok().as_deref(), Some(name));
    }
}

#[test]
fn memories_are_written_listed_and_forgotten() {
    let args =
        js(r##"{"name": "Retry Policy", "description": "how  to retry", "content": "# body"}"##);
    let draft = match brain::dispatch(BrainOp::Write, &args) {
        BrainPlan::Write(draft) => draft,
        _ => panic!("a memory is written"),
    };
    assert_eq!(draft.slug, "retry-policy");
    let raw = brain::memory_file(&draft.slug, &draft.description, &draft.content);
    let listed = brain::list_memories(
        "/b",
        &vec![
            ("retry-policy.md".to_string(), Some(raw.clone())),
            ("BRAIN.md".to_string(), Some("index".to_string())),
            ("notes.txt".to_string(), Some("x".to_string())),
        ],
    );
    assert_eq!(listed.len(), 1);
    assert_eq!((listed[0].name.as_str(), listed[0].description.as_str()), (
        "retry-policy",
        "how to retry"
    ));
    assert!(brain::read_reply("retry-policy", Some(&raw)).contains("# body"));
    assert!(brain::read_reply("gone", None).starts_with("ERROR"));
    assert!(brain::forget_reply("gone", false).starts_with("ERROR"));
    assert!(matches!(
        brain::dispatch(BrainOp::Read, &js(r#"{"name": " "}"#)),
        BrainPlan::Reply(s) if s.starts_with("ERROR")
    ));
    assert!(brain::check_memory("x", "", "body").is_err());
    assert!(brain::check_memory("x", "d", " ").is_err());
}

#[test]
fn the_index_keeps_what_people_wrote() {
    let memory = |name: &str| Memory {
        name: name.to_string(),
        description: "d".to_string(),
        path: format!("/b/{name}.md"),
    };
    let first = brain::replace_index_block("# My notes\n", &vec![memory("a")]);
    assert!(first.starts_with("# My notes"));
    let second = brain::replace_index_block(&first, &vec![memory("b")]);
    assert!(second.starts_with("# My notes"));
    assert!(second.contains("b") && !second.contains("a.md"));
    assert_eq!(second.matches(brain::INDEX_START).count(), 1);
    assert!(brain::compose_section(&Vec::new(), "", "/b", false).is_none());
    let fresh = brain::compose_section(&Vec::new(), "", "/b", true).unwrap();
    assert!(fresh.contains("brain_write"), "{fresh}");
    assert!(fresh.contains("(no stored memories yet)"), "{fresh}");
    assert!(brain::compose_section(&vec![memory("a")], &first, "/b", true).is_some());
}

// --- history of a repository -----------------------------------------------

const ORIGINAL: &str =
    "    let retry_budget = compute_retry_budget(config, attempts, deadline);";

fn commit(hash: &str, at: u64, subject: &str, body: &str, diff: &str) -> Commit {
    Commit {
        hash: hash.into(),
        short: hash.into(),
        author: "t".into(),
        at,
        subject: subject.into(),
        body: body.into(),
        diff: diff.into(),
        co_authors: vec![],
    }
}

#[test]
fn line_filters_and_weights() {
    assert!(substantial_line("    let value = compute();"));
    assert!(!substantial_line("}"));
    assert!(!substantial_line("// ------------"));
    assert!(!substantial_line(""));
    assert_eq!(weight("short line of code"), 1);
    assert_eq!(weight(ORIGINAL), 2);

    // Boilerplate-sized single matches stay quiet: one 12-char line is below
    // the strength that counts.
    let commits = vec![
        commit("b", 2, "later", "", "+++ b/f.rs\n-use std::io;\n+use std::fs;\n"),
        commit("a", 1, "earlier", "", "+++ b/f.rs\n+use std::io;\n"),
    ];
    assert!(analyze(&commits, &Table::new()).is_empty());
}

#[test]
fn corrections_and_revisions_are_found() {
    let added = format!("+++ b/f.rs\n+{ORIGINAL}\n");
    let removed = format!("+++ b/f.rs\n-{ORIGINAL}\n+    other();\n");
    let commits = vec![commit("b", 2, "later", "", &removed), commit("a", 1, "first", "", &added)];
    let findings = analyze(&commits, &Table::new());
    assert_eq!(findings.len(), 1);
    assert_eq!((findings[0].commit, findings[0].kind), (0, FindingKind::Correction));
    let mut written: Table<String> = Table::new();
    written.insert(ORIGINAL.trim().to_string(), "f.rs".to_string());
    let alone = vec![commit("b", 2, "later", "", &removed)];
    assert!(analyze(&alone, &written)
        .iter()
        .any(|f| f.kind == FindingKind::SoaChangeRevised));
    assert!(digest(&commits, &findings, 10_000).contains("later"));
    assert_eq!(files_touched(&removed), vec![("f.rs".to_string(), 1, 1)]);
    assert_eq!(rev_list_args(Some("abc"), true, 5).last().unwrap(), "^abc");
    assert_eq!(rev_list_args(Some("abc"), false, 5).last().unwrap(), "HEAD");
    assert!(commits_since(&Vec::new()).is_empty());
    assert!(fetch_commit("").hash.is_empty());
}

#[test]
fn digests_fit_their_budget() {
    let commits = vec![
        commit("b", 2, "later", "", "+++ b/f.rs\n+two\n"),
        commit("a", 1, "first", "", "+++ b/f.rs\n+one\n"),
    ];
    let none = Vec::new();
    let oldest = "\n## Commit a — first (t)\nfiles: f.rs (+1 −0)\ndiff:\n+++ b/f.rs\n+one\n\n";
    let whole = digest(&commits, &none, 10_000);
    assert!(whole.starts_with(oldest), "{whole}");
    assert!(whole.contains("## Commit b — later (t)"), "{whole}");
    assert_eq!(digest(&commits, &none, whole.len()), whole);
    // The remark on what is left out counts, and is left out where it does
    // not fit.
    let remarked = format!("{oldest}\n… 1 older commit(s) omitted for space\n");
    assert!(remarked.len() < whole.len());
    assert_eq!(digest(&commits, &none, whole.len() - 1), remarked);
    assert_eq!(digest(&commits, &none, remarked.len()), remarked);
    assert_eq!(digest(&commits, &none, remarked.len() - 1), oldest);
    assert_eq!(
        digest(&commits, &none, oldest.len() - 1),
        "\n… 2 older commit(s) omitted for space\n"
    );
    assert_eq!(digest(&commits, &none, 0), "");
    for budget in 0..whole.len() {
        assert!(digest(&commits, &none, budget).len() <= budget);
    }
}

#[test]
fn written_skills_are_read_back_and_may_be_rewritten() {
    let proposal = SkillProposal {
        name: "Run Tests".to_string(),
        description: " run\nthem all\r".to_string(),
        body: "\n# Steps\n---\ncargo test\n\n".to_string(),
    };
    let file = skill_file("run-tests", &proposal, "2026-01-01 10:00");
    assert!(may_write_skill(Some(&file)));
    assert!(!may_write_skill(Some("by hand")));
    let skill = parse_skill("given", &file, "/skills/run-tests.md");
    assert_eq!(skill.name, "run-tests");
    assert_eq!(skill.description, "run them all");
    assert_eq!(skill.body, "# Steps\n---\ncargo test");
}

#[test]
fn memories_stay_in_their_directory() {
    assert_eq!(brain::brain_dir("/p", None), "/p/brain");
    assert_eq!(brain::brain_dir("/p", Some("notes")), "/p/notes");
    let arguments = convert(&serde_json::from_str(r#"{"name":"../../etc/Passwd"}"#).unwrap());
    assert_eq!(
        brain::affected_paths("/p/brain", BrainOp::Forget, &arguments),
        vec!["/p/brain/etc-passwd.md".to_string(), "/p/brain/BRAIN.md".to_string()]
    );
    assert!(brain::affected_paths("/p/brain", BrainOp::Read, &arguments).is_empty());
    match brain::dispatch(BrainOp::Read, &arguments) {
        BrainPlan::Read(name) => assert_eq!(name, "etc-passwd"),
        _ => panic!("a memory is read"),
    }
}

#[test]
fn lessons_reach_models_through_a_context_file() {
    let files = vec!["AGENTS.md".to_string(), "docs/SOA.md".to_string()];
    assert!(lessons_covered(&files, "/p/SOA.md"));
    assert!(!lessons_covered(&files, "/p/NOTES.md"));
    assert!(!lessons_covered(&Vec::new(), "/p/SOA.md"));
}
