//! The tools: what they are asked for and what they answer.

use carter::json::{parse_json, Json};
use carter::provider::request::ToolSpec;
use carter::tools::args::{arg_bool, arg_str, arg_u64_opt, is_concurrent_safe, truncate, ToolResult};
use carter::tools::bash::{sniff_dangerous, Bash, BashEnd, BashPlan, DEFAULT_TIMEOUT_SECS};
use carter::tools::edit_file::{apply_edit, first_match_lines, nearest_match_hint, EditFile};
use carter::tools::glob_tool::{is_noisy, Glob, GlobPlan, MAX_RESULTS};
use carter::tools::grep::{Grep, GrepEnd};
use carter::tools::read_file::{ReadFile, ReadPlan};
use carter::tools::registry::{build_tools, ToolRegistry};
use carter::tools::save_memory::{
    append_bullet, build_skill_file, target_for, MemoryStep, SaveMemory, FACTS_SECTION,
};
use carter::tools::todo_write::{parse_todos, TodoStatus, TodoWrite};
use carter::tools::write_file::WriteFile;

fn js(text: &str) -> Json {
    parse_json(text).unwrap()
}

// ----- bash -----

#[test]
fn rm_rf_root_warns() {
    assert!(sniff_dangerous("rm -rf /tmp/x").is_some());
    assert!(sniff_dangerous("rm -rf /").is_some());
    assert!(sniff_dangerous("rm -rf ~/proj").is_some());
    assert!(sniff_dangerous("rm -rf *.log").is_some());
    assert!(sniff_dangerous("rm -rf .git").is_some());
}

#[test]
fn safe_rm_does_not_warn() {
    assert!(sniff_dangerous("rm a.txt").is_none());
    assert!(sniff_dangerous("rm -r build").is_none());
}

#[test]
fn dd_to_dev_warns() {
    assert!(sniff_dangerous("dd if=foo.iso of=/dev/sda bs=1M").is_some());
}

#[test]
fn mkfs_warns() {
    assert!(sniff_dangerous("mkfs.ext4 /dev/sda1").is_some());
}

#[test]
fn shutdown_warns() {
    assert!(sniff_dangerous("shutdown -h now").is_some());
    assert!(sniff_dangerous("reboot").is_some());
}

#[test]
fn benign_commands_pass() {
    assert!(sniff_dangerous("ls -la").is_none());
    assert!(sniff_dangerous("cargo build").is_none());
    assert!(sniff_dangerous("git status").is_none());
}

fn bash_plan(args: &str) -> BashPlan {
    match Bash::plan(&js(args)) {
        Ok(p) => p,
        Err(e) => panic!("{}", e.content),
    }
}

#[test]
fn bash_answers_with_the_output_and_the_exit_code() {
    let p = bash_plan(r#"{"command":"ls"}"#);
    assert_eq!(p.timeout_secs, DEFAULT_TIMEOUT_SECS);
    let res = Bash::answer(&p, &BashEnd::Exited { code: 0, success: true, stdout: "out".into(), stderr: "".into() });
    assert!(res.ok);
    assert!(res.content.contains("out"));
    let res = Bash::answer(&p, &BashEnd::Exited { code: 3, success: false, stdout: "".into(), stderr: "bad".into() });
    assert!(res.content.contains("bad") && res.content.contains('3'));
}

#[test]
fn bash_that_does_not_end_is_an_error() {
    let p = bash_plan(r#"{"command":"sleep 9","timeout_secs":2}"#);
    assert!(!Bash::answer(&p, &BashEnd::TimedOut).ok);
    assert!(!Bash::answer(&p, &BashEnd::NotSpawned { error: "e".into() }).ok);
    assert!(!Bash::answer(&p, &BashEnd::Failed { error: "e".into() }).ok);
    assert!(Bash::plan(&js("{}")).is_err());
}

// ----- edit_file -----

#[test]
fn unique_replace() {
    let (out, n) = apply_edit("hello world", "world", "rust", false).unwrap();
    assert_eq!(out, "hello rust");
    assert_eq!(n, 1);
}

#[test]
fn not_found_errors() {
    let err = apply_edit("abc", "xyz", "q", false).unwrap_err();
    assert!(err.contains("not found"));
}

#[test]
fn ambiguous_without_replace_all_errors() {
    let err = apply_edit("a a a", "a", "b", false).unwrap_err();
    assert!(err.contains("lines"), "expected line numbers, got: {err}");
}

#[test]
fn replace_all_works() {
    let (out, n) = apply_edit("a a a", "a", "b", true).unwrap();
    assert_eq!(out, "b b b");
    assert_eq!(n, 3);
}

#[test]
fn first_match_lines_finds_correct_row() {
    let text = "line1\nfoo bar\nline3\nfoo baz\nline5";
    let lines = first_match_lines(text, "foo", 5);
    assert_eq!(lines, vec![2, 4]);
    assert_eq!(first_match_lines(text, "foo", 1), vec![2]);
}

#[test]
fn nearest_match_hint_finds_typos() {
    let text = "fn render_history(ctx: &Ctx) {}\n";
    let hint = nearest_match_hint(text, "render_history_typo_long_enough");
    assert!(hint.contains("closest line"), "got: {hint}");
}

#[test]
fn nearest_match_hint_takes_the_longest_beginning() {
    let text = "render_history(a)\nlet x = render_history_typo(b)\nrender_history_typo(c)\n";
    assert_eq!(
        nearest_match_hint(text, "  render_history_typo_long_enough\nmore"),
        " — closest line 2 contains the prefix \"render_histo\""
    );
    assert_eq!(nearest_match_hint("render_hist\n", "render_history"), "");
    assert_eq!(
        nearest_match_hint("one\n  abcde\n", "abcd"),
        " — closest line 2 contains the prefix \"abcd\""
    );
}

#[test]
fn nearest_match_hint_short_query_yields_empty() {
    assert_eq!(nearest_match_hint("abc", "ab"), "");
}

#[test]
fn empty_search_text_is_refused() {
    assert!(apply_edit("abc", "", "q", false).is_err());
    assert_eq!(apply_edit("abc", "b", "b", true).unwrap(), ("abc".to_string(), 1));
}

#[test]
fn edit_is_planned_and_answered() {
    match EditFile::plan(&js(r#"{"path":"a","old_string":"x","new_string":"y","replace_all":true}"#)) {
        Ok(p) => {
            assert_eq!((p.path.as_str(), p.old.as_str(), p.new.as_str(), p.replace_all), ("a", "x", "y", true))
        }
        Err(e) => panic!("{}", e.content),
    }
    assert!(EditFile::plan(&js(r#"{"path":"a"}"#)).is_err());
    let done = EditFile::done_answer(2, "a");
    assert!(done.ok && done.content.contains('2') && done.content.contains('a'));
}

// ----- glob -----

#[test]
fn filters_node_modules_and_target() {
    assert!(is_noisy("node_modules/foo/index.js"));
    assert!(is_noisy("a/b/target/debug/x"));
    assert!(is_noisy(".git/HEAD"));
    assert!(is_noisy("project/.venv/pyvenv.cfg"));
}

#[test]
fn keeps_normal_paths() {
    assert!(!is_noisy("src/main.rs"));
    assert!(!is_noisy("docs/intro.md"));
    assert!(!is_noisy("src/targetting/foo.rs"));
    assert!(!is_noisy("notes/builder.md"));
}

#[test]
fn glob_lists_quiet_files() {
    let p = GlobPlan { pattern: "**/*".into(), include_hidden: false, include_noise: false };
    let found = vec![Some("src/a.rs".to_string()), Some("target/x".to_string()), None];
    let res = Glob::report(&p, &found);
    assert!(res.ok);
    assert!(res.content.contains("src/a.rs"));
    assert!(!res.content.contains("target/x"));
    let all = GlobPlan { pattern: "**/*".into(), include_hidden: false, include_noise: true };
    assert!(Glob::report(&all, &found).content.contains("target/x"));
    assert!(Glob::report(&p, &vec![]).content.contains("**/*"));
    assert!(!Glob::bad_pattern("oops").ok);
    assert!(Glob::plan(&js("{}")).is_err());
}

#[test]
fn glob_shows_hidden_directories_on_demand() {
    let p = match Glob::plan(&js(r#"{"pattern": "**/*", "include_hidden": true}"#)) {
        Ok(p) => p,
        Err(e) => panic!("{}", e.content),
    };
    assert!(p.include_hidden && !p.include_noise);
    let found = vec![
        Some(".venv/a".to_string()),
        Some(".git/b".to_string()),
        Some("target/c".to_string()),
        Some(".cache/target/d".to_string()),
    ];
    assert_eq!(
        Glob::report(&p, &found).content,
        ".venv/a\n[note] filtered 3 noise paths (.git/node_modules/target/...)"
    );
}

#[test]
fn glob_stops_at_its_limit() {
    let p = GlobPlan { pattern: "*".into(), include_hidden: false, include_noise: false };
    let many: Vec<Option<String>> = (0..MAX_RESULTS + 50).map(|i| Some(format!("f{i}"))).collect();
    let res = Glob::report(&p, &many);
    assert!(!res.content.contains(&format!("f{}\n", MAX_RESULTS + 40)));
}

// ----- grep -----

#[test]
fn grep_tells_no_match_from_an_error() {
    let plan = match Grep::plan(&js(r#"{"pattern":"x","path":"src","glob":"*.rs"}"#)) {
        Ok(p) => p,
        Err(e) => panic!("{}", e.content),
    };
    assert!(plan.args.iter().any(|a| a == "x"));
    assert!(plan.args.iter().any(|a| a == "src"));
    assert!(plan.args.iter().any(|a| a.contains("*.rs")));
    let hit = Grep::answer("x", &GrepEnd::Exited { code: Some(0), stdout: "a.rs:1:x".into(), stderr: "".into() });
    assert!(hit.ok && hit.content.contains("a.rs:1:x"));
    let none = Grep::answer("x", &GrepEnd::Exited { code: Some(1), stdout: "".into(), stderr: "".into() });
    assert!(none.ok && none.content.contains('x'));
    assert!(!Grep::answer("x", &GrepEnd::Exited { code: Some(2), stdout: "".into(), stderr: "bad".into() }).ok);
    assert!(!Grep::answer("x", &GrepEnd::NotRun { error: "no rg".into() }).ok);
}

// ----- files -----

#[test]
fn read_numbers_the_lines() {
    let p = ReadPlan { path: "f".into(), offset: 2, limit: 1 };
    let res = ReadFile::answer(&p, "one\ntwo\nthree\n");
    assert!(res.ok);
    assert!(res.content.contains("two"));
    assert!(!res.content.contains("one"));
    assert!(res.content.contains('2'));
}

#[test]
fn read_of_an_empty_file_says_so() {
    let p = ReadPlan { path: "f".into(), offset: 1, limit: 10 };
    assert!(ReadFile::answer(&p, "").content.contains("empty"));
    let far = ReadPlan { path: "f".into(), offset: 99, limit: 10 };
    assert!(!ReadFile::answer(&far, "one\n").content.contains("one"));
}

#[test]
fn read_is_planned() {
    match ReadFile::plan(&js(r#"{"path":"f","offset":3,"limit":4}"#)) {
        Ok(p) => assert_eq!((p.path.as_str(), p.offset, p.limit), ("f", 3, 4)),
        Err(e) => panic!("{}", e.content),
    }
    assert!(matches!(ReadFile::plan(&js(r#"{"path":"f","offset":0}"#)), Ok(p) if p.offset == 1));
    assert!(ReadFile::plan(&js("{}")).is_err());
    assert!(ReadFile::image_answer("[img:ab.png]", 3, "image/png").content.contains("[img:ab.png]"));
}

#[test]
fn write_is_planned_and_answered() {
    let p = match WriteFile::plan(&js(r#"{"path":"f","content":"abc"}"#)) {
        Ok(p) => p,
        Err(e) => panic!("{}", e.content),
    };
    assert_eq!((p.path.as_str(), p.content.as_str()), ("f", "abc"));
    let done = WriteFile::done_answer(&p);
    assert!(done.ok && done.content.contains('3') && done.content.contains('f'));
    let failed = WriteFile::failed_answer("write", "f", "denied");
    assert!(!failed.ok);
    assert!(failed.content.contains("cannot write f: denied"));
}

// ----- save_memory -----

#[test]
fn append_to_empty_creates_skeleton() {
    let out = append_bullet("", "- 用户偏好中文回答", None, "facts");
    assert!(out.contains("# Carter 记忆"));
    assert!(out.contains(FACTS_SECTION));
    assert!(out.contains("- 用户偏好中文回答"));
}

#[test]
fn append_adds_section_when_missing() {
    let out = append_bullet("# 既有记忆\n\n- 旧事实\n", "- 新事实", None, "facts");
    assert!(out.contains("- 旧事实"));
    assert!(out.contains(FACTS_SECTION));
    assert!(out.trim_end().ends_with("- 新事实"));
}

#[test]
fn append_reuses_existing_section() {
    let base = format!("# t\n\n{FACTS_SECTION}\n\n- a\n");
    let out = append_bullet(&base, "- b", None, "facts");
    assert_eq!(out.matches(FACTS_SECTION).count(), 1);
    assert!(out.contains("- a") && out.contains("- b"));
}

#[test]
fn target_for_resolves_kinds() {
    let (p, s) = target_for("/r", "facts", "project", None).unwrap();
    assert_eq!(p, "CARTER.md");
    assert_eq!(s, Some(FACTS_SECTION));

    let (p, s) = target_for("/r", "facts", "global", None).unwrap();
    assert!(p.ends_with("facts.md"));
    assert_eq!(s, None);

    let (p, _) = target_for("/r", "profile", "project", None).unwrap();
    assert!(p.ends_with("profile.md"));

    assert!(target_for("/r", "skill", "global", None).is_err());
    let (p, _) = target_for("/r", "skill", "global", Some("rust-tests".to_string())).unwrap();
    assert!(p.contains("skills"));
    assert!(p.ends_with("rust-tests.md"));

    assert!(target_for("/r", "skill", "global", Some("../etc/passwd".to_string())).is_err());
    assert!(target_for("/r", "skill", "global", Some("with space".to_string())).is_err());

    assert!(target_for("/r", "unknown", "project", None).is_err());
}

#[test]
fn build_skill_file_has_header() {
    let out = build_skill_file("rust-tests", "Step 1: cargo test\nStep 2: ...");
    assert!(out.starts_with("# Skill: rust-tests"));
    assert!(out.contains("Step 1"));
}

#[test]
fn known_facts_are_not_written_twice() {
    let plan = match SaveMemory::plan("/r", &js(r#"{"content":"run the tests"}"#)) {
        Ok(p) => p,
        Err(e) => panic!("{}", e.content),
    };
    assert_eq!(plan.path, "CARTER.md");
    let text = match SaveMemory::step(&plan, "") {
        MemoryStep::Write(t) => t,
        MemoryStep::Known(_) => panic!("nothing was known"),
    };
    assert!(text.contains("run the tests"));
    assert!(matches!(SaveMemory::step(&plan, &text), MemoryStep::Known(r) if r.ok));
    assert!(SaveMemory::written_answer(&plan, None).ok);
    assert!(!SaveMemory::written_answer(&plan, Some("denied".into())).ok);
    assert!(SaveMemory::plan("/r", &js("{}")).is_err());
}

// ----- todo_write -----

#[test]
fn parses_valid_table() {
    let args = js(r#"{"todos": [
        { "content": "build", "status": "completed", "active_form": "Building" },
        { "content": "test", "status": "in_progress", "active_form": "Testing" }
    ]}"#);
    let todos = parse_todos(&args).unwrap_or_else(|e| panic!("{e}"));
    assert_eq!(todos.len(), 2);
    assert_eq!(todos[0].status, TodoStatus::Completed);
    assert_eq!(todos[1].active_form, "Testing");
}

#[test]
fn invalid_status_errors() {
    let args = js(r#"{ "todos": [{ "content": "x", "status": "bogus" }] }"#);
    assert!(parse_todos(&args).is_err());
    assert!(!TodoWrite::execute(&args).ok);
}

#[test]
fn missing_todos_errors() {
    assert!(parse_todos(&js("{}")).is_err());
}

#[test]
fn empty_table_ok() {
    let todos = parse_todos(&js(r#"{ "todos": [] }"#)).unwrap_or_else(|e| panic!("{e}"));
    assert!(todos.is_empty());
    assert!(TodoWrite::execute(&js(r#"{ "todos": [] }"#)).ok);
}

#[test]
fn active_form_defaults_to_content() {
    let args = js(r#"{ "todos": [{ "content": "do thing", "status": "pending" }] }"#);
    let todos = parse_todos(&args).unwrap_or_else(|e| panic!("{e}"));
    assert_eq!(todos[0].active_form, "do thing");
}

// ----- the set of tools -----

#[test]
fn unknown_tools_are_refused() {
    let reg = ToolRegistry::builtin();
    assert!(reg.dispatch("bash").is_ok());
    assert!(matches!(reg.dispatch("nope"), Err(r) if !r.ok && r.content.contains("nope")));
    assert!(ToolRegistry::empty().dispatch("bash").is_err());
}

#[test]
fn builtin_tools_have_names_of_their_own() {
    let specs = ToolRegistry::builtin().specs();
    for (i, a) in specs.iter().enumerate() {
        assert!(specs.iter().skip(i + 1).all(|b| b.name != a.name));
        assert!(a.parameters.get_str("type").as_deref() == Some("object"));
    }
}

#[test]
fn sub_agents_do_not_start_sub_agents() {
    let mcp = vec![ToolSpec { name: "mcp__x".into(), description: "d".into(), parameters: js("{}") }];
    let (main, child) = build_tools(true, true, &mcp);
    assert!(main.dispatch("task").is_ok());
    assert!(child.dispatch("task").is_err());
    assert!(main.dispatch("mcp__x").is_ok());
    let (plain, _) = build_tools(false, false, &vec![]);
    assert!(plain.dispatch("skill").is_err());
    assert!(plain.dispatch("ask_user_question").is_err());
}

#[test]
fn arguments_are_read() {
    let a = js(r#"{"s":"x","n":3,"b":true}"#);
    assert!(matches!(arg_str(&a, "s"), Ok(s) if s == "x"));
    assert!(matches!(arg_str(&a, "n"), Err(ToolResult { ok: false, .. })));
    assert_eq!(arg_u64_opt(&a, "n"), Some(3));
    assert_eq!(arg_u64_opt(&a, "s"), None);
    assert!(arg_bool(&a, "b"));
    assert!(!arg_bool(&a, "missing"));
}

#[test]
fn long_output_is_truncated_at_a_character() {
    assert_eq!(truncate("abc", 5), "abc");
    let cut = truncate("中文测试", 4);
    assert!(cut.starts_with('中'));
    assert!(!cut.contains('测'));
}

#[test]
fn reading_tools_may_run_together() {
    assert!(is_concurrent_safe("read_file"));
    assert!(is_concurrent_safe("grep"));
    assert!(!is_concurrent_safe("bash"));
    assert!(!is_concurrent_safe("write_file"));
    assert!(is_concurrent_safe("save_memory"));
    assert!(!is_concurrent_safe("edit_file"));
    assert!(!is_concurrent_safe("task"));
    assert!(!is_concurrent_safe("mcp__s__t"));
}

#[test]
fn results_tell_the_model_of_errors() {
    assert_eq!(ToolResult::ok("fine".into()).to_model_string(), "fine");
    let e = ToolResult::err("broken".into()).to_model_string();
    assert!(e.contains("broken"));
    assert_ne!(e, "broken");
}
