//! Slash commands: files, frontmatter and expansion.

use carter::commands::expand::{
    expand, file_refs, inject_files, inject_shell, shell_commands, shell_replacement, substitute_args, ShellEnd,
};
use carter::commands::loader::{command_name, discover, parse, parse_list, split_frontmatter};
use carter::commands::registry::{builtins, is_builtin, Scope, SlashCommand};

fn cmd(body: &str) -> SlashCommand {
    SlashCommand {
        name: "t".into(),
        description: None,
        argument_hint: None,
        allowed_tools: Vec::new(),
        model: None,
        body: body.into(),
        scope: Scope::User,
    }
}

#[test]
fn substitutes_all_arguments() {
    let c = cmd("修复：$ARGUMENTS");
    assert_eq!(expand(&c, "  登录 bug ", &vec![], &vec![]), "修复：登录 bug");
}

#[test]
fn substitutes_positional() {
    let c = cmd("scope=$1 type=$2");
    assert_eq!(expand(&c, "auth feat extra", &vec![], &vec![]), "scope=auth type=feat");
}

#[test]
fn missing_positional_becomes_empty() {
    let c = cmd("a=$1 b=$2");
    assert_eq!(expand(&c, "only", &vec![], &vec![]), "a=only b=");
}

#[test]
fn appends_raw_when_no_placeholder() {
    let c = cmd("审查这段代码");
    assert_eq!(expand(&c, "src/main.rs", &vec![], &vec![]), "审查这段代码\n\nsrc/main.rs");
}

#[test]
fn no_placeholder_no_args_unchanged() {
    let c = cmd("跑测试");
    assert_eq!(expand(&c, "", &vec![], &vec![]), "跑测试");
    assert_eq!(substitute_args("跑测试", "   "), "跑测试");
}

#[test]
fn injects_file_contents() {
    assert_eq!(file_refs("看 @note.txt 这个文件"), vec!["note.txt"]);
    let out = inject_files("看 @note.txt 这个文件", &vec![Some("hello-content".to_string())]);
    assert!(out.contains("hello-content"));
    assert!(out.contains("--- note.txt ---"));
    let out2 = inject_files("@missing.txt", &vec![None]);
    assert_eq!(out2, "@missing.txt");
    let out3 = inject_files("a@b.txt", &vec![]);
    assert_eq!(out3, "a@b.txt");
    assert!(file_refs("a@b.txt").is_empty());
}

#[test]
fn injects_shell_output() {
    assert_eq!(shell_commands("结果：!`echo hi`！"), vec!["echo hi"]);
    let done = shell_replacement(&ShellEnd::Done { stdout: "hi\n".into() });
    let out = inject_shell("结果：!`echo hi`！", &vec![done]);
    assert!(out.contains("hi"));
    assert!(!out.contains("echo"));
    let out2 = inject_shell("!`unclosed", &vec![]);
    assert_eq!(out2, "!`unclosed");
}

#[test]
fn failed_shell_commands_leave_a_note() {
    let failed = shell_replacement(&ShellEnd::Failed { stderr: "boom".into() });
    assert!(failed.contains("boom"));
    let broken = shell_replacement(&ShellEnd::Broken { error: "no shell".into() });
    assert!(broken.contains("no shell"));
}

#[test]
fn loader_parses_frontmatter_and_body() {
    let raw = "---\ndescription: 提交\nargument-hint: [scope]\nallowed-tools: [bash, read_file]\nmodel: fast\n---\n基于 $1 提交。\n";
    let cmd = parse("git:commit".into(), raw, Scope::Project);
    assert_eq!(cmd.name, "git:commit");
    assert_eq!(cmd.description.as_deref(), Some("提交"));
    assert_eq!(cmd.argument_hint.as_deref(), Some("[scope]"));
    assert_eq!(cmd.allowed_tools, vec!["bash", "read_file"]);
    assert_eq!(cmd.model.as_deref(), Some("fast"));
    assert_eq!(cmd.body, "基于 $1 提交。");
}

#[test]
fn no_frontmatter_is_all_body() {
    let cmd = parse("foo".into(), "just a prompt\n", Scope::User);
    assert!(cmd.description.is_none());
    assert_eq!(cmd.body, "just a prompt");
}

#[test]
fn unterminated_frontmatter_is_body() {
    let cmd = parse("foo".into(), "---\ndescription: x\nbody here", Scope::User);
    assert!(cmd.description.is_none());
    assert!(cmd.body.contains("description: x"));
}

#[test]
fn frontmatter_keeps_every_key() {
    let (keys, body) = split_frontmatter("---\na: 1\nb: two\n---\nrest\n");
    assert_eq!(keys, vec![("a".to_string(), "1".to_string()), ("b".to_string(), "two".to_string())]);
    assert_eq!(body.trim(), "rest");
}

#[test]
fn command_name_namespaces_subdirs() {
    let dir = "/c";
    assert_eq!(command_name(dir, "/c/git/commit.md").as_deref(), Some("git:commit"));
    assert_eq!(command_name(dir, "/c/foo.md").as_deref(), Some("foo"));
}

#[test]
fn parse_list_handles_forms() {
    assert_eq!(parse_list("[a, b]"), vec!["a", "b"]);
    assert_eq!(parse_list("bash"), vec!["bash"]);
    assert_eq!(parse_list("[]"), Vec::<String>::new());
}

#[test]
fn project_command_shadows_user_command() {
    let user = vec![parse("x".into(), "of the user", Scope::User), parse("y".into(), "other", Scope::User)];
    let project = vec![parse("x".into(), "of the project", Scope::Project)];
    let all = discover(user, project);
    assert_eq!(all.len(), 2);
    let x = all.iter().find(|c| c.name == "x").unwrap();
    assert_eq!(x.body, "of the project");
    assert_eq!(x.scope, Scope::Project);
}

#[test]
fn builtins_are_known_by_name() {
    let all = builtins();
    assert!(all.iter().all(|b| is_builtin(b.name)));
    assert!(is_builtin("help"));
    assert!(!is_builtin("no-such-command"));
}
