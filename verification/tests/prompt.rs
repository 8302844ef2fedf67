//! The system prompt.

use carter::prompt::{base, project_info, BUILTIN};
use carter::session::record::GitInfo;

#[test]
fn builtin_used_when_no_file() {
    let s = base(&None, &None);
    assert!(!s.is_empty());
    assert_eq!(s, BUILTIN);
}

#[test]
fn configured_prompt_comes_before_the_usual_one() {
    assert_eq!(base(&Some("mine".into()), &Some("usual".into())), "mine");
    assert_eq!(base(&None, &Some("usual".into())), "usual");
}

#[test]
fn builtin_contains_persona_and_safety() {
    assert!(BUILTIN.contains("特工卡特"));
    assert!(BUILTIN.contains("安全红线"));
}

#[test]
fn project_info_renders_date_and_cwd() {
    let info = project_info("/tmp/x", "linux", "ws/sonnet", &None, 0);
    assert!(info.contains("1970-01-01"));
    assert!(info.contains("/tmp/x"));
    assert!(info.contains("ws/sonnet"));
    assert!(info.contains("linux"));
    assert!(!info.contains("Git："));
}

#[test]
fn project_info_includes_git_when_present() {
    let git = GitInfo { commit: "abc1234".into(), branch: "main".into() };
    let info = project_info("/tmp", "linux", "m", &Some(git), 0);
    assert!(info.contains("分支 main @ abc1234"));
}
