//! Skills: their files, the catalog and the tool that loads one.

use carter::json::parse_json;
use carter::skills::skill::{discover, load, parse_skill_md, render_catalog, skill_file, SkillMeta, SkillTool};

#[test]
fn mod_parses_frontmatter_and_body() {
    let raw = "---\nname: demo\ndescription: 演示 skill\nallowed-tools: read_file, bash\n---\n正文第一行\n正文第二行\n";
    let (meta, body) = parse_skill_md(raw).unwrap();
    assert_eq!(meta.name, "demo");
    assert_eq!(meta.description, "演示 skill");
    assert_eq!(meta.allowed_tools, vec!["read_file", "bash"]);
    assert_eq!(body, "正文第一行\n正文第二行");
}

#[test]
fn none_without_frontmatter() {
    assert!(parse_skill_md("没有 frontmatter 的普通 markdown").is_none());
}

#[test]
fn none_when_name_missing() {
    let raw = "---\ndescription: 无名\n---\nbody\n";
    assert!(parse_skill_md(raw).is_none());
}

#[test]
fn none_when_frontmatter_unterminated() {
    let raw = "---\nname: x\ndescription: y\nbody no end marker\n";
    assert!(parse_skill_md(raw).is_none());
}

#[test]
fn allowed_tools_optional() {
    let raw = "---\nname: x\ndescription: y\n---\nbody\n";
    let (meta, _) = parse_skill_md(raw).unwrap();
    assert!(meta.allowed_tools.is_empty());
}

#[test]
fn render_catalog_lists_entries() {
    let metas = vec![
        SkillMeta { name: "a".into(), description: "first".into(), allowed_tools: vec![] },
        SkillMeta { name: "b".into(), description: "second".into(), allowed_tools: vec![] },
    ];
    let cat = render_catalog(&metas);
    assert!(cat.contains("- a: first"));
    assert!(cat.contains("- b: second"));
}

#[test]
fn render_catalog_empty_is_empty() {
    assert_eq!(render_catalog(&vec![]), "");
}

#[test]
fn files_that_are_no_skills_are_passed_over() {
    let files = vec!["---\nname: x\ndescription: y\n---\nbody\n".to_string(), "nothing".to_string()];
    let metas = discover(&files);
    assert_eq!(metas.len(), 1);
    assert_eq!(metas[0].name, "x");
    assert!(load(None).is_none());
    assert_eq!(load(Some(files[0].clone())).unwrap().body, "body");
}

#[test]
fn tool_answers_with_the_body() {
    let tool = SkillTool::new("/skills".to_string());
    let name = match tool.asked(&parse_json(r#"{"name":"x"}"#).unwrap()) {
        Ok(n) => n,
        Err(_) => panic!("expected a name"),
    };
    assert_eq!(tool.file(&name), skill_file("/skills", "x"));
    assert_eq!(skill_file("/skills", "x"), "/skills/x/SKILL.md");
    let res = tool.answer("x", Some("---\nname: x\ndescription: y\n---\nthe body\n".to_string()));
    assert!(res.ok);
    assert!(res.content.contains("the body"));
    assert!(!tool.answer("x", None).ok);
    assert!(tool.asked(&parse_json("{}").unwrap()).is_err());
}
