//! Memory layers and how their files are kept.

use carter::memory::layers::{
    discover, load, memory_files, next_dir, parent_path, read_capped, render, Layer, MAX_DEPTH, MAX_FILE_BYTES,
};
use carter::memory::writer::{revision_name, temp_path, to_prune, REVISION_KEEP};

#[test]
fn discovers_project_layer_and_orders_inner_last() {
    let dirs = vec!["/root/a/b".to_string(), "/root/a".to_string(), "/root".to_string()];
    let paths = memory_files(&dirs);
    let files: Vec<(String, Option<String>)> = paths
        .into_iter()
        .map(|p| {
            let content = match p.as_str() {
                "/root/CARTER.md" => Some("外层记忆".to_string()),
                "/root/a/b/CARTER.md" => Some("内层记忆".to_string()),
                _ => None,
            };
            (p, content)
        })
        .collect();
    let layers = discover(&None, &files);
    let outer = layers.iter().position(|l| l.content == "外层记忆");
    let inner = layers.iter().position(|l| l.content == "内层记忆");
    assert!(outer.is_some() && inner.is_some());
    assert!(outer.unwrap() < inner.unwrap(), "外层应在内层之前");
    let rendered = render(&layers);
    assert!(rendered.contains("外层记忆") && rendered.contains("内层记忆"));
}

#[test]
fn render_empty_is_empty() {
    assert_eq!(render(&vec![]), "");
}

#[test]
fn global_memory_comes_first() {
    let files = vec![("/p/CARTER.md".to_string(), Some("project".to_string()))];
    let layers = discover(&Some("global".to_string()), &files);
    assert_eq!(layers.len(), 2);
    assert_eq!(layers[0].content, "global");
    assert_eq!(load(&Some("global".to_string()), &files), render(&layers));
    let one = vec![Layer { label: "L".into(), content: "C".into() }];
    assert!(render(&one).contains("L") && render(&one).contains("C"));
}

#[test]
fn blank_files_are_no_layer() {
    let files = vec![("/p/CARTER.md".to_string(), Some("  \n ".to_string()))];
    assert!(discover(&None, &files).is_empty());
    assert_eq!(load(&None, &files), "");
}

#[test]
fn long_files_are_cut() {
    let long = read_capped(&Some("x".repeat(MAX_FILE_BYTES + 100))).unwrap();
    assert!(long.len() < MAX_FILE_BYTES + 100);
    assert_eq!(read_capped(&None), None);
    assert_eq!(read_capped(&Some("short".into())).as_deref(), Some("short"));
}

#[test]
fn search_climbs_to_the_repository() {
    let mut dirs = vec!["/a/b".to_string()];
    assert_eq!(next_dir(&dirs, false).as_deref(), Some("/a"));
    assert_eq!(next_dir(&dirs, true), None);
    dirs.push("/a".to_string());
    assert_eq!(next_dir(&dirs, false).as_deref(), Some("/"));
    dirs.push("/".to_string());
    assert_eq!(next_dir(&dirs, false), None);
    assert_eq!(parent_path("/a/b").as_deref(), Some("/a"));
    assert_eq!(parent_path("/"), None);
    assert_eq!(parent_path("/a/./b").as_deref(), Some("/a"));
    assert_eq!(parent_path("/./a").as_deref(), Some("/"));
    assert_eq!(parent_path("/."), None);
    assert_eq!(parent_path("a/b/.").as_deref(), Some("a"));
    assert_eq!(parent_path("./a").as_deref(), Some("."));
    assert_eq!(parent_path(".").as_deref(), Some(""));
    assert_eq!(parent_path("a").as_deref(), Some(""));
    assert_eq!(parent_path(""), None);
    for p in ["/a/./b", "//a//b//", "a/..", "././a", "/..", "a/./."] {
        let std = std::path::Path::new(p).parent().map(|x| x.to_string_lossy().into_owned());
        assert_eq!(parent_path(p), std, "{p}");
    }
}

#[test]
fn search_is_bounded() {
    let deep: Vec<String> = (0..MAX_DEPTH).map(|i| format!("/{}", "d/".repeat(20 - i))).collect();
    assert_eq!(next_dir(&deep, false), None);
}

#[test]
fn old_revisions_are_pruned() {
    let name = "CARTER.md";
    let entries: Vec<(String, u64)> =
        (0..REVISION_KEEP as u64 + 3).map(|i| (revision_name("/p/CARTER.md", i), i)).collect();
    let gone = to_prune(&entries, name);
    assert_eq!(gone.len(), 3);
    for i in 0..3u64 {
        assert!(gone.contains(&revision_name("/p/CARTER.md", i)));
    }
    assert!(to_prune(&entries, "other.md").is_empty());
}

#[test]
fn revisions_are_named_after_the_file() {
    assert!(revision_name("/p/CARTER.md", 42).starts_with("CARTER.md."));
    assert!(revision_name("/p/CARTER.md", 42).contains("42"));
    assert_eq!(temp_path("/p/CARTER.md"), "/p/CARTER.md.tmp");
    assert_eq!(temp_path("/p/notes"), "/p/notes.tmp");
}
