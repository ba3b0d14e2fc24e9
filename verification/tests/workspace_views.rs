use dsh_launcher::file_tree::{
    build_file_tree, is_ignored_entry, shallow_node, sort_tree_nodes, tree_node, FileTreeNode, FsEntry,
};
use dsh_launcher::git_diff::{
    count_diff_lines, extract_file_diff, git_diff_files, git_diff_result, require_work_tree,
};

const DIFF: &str = "diff --git a/src/a.rs b/src/a.rs\nindex 1..2 100644\n--- a/src/a.rs\n+++ b/src/a.rs\n@@ -1,2 +1,2 @@\n-old\n+new\n+more\ndiff --git a/b.txt b/b.txt\n--- a/b.txt\n+++ b/b.txt\n-gone\n";

#[test]
fn extract_file_diff_takes_one_section() {
    let d = extract_file_diff(DIFF, "src/a.rs");
    assert!(d.starts_with("diff --git a/src/a.rs b/src/a.rs\n"));
    assert!(d.ends_with("+more\n"));
    assert!(!d.contains("b.txt"));
    let e = extract_file_diff(DIFF, "b.txt");
    assert_eq!(e, "diff --git a/b.txt b/b.txt\n--- a/b.txt\n+++ b/b.txt\n-gone\n");
    assert_eq!(extract_file_diff(DIFF, "missing"), "");
}

#[test]
fn extract_file_diff_matches_the_exact_path() {
    let full = "diff --git a/a.rs.bak b/a.rs.bak\n+x\ndiff --git a/a.rs b/a.rs\n+y\n";
    assert_eq!(extract_file_diff(full, "a.rs"), "diff --git a/a.rs b/a.rs\n+y\n");
    assert_eq!(extract_file_diff(full, "a.rs.bak"), "diff --git a/a.rs.bak b/a.rs.bak\n+x\n");
    let renamed = "diff --git a/old.rs b/new.rs\nsimilarity index 90%\n";
    assert_eq!(extract_file_diff(renamed, "old.rs"), renamed);
    assert_eq!(extract_file_diff(renamed, "new.rs"), renamed);
    assert_eq!(extract_file_diff(renamed, "new"), "");
}

#[test]
fn count_diff_lines_skips_headers() {
    assert_eq!(count_diff_lines(&extract_file_diff(DIFF, "src/a.rs")), (2, 1));
    assert_eq!(count_diff_lines("+++ x\n--- y\n+a\n-b\n-c\n"), (1, 2));
    assert_eq!(count_diff_lines(""), (0, 0));
}

#[test]
fn name_status_lists_files() {
    let files = git_diff_files("M\tsrc/a.rs\nD\tb.txt\nbogus\n", DIFF);
    assert_eq!(files.len(), 2);
    assert_eq!(files[0].status, "M");
    assert_eq!(files[0].path, "src/a.rs");
    assert_eq!((files[0].additions, files[0].deletions), (2, 1));
    assert_eq!(files[1].status, "D");
    assert_eq!((files[1].additions, files[1].deletions), (0, 1));
    let r = git_diff_result(b"  2 files changed\n", b"M\tsrc/a.rs\n", DIFF.as_bytes());
    assert_eq!(r.summary, "2 files changed");
    assert_eq!(r.files.len(), 1);
    assert_eq!(r.files[0].diff, extract_file_diff(DIFF, "src/a.rs"));
}

#[test]
fn ignored_entries() {
    assert!(is_ignored_entry(".env"));
    assert!(is_ignored_entry("node_modules"));
    assert!(is_ignored_entry("target"));
    assert!(is_ignored_entry("__pycache__"));
    assert!(!is_ignored_entry("src"));
    assert!(!is_ignored_entry("targets"));
}

fn leaf(name: &str, is_dir: bool) -> FileTreeNode {
    shallow_node(name.to_string(), format!("/r/{name}"), is_dir)
}

#[test]
fn folders_first_then_names() {
    let mut v = vec![leaf("b.txt", false), leaf("zdir", true), leaf("a.txt", false), leaf("adir", true)];
    sort_tree_nodes(&mut v);
    let names: Vec<&str> = v.iter().map(|n| n.name.as_str()).collect();
    assert_eq!(names, vec!["adir", "zdir", "a.txt", "b.txt"]);
    assert!(v[0].truncated && v[0].children.is_none());
    let root = tree_node("r".to_string(), "/r".to_string(), true, vec![leaf("b", false), leaf("a", false)]);
    let kids = root.children.unwrap();
    assert_eq!(kids[0].name, "a");
    assert!(!root.truncated);
    let file = tree_node("f".to_string(), "/r/f".to_string(), false, vec![]);
    assert!(file.children.is_none());
}

fn fs(name: &str, meta: Result<bool, String>, entries: Vec<FsEntry>) -> FsEntry {
    FsEntry { name: name.to_string(), path: format!("/r/{name}"), meta, entries }
}

#[test]
fn tree_from_listing() {
    let listing = fs(
        "r",
        Ok(true),
        vec![
            fs("z.txt", Ok(false), vec![]),
            fs("node_modules", Ok(true), vec![]),
            fs("src", Ok(true), vec![fs("main.rs", Ok(false), vec![]), fs("deep", Ok(true), vec![])]),
            fs("broken", Err("denied".to_string()), vec![]),
            fs(".hidden", Ok(false), vec![]),
            fs("a.txt", Ok(false), vec![]),
        ],
    );
    let tree = build_file_tree(&listing, 1).unwrap();
    let kids = tree.children.unwrap();
    let names: Vec<&str> = kids.iter().map(|n| n.name.as_str()).collect();
    assert_eq!(names, vec!["src", "a.txt", "z.txt"]);
    let src_kids = kids[0].children.as_ref().unwrap();
    let src_names: Vec<&str> = src_kids.iter().map(|n| n.name.as_str()).collect();
    assert_eq!(src_names, vec!["deep", "main.rs"]);
    assert!(src_kids[0].truncated && src_kids[0].children.is_none());
    assert!(!kids[0].truncated);
    let err = build_file_tree(&fs("x", Err("no such file".to_string()), vec![]), 3).unwrap_err();
    assert_eq!(err, "读取 /r/x 失败: no such file");
}

#[test]
fn outside_a_work_tree_is_refused() {
    assert_eq!(require_work_tree(false), Err("当前目录不是 Git 仓库".to_string()));
    assert_eq!(require_work_tree(true), Ok(()));
}
