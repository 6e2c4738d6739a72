use pinkbin::commands::{prune_nested_dirs, MatchedDir};
use pinkbin::tree::{analyze_summary, flatten, tree_summary, truncate_tree, TreeNode};

fn leaf(name: &str, size: u64, tag: Option<&str>) -> TreeNode {
    TreeNode {
        path: format!("/r/{name}"),
        name: name.to_string(),
        size,
        file_count: 1,
        is_dir: tag.is_some(),
        children: Vec::new(),
        scaffold_id: tag.map(|t| t.to_string()),
    }
}

fn dir(name: &str, size: u64, tag: Option<&str>, children: Vec<TreeNode>) -> TreeNode {
    TreeNode {
        path: format!("/r/{name}"),
        name: name.to_string(),
        size,
        file_count: children.len() as u64,
        is_dir: true,
        children,
        scaffold_id: tag.map(|t| t.to_string()),
    }
}

#[test]
fn small_directories_keep_all_children() {
    let root = dir("root", 6, None, vec![leaf("a", 1, None), leaf("b", 5, None)]);
    let out = truncate_tree(root, 0);
    let names: Vec<&str> = out.children.iter().map(|c| c.name.as_str()).collect();
    assert_eq!(names, ["a", "b"]);
}

#[test]
fn wide_directories_keep_tagged_first_then_largest() {
    // 25 children at depth 4: the cap there is 20.
    let mut kids = Vec::new();
    for i in 0..25u64 {
        let tag = if i == 0 || i == 24 { Some("node-modules") } else { None };
        kids.push(leaf(&format!("c{i}"), i, tag));
    }
    let out = truncate_tree(dir("deep", 300, None, kids), 4);
    assert_eq!(out.children.len(), 20);
    let names: Vec<&str> = out.children.iter().map(|c| c.name.as_str()).collect();
    // kept: both tagged (c0, c24) and the first 18 untagged (c1..c18),
    // then ordered by size, largest first
    assert_eq!(names[0], "c24");
    assert_eq!(names[1], "c18");
    assert_eq!(names[19], "c0");
    assert!(!names.contains(&"c19"));
}

#[test]
fn caps_depend_on_depth() {
    let many = |n: u64| (0..n).map(|i| leaf(&format!("x{i}"), i, None)).collect::<Vec<_>>();
    assert_eq!(truncate_tree(dir("d", 0, None, many(120)), 1).children.len(), 100);
    assert_eq!(truncate_tree(dir("d", 0, None, many(120)), 2).children.len(), 50);
    assert_eq!(truncate_tree(dir("d", 0, None, many(60)), 3).children.len(), 50);
    assert_eq!(truncate_tree(dir("d", 0, None, many(60)), 9).children.len(), 20);
    // a grandchild at depth 2 is truncated to 50
    let inner = dir("inner", 0, None, many(70));
    let outer = dir("outer", 0, None, vec![inner]);
    let out = truncate_tree(outer, 1);
    assert_eq!(out.children[0].children.len(), 50);
}

#[test]
fn flatten_lists_nodes_parents_first() {
    let root = dir(
        "root",
        10,
        None,
        vec![dir("a", 4, None, vec![leaf("a1", 4, None)]), leaf("b", 6, None)],
    );
    let with_root: Vec<String> = flatten(&root, 1).into_iter().map(|e| e.name).collect();
    assert_eq!(with_root, ["root", "a", "a1", "b"]);
    let without_root: Vec<String> = flatten(&root, 0).into_iter().map(|e| e.name).collect();
    assert_eq!(without_root, ["a", "a1", "b"]);
}

#[test]
fn summary_ranks_entries_and_topmost_matches() {
    let root = dir(
        "root",
        100,
        None,
        vec![
            dir("cache", 30, Some("browser-cache"), vec![dir("inner", 20, Some("other"), vec![])]),
            dir("proj", 60, None, vec![dir("node_modules", 50, Some("node-modules"), vec![])]),
            leaf("f", 10, None),
        ],
    );
    let s = analyze_summary(&root, 3);
    let names: Vec<&str> = s.top_dirs.iter().map(|e| e.name.as_str()).collect();
    assert_eq!(names, ["root", "proj", "node_modules"]);
    let ids: Vec<&str> = s.scaffold_matches.iter().map(|m| m.scaffold_id.as_str()).collect();
    assert_eq!(ids, ["node-modules", "browser-cache"]);
    assert_eq!(analyze_summary(&root, 0).top_dirs.len(), 0);
}

fn matched(path: &str) -> MatchedDir {
    MatchedDir {
        byte_len: path.len(),
        components: path.split('/').filter(|c| !c.is_empty()).map(|c| c.to_string()).collect(),
    }
}

#[test]
fn nested_matches_are_pruned() {
    let dirs = vec![
        matched("/p/a/node_modules/x/node_modules"),
        matched("/p/a/node_modules"),
        matched("/p/b/node_modules"),
        matched("/p/a/node_modules_old"),
    ];
    assert_eq!(prune_nested_dirs(&dirs), vec![1, 2, 3]);
}

#[test]
fn text_summary_indents_by_depth() {
    let root = dir(
        "root",
        10,
        None,
        vec![dir("a", 4, None, vec![leaf("a1", 4, None)]), leaf("b", 6, None)],
    );
    let lines = tree_summary(&root, 1);
    assert_eq!(
        lines,
        vec![
            "D root (10 bytes, 2 files)".to_string(),
            "  D a (4 bytes, 1 files)".to_string(),
            "  F b (6 bytes, 1 files)".to_string(),
        ]
    );
    assert_eq!(tree_summary(&root, 0).len(), 1);
    assert_eq!(tree_summary(&root, 2).len(), 4);
}

#[test]
fn text_summary_without_depth_limit_lists_every_node() {
    let root = dir("root", 10, None, vec![dir("a", 4, None, vec![leaf("a1", 4, None)]), leaf("b", 6, None)]);
    let lines = tree_summary(&root, usize::MAX);
    assert_eq!(lines.len(), 4);
    assert_eq!(lines[2], "    F a1 (4 bytes, 1 files)");
}
