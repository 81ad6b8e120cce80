use para_desktop::tree::{
    scan_tree, should_skip_dir, sort_tree_rows, vault_file_list, DirEntry, TreeNode, TreeRow,
};
use para_desktop::vault::{
    choose_root, open_tab, open_tab_from_bytes, plan_vault, starter_note, EntryKind, OpenTab, ProbedEntry,
    RootChoice, RootProbe, INBOX_SEED, INDEX_SEED, MAX_PREVIEW_BYTES,
};
use para_desktop::frontmatter::FrontmatterField;

fn file(path: &str) -> DirEntry {
    DirEntry { path: path.to_string(), is_dir: false, children: Vec::new() }
}

fn dir(path: &str, children: Vec<DirEntry>) -> DirEntry {
    DirEntry { path: path.to_string(), is_dir: true, children }
}

fn labels(nodes: &[TreeNode]) -> Vec<String> {
    nodes.iter().map(|n| n.label.clone()).collect()
}

#[test]
fn tree_sorts_by_rank_then_lowercase_name() {
    let entries = vec![
        file("/v/Zeta.md"),
        file("/v/alpha.md"),
        dir("/v/misc", vec![file("/v/misc/n.md")]),
        dir("/v/Archives", vec![]),
        dir("/v/Areas", vec![]),
        file("/v/Index.md"),
        file("/v/notes.txt"),
        dir("/v/.git", vec![file("/v/.git/x.md")]),
    ];
    let nodes = scan_tree(&entries, false);
    assert_eq!(labels(&nodes), vec!["Index.md", "Areas", "Archives", "misc", "alpha.md", "Zeta.md"]);
    assert!(nodes[1].expanded);
    assert!(!nodes[3].expanded);
    assert_eq!(nodes[3].id, "/v/misc");
    assert_eq!(labels(&nodes[3].children), vec!["n.md"]);
}

#[test]
fn tree_orders_unicode_names_by_lowercase() {
    let entries = vec![file("/v/Émile.md"), file("/v/éa.md"), file("/v/b.md")];
    let nodes = scan_tree(&entries, false);
    assert_eq!(labels(&nodes), vec!["b.md", "éa.md", "Émile.md"]);
}

#[test]
fn tree_keeps_walk_order_for_equal_names() {
    let entries = vec![file("/v/B.md"), file("/v/b.md"), file("/v/A.md")];
    let nodes = scan_tree(&entries, false);
    assert_eq!(labels(&nodes), vec!["A.md", "B.md", "b.md"]);
}

#[test]
fn walk_stops_below_the_depth_limit() {
    let mut deep = vec![file("/v/d0/d1/d2/d3/d4/d5/d6/d7/d8/deep.md")];
    let mut path = String::from("/v/d0/d1/d2/d3/d4/d5/d6/d7/d8");
    for _ in 0..9 {
        let entry = dir(&path, deep);
        deep = vec![entry];
        path = path.rsplit_once('/').unwrap().0.to_string();
    }
    let mut shallow = deep;
    shallow.push(file("/v/top.md"));
    assert_eq!(vault_file_list("/v", &shallow, false), vec!["top.md".to_string()]);

    let within = vec![dir("/v/a", vec![dir("/v/a/b", vec![file("/v/a/b/c.md")])])];
    assert_eq!(vault_file_list("/v", &within, false), vec!["a/b/c.md".to_string()]);
}

#[test]
fn file_list_is_sorted_bytewise() {
    let entries = vec![file("/v/b.md"), file("/v/B.md"), file("/v/a.MD"), file("/v/x.txt")];
    assert_eq!(
        vault_file_list("/v", &entries, false),
        vec!["B.md".to_string(), "a.MD".to_string(), "b.md".to_string()]
    );
}

#[test]
fn noise_directories() {
    assert!(should_skip_dir(".obsidian"));
    assert!(should_skip_dir("node_modules"));
    assert!(should_skip_dir("build"));
    assert!(!should_skip_dir("Projects"));
}

#[test]
fn starter_notes() {
    assert_eq!(starter_note("INBOX.md"), Some(INBOX_SEED));
    assert_eq!(starter_note("INDEX.md"), Some(INDEX_SEED));
    assert_eq!(starter_note("Projects"), None);
    assert!(INBOX_SEED.contains("# Inbox"));
    assert!(INBOX_SEED.contains("Dump first"));
    assert!(INDEX_SEED.contains("# para"));
}

#[test]
fn plan_counts_only_directories_and_files() {
    let probe = RootProbe {
        entries: vec![
            ProbedEntry { name: "Projects".to_string(), kind: EntryKind::File },
            ProbedEntry { name: "INDEX.md".to_string(), kind: EntryKind::Dir },
            ProbedEntry { name: "Areas".to_string(), kind: EntryKind::Dir },
        ],
    };
    let report = plan_vault(&probe);
    assert_eq!(report.created_dirs, vec!["Projects", "Resources", "Archives"]);
    assert_eq!(report.created_files, vec!["INBOX.md", "INDEX.md"]);
}

#[test]
fn root_resolution_order() {
    let s = |v: &str| Some(v.to_string());
    assert_eq!(
        choose_root(s("vault"), s("env"), s("/h"), None, false),
        RootChoice::Given("vault".to_string())
    );
    assert_eq!(choose_root(None, s("env"), s("/h"), None, false), RootChoice::Given("env".to_string()));
    assert_eq!(
        choose_root(None, s(""), s("/home/ada"), s("C:\\Users\\ada"), false),
        RootChoice::Home("/home/ada/para".to_string())
    );
    assert_eq!(
        choose_root(None, None, None, s("/users/ada"), false),
        RootChoice::Home("/users/ada/para".to_string())
    );
    assert_eq!(choose_root(None, None, None, None, false), RootChoice::CurrentDir);
}

#[test]
fn loading_decodes_lossily_and_truncates() {
    let tab = open_tab_from_bytes("/v/bad.md", &[b'a', 0xff, b'b'], false);
    assert_eq!(tab.content, "a\u{fffd}b");
    assert_eq!(tab.title, "bad.md");
    assert!(tab.frontmatter.is_empty());

    let big = vec![b'x'; MAX_PREVIEW_BYTES + 5];
    let tab = open_tab_from_bytes("/", &big, false);
    assert_eq!(tab.title, "untitled.md");
    assert!(tab.content.ends_with("x\n\n> Preview truncated after 1 MB.\n"));
    assert_eq!(tab.content.chars().filter(|c| *c == 'x').count(), MAX_PREVIEW_BYTES);
}

#[test]
fn excerpt_appends_fields() {
    let tab = OpenTab {
        path: "/v/a.md".to_string(),
        title: "a.md".to_string(),
        content: "Body".to_string(),
        frontmatter: vec![
            FrontmatterField { key: "due".to_string(), value: "2026-09-15".to_string() },
            FrontmatterField { key: "status".to_string(), value: "active".to_string() },
        ],
    };
    assert_eq!(tab.excerpt(), "Body\n\ndue: 2026-09-15\nstatus: active");
    let plain = OpenTab { frontmatter: Vec::new(), ..tab };
    assert_eq!(plain.excerpt(), "Body");
}

fn row(rank: u8, key: &str, label: &str) -> TreeRow {
    TreeRow {
        rank,
        key: key.chars().collect(),
        node: TreeNode { id: label.to_string(), label: label.to_string(), expanded: false, children: Vec::new() },
    }
}

#[test]
fn tree_rows_sort_by_rank_then_key_keeping_ties_in_order() {
    let rows = vec![
        row(7, "b.md", "B.md"),
        row(2, "projects", "Projects"),
        row(7, "a.md", "first-a"),
        row(7, "a.md", "second-a"),
        row(0, "inbox.md", "INBOX.md"),
    ];
    let nodes = sort_tree_rows(rows);
    assert_eq!(labels(&nodes), vec!["INBOX.md", "Projects", "first-a", "second-a", "B.md"]);
}

#[test]
fn open_tab_splits_decoded_text() {
    let tab = open_tab("/v/Projects/plan.md", "---\nid: 7\n---\n\n# Plan\nbody".to_string(), false);
    assert_eq!(tab.title, "plan.md");
    assert_eq!(tab.path, "/v/Projects/plan.md");
    assert_eq!(tab.frontmatter.len(), 1);
    assert_eq!(tab.frontmatter[0].key, "id");
    assert_eq!(tab.frontmatter[0].value, "7");
    assert_eq!(tab.content, "# Plan\nbody");
    let bare = open_tab("/", "plain".to_string(), false);
    assert_eq!(bare.title, "untitled.md");
    assert_eq!(bare.content, "plain");
}
