use para_desktop::agent::{reply, AgentContext};
use para_desktop::paths::display_path;
use para_desktop::tabs::Tabs;
use para_desktop::tree::{scan_tree, vault_file_list, DirEntry};
use para_desktop::vault::{
    choose_root, classify_path, default_open_path, default_user_vault, file_name, is_markdown,
    open_tab, EntryKind, OpenTab, ParaKind, ProbedEntry, RootChoice, RootProbe,
};

#[test]
fn windows_paths_are_classified_by_their_components() {
    let root = "C:\\Users\\ada\\para";
    assert_eq!(classify_path(root, "C:\\Users\\ada\\para\\INBOX.md", true), ParaKind::Inbox);
    assert_eq!(classify_path("C:\\notes", "C:/notes/Projects/ship.md", true), ParaKind::Project);
    assert_eq!(classify_path("c:\\notes", "C:\\notes\\Areas\\a.md", true), ParaKind::Area);
    assert_eq!(
        classify_path("\\\\srv\\share\\vault", "\\\\srv\\share\\vault\\Resources\\r.md", true),
        ParaKind::Resource
    );
    assert_eq!(classify_path(root, "D:\\para\\Projects\\x.md", true), ParaKind::Note);
    assert_eq!(classify_path(root, "C:\\Users\\ada\\para\\INBOX.md", false), ParaKind::Note);
}

#[test]
fn windows_file_names() {
    assert_eq!(file_name("C:\\notes\\INBOX.md", true), "INBOX.md");
    assert_eq!(file_name("a/b.md", true), "b.md");
    assert_eq!(file_name("C:\\", true), "");
    assert_eq!(file_name("C:", true), "");
    assert_eq!(file_name("\\\\?\\C:\\a\\.", true), "");
    assert_eq!(file_name("C:\\notes\\INBOX.md", false), "C:\\notes\\INBOX.md");
    assert!(is_markdown("C:\\n\\x.MD", true));
    assert!(!is_markdown("C:\\n\\x.txt", true));
}

#[test]
fn windows_paths_are_shown_below_the_root() {
    assert_eq!(display_path("C:\\notes", "C:\\notes\\Projects\\ship.md", true), "Projects/ship.md");
    assert_eq!(display_path("C:\\notes", "C:\\notes\\a//b.md", true), "a//b.md");
    assert_eq!(display_path("C:\\notes", "D:\\x\\a.md", true), "D:/x/a.md");
    assert_eq!(display_path("C:", "C:\\a\\b.md", true), "/a/b.md");
    assert_eq!(display_path("\\\\srv\\sh", "\\\\srv\\sh\\v\\n.md", true), "v/n.md");
}

#[test]
fn windows_joins_use_backslashes() {
    assert_eq!(default_user_vault("C:\\Users\\ada", true), "C:\\Users\\ada\\para");
    assert_eq!(default_user_vault("C:\\Users\\ada\\", true), "C:\\Users\\ada\\para");
    assert_eq!(default_user_vault("C:", true), "C:para");
    assert_eq!(default_user_vault("\\\\?\\C:\\x\\.\\y", true), "\\\\?\\C:\\x\\.\\y\\para");
    let probe = RootProbe {
        entries: vec![ProbedEntry { name: "INBOX.md".to_string(), kind: EntryKind::File }],
    };
    assert_eq!(default_open_path("C:\\v", &probe, true), Some("C:\\v\\INBOX.md".to_string()));
    match choose_root(None, None, Some("C:\\Users\\ada".to_string()), None, true) {
        RootChoice::Home(p) => assert_eq!(p, "C:\\Users\\ada\\para"),
        other => panic!("{other:?}"),
    }
}

#[test]
fn windows_tabs_and_tree() {
    let mut tabs = Tabs::new();
    tabs.push(OpenTab {
        path: "C:\\v\\a.md".to_string(),
        title: "a.md".to_string(),
        content: String::new(),
        frontmatter: Vec::new(),
    });
    assert_eq!(tabs.position("c:/v/a.md", true), Some(0));
    assert_eq!(tabs.position("C:\\v\\A.md", true), None);
    assert_eq!(open_tab("C:\\v\\n.md", String::new(), true).title, "n.md");

    let entries = vec![
        DirEntry {
            path: "C:\\v\\Projects".to_string(),
            is_dir: true,
            children: vec![DirEntry {
                path: "C:\\v\\Projects\\s.md".to_string(),
                is_dir: false,
                children: Vec::new(),
            }],
        },
        DirEntry { path: "C:\\v\\INBOX.md".to_string(), is_dir: false, children: Vec::new() },
    ];
    let nodes = scan_tree(&entries, true);
    let labels: Vec<String> = nodes.iter().map(|n| n.label.clone()).collect();
    assert_eq!(labels, vec!["INBOX.md", "Projects"]);
    assert!(nodes[1].expanded);
    assert_eq!(vault_file_list("C:\\v", &entries, true), vec!["INBOX.md", "Projects/s.md"]);
}

#[test]
fn windows_assistant_shows_the_note_below_the_vault() {
    let ctx = AgentContext {
        vault_root: "C:\\notes".to_string(),
        files: Vec::new(),
        open_path: Some("C:\\notes\\Projects\\ship.md".to_string()),
        open_title: Some("ship.md".to_string()),
        open_excerpt: Some(String::new()),
        windows: true,
    };
    let r = reply("current", &ctx);
    assert!(r.starts_with("**ship.md** is filed as a **Project**."), "{r}");
    assert!(r.contains("Path: `Projects/ship.md`"), "{r}");
}
