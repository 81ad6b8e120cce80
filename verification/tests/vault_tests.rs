use para_desktop::tree::{scan_tree, vault_file_list, DirEntry};
use para_desktop::vault::{
    classify_path, default_open_path, default_user_vault, is_markdown, looks_like_vault,
    open_tab_from_bytes, plan_vault, probe_names, starter_note, EnsureReport, EntryKind, ParaKind,
    ProbedEntry, RootProbe,
};
use std::collections::BTreeMap;

fn probe(entries: &[(&str, EntryKind)]) -> RootProbe {
    RootProbe {
        entries: entries
            .iter()
            .map(|(name, kind)| ProbedEntry { name: name.to_string(), kind: *kind })
            .collect(),
    }
}

fn file(path: &str) -> DirEntry {
    DirEntry { path: path.to_string(), is_dir: false, children: Vec::new() }
}

fn dir(path: &str, children: Vec<DirEntry>) -> DirEntry {
    DirEntry { path: path.to_string(), is_dir: true, children }
}

#[test]
fn markdown_extensions() {
    assert!(is_markdown("INBOX.md", false));
    assert!(is_markdown("note.MARKDOWN", false));
    assert!(!is_markdown("reviews.ndjson", false));
}

#[test]
fn classifies_para_paths() {
    let root = "/notes";
    assert_eq!(classify_path(root, "/notes/INBOX.md", false), ParaKind::Inbox);
    assert_eq!(classify_path(root, "/notes/Projects/ship.md", false), ParaKind::Project);
    assert_eq!(
        classify_path(root, "/notes/Resources/para-method.md", false),
        ParaKind::Resource
    );
    assert_eq!(classify_path(root, "/notes/scratch.md", false), ParaKind::Note);
}

#[test]
fn default_user_vault_is_home_para() {
    assert_eq!(default_user_vault("/home/ada", false), "/home/ada/para");
}

#[test]
fn scan_keeps_para_order_and_skips_noise() {
    let root = "/tmp/vault";
    let entries = vec![
        file("/tmp/vault/INDEX.md"),
        file("/tmp/vault/INBOX.md"),
        dir("/tmp/vault/Projects", vec![file("/tmp/vault/Projects/ship.md")]),
        dir("/tmp/vault/target", vec![file("/tmp/vault/target/out.md")]),
        dir("/tmp/vault/empty-notes", vec![]),
    ];
    let items = scan_tree(&entries, false);
    let labels: Vec<String> = items.iter().map(|item| item.label.clone()).collect();
    assert_eq!(labels, vec!["INBOX.md", "INDEX.md", "Projects"]);

    let files = vault_file_list(root, &entries, false);
    assert_eq!(
        files,
        vec![
            "INBOX.md".to_string(),
            "INDEX.md".to_string(),
            "Projects/ship.md".to_string()
        ]
    );
}

#[test]
fn looks_like_vault_detects_inbox() {
    let empty = probe(&[]);
    assert!(!looks_like_vault(&empty));
    let with_inbox = probe(&[("INBOX.md", EntryKind::File)]);
    assert!(looks_like_vault(&with_inbox));
}

/// A vault held in memory: each name maps to a folder (`None`) or to a file's text.
type MemVault = BTreeMap<String, Option<String>>;

fn probe_of(vault: &MemVault) -> RootProbe {
    RootProbe {
        entries: probe_names()
            .into_iter()
            .map(|name| {
                let kind = match vault.get(&name) {
                    Some(Some(_)) => EntryKind::File,
                    Some(None) => EntryKind::Dir,
                    None => EntryKind::Missing,
                };
                ProbedEntry { name, kind }
            })
            .collect(),
    }
}

/// Carries out the plan the library makes, as the program does on disk.
fn ensure_vault(vault: &mut MemVault) -> EnsureReport {
    let report = plan_vault(&probe_of(vault));
    for name in &report.created_dirs {
        vault.insert(name.clone(), None);
    }
    for name in &report.created_files {
        if let Some(seed) = starter_note(name) {
            vault.insert(name.clone(), Some(seed.to_string()));
        }
    }
    report
}

fn text_of(vault: &MemVault, name: &str) -> String {
    vault.get(name).cloned().flatten().expect("a file")
}

#[test]
fn ensure_vault_creates_missing_folders_and_starter_markdown() {
    let mut vault = MemVault::new();
    let report = ensure_vault(&mut vault);
    assert_eq!(
        report.created_dirs,
        vec!["Projects", "Areas", "Resources", "Archives"]
    );
    assert_eq!(report.created_files, vec!["INBOX.md", "INDEX.md"]);
    for name in ["Projects", "Areas", "Resources", "Archives"] {
        assert_eq!(vault.get(name), Some(&None), "missing {name}");
    }
    let inbox = text_of(&vault, "INBOX.md");
    assert!(inbox.contains("# Inbox"));
    assert!(inbox.contains("Dump first"));
    let index = text_of(&vault, "INDEX.md");
    assert!(index.contains("# para"));
    assert!(looks_like_vault(&probe_of(&vault)));
}

#[test]
fn ensure_vault_does_not_overwrite_existing_notes() {
    let mut vault = MemVault::new();
    vault.insert("Projects".to_string(), None);
    vault.insert("INBOX.md".to_string(), Some("keep my captures\n".to_string()));
    vault.insert("Projects/ship.md".to_string(), Some("# ship\n".to_string()));

    let report = ensure_vault(&mut vault);
    assert_eq!(report.created_dirs, vec!["Areas", "Resources", "Archives"]);
    assert_eq!(report.created_files, vec!["INDEX.md"]);
    assert_eq!(text_of(&vault, "INBOX.md"), "keep my captures\n");
    assert_eq!(text_of(&vault, "Projects/ship.md"), "# ship\n");
    assert!(matches!(vault.get("INDEX.md"), Some(Some(_))));
    assert_eq!(vault.get("Areas"), Some(&None));

    let again = ensure_vault(&mut vault);
    assert!(again.created_dirs.is_empty());
    assert!(again.created_files.is_empty());
}

#[test]
fn ensure_vault_treats_inbox_alias_as_present() {
    let mut vault = MemVault::new();
    vault.insert("Inbox.md".to_string(), Some("already here\n".to_string()));
    vault.insert("Index.md".to_string(), Some("overview\n".to_string()));

    let report = ensure_vault(&mut vault);
    assert!(report.created_files.is_empty());
    assert!(!vault.contains_key("INBOX.md"));
    assert!(!vault.contains_key("INDEX.md"));
    assert_eq!(text_of(&vault, "Inbox.md"), "already here\n");
}

#[test]
fn default_open_path_prefers_inbox() {
    let both = probe(&[("INDEX.md", EntryKind::File), ("INBOX.md", EntryKind::File)]);
    assert_eq!(
        default_open_path("/notes", &both, false),
        Some("/notes/INBOX.md".to_string())
    );
    let index_only = probe(&[("INDEX.md", EntryKind::File), ("INBOX.md", EntryKind::Dir)]);
    assert_eq!(
        default_open_path("/notes/", &index_only, false),
        Some("/notes/INDEX.md".to_string())
    );
    assert_eq!(default_open_path("/notes", &probe(&[]), false), None);
}

#[test]
fn load_markdown_strips_example_frontmatter() {
    let raw = "---\nid: ship-para-desktop\nstatus: active\ndue: 2026-09-15\noutcome: A GPUI preview for the vault\narea: personal-knowledge\n---\n\n# Ship para desktop\n\nBuild the preview.\n";
    let tab = open_tab_from_bytes(
        "/vault/example-vault/Projects/ship-para-desktop.md",
        raw.as_bytes(), false
    );
    assert_eq!(
        tab.frontmatter
            .iter()
            .map(|field| field.key.as_str())
            .collect::<Vec<_>>(),
        vec!["id", "status", "due", "outcome", "area"]
    );
    assert!(tab.content.starts_with("# Ship para desktop"));
    assert!(!tab.content.starts_with("---"));
    assert!(tab.excerpt().contains("due: 2026-09-15"));
    assert_eq!(tab.title, "ship-para-desktop.md");
}
