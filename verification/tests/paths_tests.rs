use para_desktop::paths::display_path;
use para_desktop::text::chars_of;
use para_desktop::vault::{classify_path, default_user_vault, file_name, is_markdown, ParaKind};

#[test]
fn display_path_is_relative_under_root() {
    assert_eq!(display_path("/notes", "/notes/Projects/ship.md", false), "Projects/ship.md");
    assert_eq!(display_path("/notes/", "/notes/Areas/health.md", false), "Areas/health.md");
    assert_eq!(display_path("/notes", "/notes", false), "");
}

#[test]
fn display_path_keeps_outside_paths_whole() {
    assert_eq!(display_path("/notes", "/elsewhere/a.md", false), "/elsewhere/a.md");
    assert_eq!(display_path("/notes", "C:\\vault\\a.md", false), "C:/vault/a.md");
    assert_eq!(display_path("/notes", "/notesx/a.md", false), "/notesx/a.md");
}

#[test]
fn classify_path_edge_cases() {
    assert_eq!(classify_path("/notes", "/notes/Index.md", false), ParaKind::Index);
    assert_eq!(classify_path("/notes", "/notes/Inbox.md", false), ParaKind::Inbox);
    assert_eq!(classify_path("/notes", "/notes/Areas/health.md", false), ParaKind::Area);
    assert_eq!(classify_path("/notes", "/notes/Archives/old.md", false), ParaKind::Archive);
    assert_eq!(classify_path("/notes", "/other/Projects/x.md", false), ParaKind::Note);
    assert_eq!(classify_path("/notes", "Projects/x.md", false), ParaKind::Project);
    assert_eq!(classify_path("", "Projects/x.md", false), ParaKind::Project);
    assert_eq!(classify_path("/notes", "/notes", false), ParaKind::Note);
}

#[test]
fn markdown_extension_rules() {
    assert!(is_markdown("/notes/a.mdown", false));
    assert!(is_markdown("/notes/a.Md", false));
    assert!(!is_markdown("/notes/.md", false));
    assert!(!is_markdown("/notes/md", false));
    assert!(!is_markdown("/notes/a.md/..", false));
    assert!(is_markdown("/notes/a.md/", false));
    assert!(!is_markdown("/notes/a.txt", false));
    assert!(is_markdown("x.tar.md", false));
}

#[test]
fn file_names() {
    assert_eq!(file_name("/notes/INBOX.md", false), "INBOX.md");
    assert_eq!(file_name("/notes/Projects/", false), "Projects");
    assert_eq!(file_name("/", false), "");
    assert_eq!(file_name("a/..", false), "");
    assert_eq!(file_name(".", false), "");
}

#[test]
fn default_user_vault_separators() {
    assert_eq!(default_user_vault("/home/ada/", false), "/home/ada/para");
    assert_eq!(default_user_vault("", false), "para");
    assert_eq!(default_user_vault("/", false), "/para");
}

#[test]
fn chars_of_keeps_every_char() {
    assert_eq!(chars_of("a≠b"), vec!['a', '≠', 'b']);
}

#[test]
fn display_path_keeps_the_written_rest_below_root() {
    assert_eq!(display_path("/notes", "/notes/Projects//ship.md", false), "Projects//ship.md");
    assert_eq!(display_path("/notes", "/notes//./Areas/./a.md/", false), "Areas/./a.md");
    assert_eq!(display_path("/notes/.", "/notes/a.md", false), "a.md");
    assert_eq!(display_path("/", "//a//b", false), "a//b");
    assert_eq!(display_path("./v", "v/a.md", false), "v/a.md");
    assert_eq!(display_path("./v", "./v/a.md", false), "a.md");
}

#[test]
fn display_path_under_an_empty_root_keeps_its_start() {
    assert_eq!(display_path("", "/a/", false), "/a");
    assert_eq!(display_path("", "/./", false), "/");
    assert_eq!(display_path("", ".//a/.", false), ".//a");
    assert_eq!(display_path("", "./", false), ".");
    assert_eq!(display_path("", "a/b//", false), "a/b");
    assert_eq!(display_path("", "", false), "");
}
