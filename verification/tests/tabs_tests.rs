use para_desktop::display::{field_span, frontmatter_columns, paints_own_frame, tree_icon, TreeIcon};
use para_desktop::tabs::Tabs;
use para_desktop::vault::{OpenTab, ParaKind};

fn tab(path: &str) -> OpenTab {
    OpenTab {
        path: path.to_string(),
        title: path.rsplit('/').next().unwrap().to_string(),
        content: String::new(),
        frontmatter: Vec::new(),
    }
}

fn shown(tabs: &Tabs) -> Option<String> {
    tabs.active_tab().map(|t| t.path.clone())
}

#[test]
fn opening_shows_the_new_tab_and_finds_existing_ones() {
    let mut tabs = Tabs::new();
    assert_eq!(shown(&tabs), None);
    tabs.push(tab("/v/a.md"));
    tabs.push(tab("/v/b.md"));
    assert_eq!(shown(&tabs), Some("/v/b.md".to_string()));
    assert_eq!(tabs.position("/v//a.md", false), Some(0));
    assert_eq!(tabs.position("/v/c.md", false), None);
    assert!(tabs.select(0));
    assert!(!tabs.select(0));
    assert_eq!(shown(&tabs), Some("/v/a.md".to_string()));
}

#[test]
fn closing_keeps_the_shown_note() {
    let mut tabs = Tabs::new();
    for p in ["/v/a.md", "/v/b.md", "/v/c.md"] {
        tabs.push(tab(p));
    }
    tabs.select(2);
    assert!(tabs.close(0));
    assert_eq!(shown(&tabs), Some("/v/c.md".to_string()));
    assert_eq!(tabs.active_index(), 1);
    assert!(!tabs.close(5));
    assert!(tabs.close(1));
    assert_eq!(shown(&tabs), Some("/v/b.md".to_string()));
    assert!(tabs.close(0));
    assert_eq!(tabs.len(), 0);
    assert_eq!(tabs.active_index(), 0);
    assert_eq!(shown(&tabs), None);
}

#[test]
fn closing_the_shown_tab_shows_its_neighbour() {
    let mut tabs = Tabs::new();
    for p in ["/v/a.md", "/v/b.md", "/v/c.md"] {
        tabs.push(tab(p));
    }
    tabs.select(1);
    assert!(tabs.close(1));
    assert_eq!(shown(&tabs), Some("/v/c.md".to_string()));
}

#[test]
fn display_choices() {
    assert!(paints_own_frame(false));
    assert!(!paints_own_frame(true));
    assert_eq!(frontmatter_columns(0), 1);
    assert_eq!(frontmatter_columns(1), 1);
    assert_eq!(frontmatter_columns(3), 2);
    assert_eq!(field_span("short", 2), 1);
    assert_eq!(field_span("two\nlines", 2), 2);
    assert_eq!(field_span(&"y".repeat(41), 2), 2);
    assert_eq!(field_span(&"y".repeat(40), 2), 1);
    assert_eq!(tree_icon(true, true, ParaKind::Note), TreeIcon::FolderOpen);
    assert_eq!(tree_icon(true, false, ParaKind::Inbox), TreeIcon::Folder);
    assert_eq!(tree_icon(false, false, ParaKind::Index), TreeIcon::LayoutDashboard);
    assert_eq!(tree_icon(false, true, ParaKind::Archive), TreeIcon::FolderClosed);
}

fn open(tabs: &mut Tabs, path: &str) {
    match tabs.position(path, false) {
        Some(i) => {
            tabs.select(i);
        }
        None => tabs.push(tab(path)),
    }
}

#[test]
fn opening_a_note_twice_keeps_one_tab() {
    let mut tabs = Tabs::new();
    open(&mut tabs, "/v/a.md");
    open(&mut tabs, "/v/b.md");
    open(&mut tabs, "/v/./a.md");
    assert_eq!(tabs.len(), 2);
    assert_eq!(shown(&tabs), Some("/v/a.md".to_string()));
    assert!(tabs.close(0));
    open(&mut tabs, "/v/b.md");
    assert_eq!(tabs.len(), 1);
}
