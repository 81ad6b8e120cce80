//! The PARA vault: where a note is filed, what a first-run vault still needs,
//! which notes the tree and the assistant list, and how an open note looks.
use vstd::prelude::*;

use crate::frontmatter::{field_views, split_frontmatter, split_note, FrontmatterField};
use crate::paths::{
    components, components_on, file_name_chars, file_name_on, is_markdown_chars, join_path,
    joined, joined_on, law_join_adds_one_component, markdown_on, path_components, plain_name,
    strip_path_prefix, strip_prefix_on,
};
use crate::text::{
    chars_of, eq_str, extend, extend_str, join, join_chars, push_str, string_of, views,
};

verus! {

broadcast use vstd::string::group_string_axioms;

/// The deepest directory level that the tree and the file list descend to.
pub const MAX_DEPTH: usize = 8;

/// Notes larger than this many bytes are previewed only up to it.
pub const MAX_PREVIEW_BYTES: usize = 1000000;

/// The starter `INBOX.md` of a new vault.
pub const INBOX_SEED: &'static str = "---
updated: 
---

# Inbox

Dump first. File later.
";

/// The starter `INDEX.md` of a new vault.
pub const INDEX_SEED: &'static str = "---
title: para
horizon: 
---

# para

Personal PARA store.

| Bucket | Question |
| --- | --- |
| Project | Finish line + outcome? |
| Area | Standard to keep? |
| Resource | Topic to keep? |
| Archive | Inactive but searchable? |

Capture into [INBOX.md](INBOX.md). File with the `para` CLI.
";

// ---------------------------------------------------------------------------
// Kinds of notes
// ---------------------------------------------------------------------------

/// Where a note sits in the PARA layout.
#[derive(Debug, Clone, Copy, PartialEq, Eq, Structural)]
pub enum ParaKind {
    Inbox,
    Index,
    Project,
    Area,
    Resource,
    Archive,
    Note,
}

pub open spec fn kind_label(k: ParaKind) -> Seq<char> {
    match k {
        ParaKind::Inbox => "Inbox"@,
        ParaKind::Index => "Index"@,
        ParaKind::Project => "Project"@,
        ParaKind::Area => "Area"@,
        ParaKind::Resource => "Resource"@,
        ParaKind::Archive => "Archive"@,
        ParaKind::Note => "Note"@,
    }
}

impl ParaKind {
    /// The name shown for the kind.
    pub fn label(self) -> (r: &'static str)
        ensures
            r@ == kind_label(self),
    {
        match self {
            ParaKind::Inbox => "Inbox",
            ParaKind::Index => "Index",
            ParaKind::Project => "Project",
            ParaKind::Area => "Area",
            ParaKind::Resource => "Resource",
            ParaKind::Archive => "Archive",
            ParaKind::Note => "Note",
        }
    }
}

/// The kind that a vault's top-level entry name stands for.
pub open spec fn kind_of_top(name: Seq<char>) -> ParaKind {
    if name == "INBOX.md"@ || name == "Inbox.md"@ {
        ParaKind::Inbox
    } else if name == "INDEX.md"@ || name == "Index.md"@ {
        ParaKind::Index
    } else if name == "Projects"@ {
        ParaKind::Project
    } else if name == "Areas"@ {
        ParaKind::Area
    } else if name == "Resources"@ {
        ParaKind::Resource
    } else if name == "Archives"@ {
        ParaKind::Archive
    } else {
        ParaKind::Note
    }
}

/// The kind of `path` in the vault at `root`: decided by the first component
/// of the path below the root (of the whole path when it is not below it).
pub open spec fn kind_of_path(root: Seq<char>, path: Seq<char>, windows: bool) -> ParaKind {
    let rel = match strip_prefix_on(path, root, windows) {
        Some(rest) => rest,
        None => components_on(path, windows),
    };
    kind_of_top(
        if rel.len() > 0 {
            rel[0]
        } else {
            Seq::empty()
        },
    )
}

/// The names that decide a kind are all different.
pub(crate) proof fn lemma_names_distinct()
    ensures
        "INBOX.md"@ != "Inbox.md"@,
        "INBOX.md"@ != "INDEX.md"@,
        "INBOX.md"@ != "Index.md"@,
        "Inbox.md"@ != "INDEX.md"@,
        "Inbox.md"@ != "Index.md"@,
        "INDEX.md"@ != "Index.md"@,
        "Projects"@ != "INBOX.md"@ && "Projects"@ != "Inbox.md"@ && "Projects"@ != "INDEX.md"@
            && "Projects"@ != "Index.md"@,
        "Areas"@ != "INBOX.md"@ && "Areas"@ != "Inbox.md"@ && "Areas"@ != "INDEX.md"@ && "Areas"@
            != "Index.md"@ && "Areas"@ != "Projects"@,
        "Resources"@ != "INBOX.md"@ && "Resources"@ != "Inbox.md"@ && "Resources"@ != "INDEX.md"@
            && "Resources"@ != "Index.md"@ && "Resources"@ != "Projects"@ && "Resources"@
            != "Areas"@,
        "Archives"@ != "INBOX.md"@ && "Archives"@ != "Inbox.md"@ && "Archives"@ != "INDEX.md"@
            && "Archives"@ != "Index.md"@ && "Archives"@ != "Projects"@ && "Archives"@ != "Areas"@
            && "Archives"@ != "Resources"@,
{
    reveal_strlit("INBOX.md");
    reveal_strlit("Inbox.md");
    reveal_strlit("INDEX.md");
    reveal_strlit("Index.md");
    reveal_strlit("Projects");
    reveal_strlit("Areas");
    reveal_strlit("Resources");
    reveal_strlit("Archives");
    assert("INBOX.md"@[1] != "Inbox.md"@[1]);
    assert("INBOX.md"@[2] != "INDEX.md"@[2]);
    assert("INBOX.md"@[1] != "Index.md"@[1]);
    assert("Inbox.md"@[1] != "INDEX.md"@[1]);
    assert("Inbox.md"@[2] != "Index.md"@[2]);
    assert("INDEX.md"@[1] != "Index.md"@[1]);
    assert("Projects"@[0] != "INBOX.md"@[0]);
    assert("Projects"@[0] != "Archives"@[0]);
    assert("Archives"@[0] != "INBOX.md"@[0]);
    assert("Areas"@.len() != "INBOX.md"@.len());
    assert("Resources"@.len() != "INBOX.md"@.len());
    assert("Resources"@.len() != "Areas"@.len());
}

/// A note's kind is decided by the first component below the vault root:
/// `INBOX.md` or `Inbox.md` is the inbox, `INDEX.md` or `Index.md` the
/// index, anything under `Projects`, `Areas`, `Resources` or `Archives` a
/// project, area, resource or archive, and anything else a plain note.
pub proof fn law_first_component_decides_kind(
    root: Seq<char>,
    path: Seq<char>,
    windows: bool,
    rest: Seq<Seq<char>>,
)
    requires
        strip_prefix_on(path, root, windows) == Some(rest),
        rest.len() > 0,
    ensures
        (rest[0] == "INBOX.md"@ || rest[0] == "Inbox.md"@) ==> kind_of_path(root, path, windows)
            == ParaKind::Inbox,
        (rest[0] == "INDEX.md"@ || rest[0] == "Index.md"@) ==> kind_of_path(root, path, windows)
            == ParaKind::Index,
        rest[0] == "Projects"@ ==> kind_of_path(root, path, windows) == ParaKind::Project,
        rest[0] == "Areas"@ ==> kind_of_path(root, path, windows) == ParaKind::Area,
        rest[0] == "Resources"@ ==> kind_of_path(root, path, windows) == ParaKind::Resource,
        rest[0] == "Archives"@ ==> kind_of_path(root, path, windows) == ParaKind::Archive,
        rest[0] != "INBOX.md"@ && rest[0] != "Inbox.md"@ && rest[0] != "INDEX.md"@ && rest[0]
            != "Index.md"@ && rest[0] != "Projects"@ && rest[0] != "Areas"@ && rest[0]
            != "Resources"@ && rest[0] != "Archives"@ ==> kind_of_path(root, path, windows)
            == ParaKind::Note,
{
    lemma_names_distinct();
    reveal_strlit("INBOX.md");
    reveal_strlit("Inbox.md");
    reveal_strlit("INDEX.md");
    reveal_strlit("Index.md");
    reveal_strlit("Projects");
    reveal_strlit("Areas");
    reveal_strlit("Resources");
    reveal_strlit("Archives");
}

/// In a Unix vault at any root, the inbox and index notes joined to the root
/// are classified as the inbox and the index.
pub proof fn law_root_notes_are_inbox_and_index(root: Seq<char>)
    ensures
        kind_of_path(root, joined_on(root, "INBOX.md"@, false), false) == ParaKind::Inbox,
        kind_of_path(root, joined_on(root, "Inbox.md"@, false), false) == ParaKind::Inbox,
        kind_of_path(root, joined_on(root, "INDEX.md"@, false), false) == ParaKind::Index,
        kind_of_path(root, joined_on(root, "Index.md"@, false), false) == ParaKind::Index,
{
    lemma_plain_literals();
    lemma_plain_alias_literals();
    lemma_names_distinct();
    let names = seq!["INBOX.md"@, "Inbox.md"@, "INDEX.md"@, "Index.md"@];
    assert forall|i: int| 0 <= i < 4 implies kind_of_path(
        root,
        joined_on(root, #[trigger] names[i], false),
        false,
    ) == kind_of_top(names[i]) by {
        lemma_joined_kind(root, names[i]);
    }
    assert(names[0] == "INBOX.md"@ && names[1] == "Inbox.md"@);
    assert(names[2] == "INDEX.md"@ && names[3] == "Index.md"@);
    reveal_strlit("INBOX.md");
    reveal_strlit("Inbox.md");
    reveal_strlit("INDEX.md");
    reveal_strlit("Index.md");
}

/// In a Unix vault at any root, a note inside one of the four PARA folders
/// has that folder's kind.
pub proof fn law_notes_in_para_folders(root: Seq<char>, name: Seq<char>)
    requires
        plain_name(name),
    ensures
        kind_of_path(root, joined(joined(root, "Projects"@), name), false) == ParaKind::Project,
        kind_of_path(root, joined(joined(root, "Areas"@), name), false) == ParaKind::Area,
        kind_of_path(root, joined(joined(root, "Resources"@), name), false) == ParaKind::Resource,
        kind_of_path(root, joined(joined(root, "Archives"@), name), false) == ParaKind::Archive,
{
    lemma_plain_folder_literals();
    lemma_names_distinct();
    lemma_folder_kind(root, "Projects"@, name);
    lemma_folder_kind(root, "Areas"@, name);
    lemma_folder_kind(root, "Resources"@, name);
    lemma_folder_kind(root, "Archives"@, name);
    reveal_strlit("Projects");
    reveal_strlit("Areas");
    reveal_strlit("Resources");
    reveal_strlit("Archives");
}

/// A vault on a Windows drive (`C:…`).
pub open spec fn drive_root(root: Seq<char>) -> bool {
    root.len() >= 2 && crate::winpath::ascii_alpha(root[0]) && root[1] == ':'
}

/// In a Windows vault on a drive, the inbox and index notes joined to the
/// root are classified as the inbox and the index, and a note inside one of
/// the four PARA folders has that folder's kind.
pub proof fn law_drive_vault_kinds(root: Seq<char>, name: Seq<char>)
    requires
        drive_root(root),
        plain_name(name),
    ensures
        kind_of_path(root, joined_on(root, "INBOX.md"@, true), true) == ParaKind::Inbox,
        kind_of_path(root, joined_on(root, "Inbox.md"@, true), true) == ParaKind::Inbox,
        kind_of_path(root, joined_on(root, "INDEX.md"@, true), true) == ParaKind::Index,
        kind_of_path(root, joined_on(root, "Index.md"@, true), true) == ParaKind::Index,
        kind_of_path(root, joined_on(joined_on(root, "Projects"@, true), name, true), true)
            == ParaKind::Project,
        kind_of_path(root, joined_on(joined_on(root, "Areas"@, true), name, true), true)
            == ParaKind::Area,
        kind_of_path(root, joined_on(joined_on(root, "Resources"@, true), name, true), true)
            == ParaKind::Resource,
        kind_of_path(root, joined_on(joined_on(root, "Archives"@, true), name, true), true)
            == ParaKind::Archive,
{
    lemma_plain_literals();
    lemma_plain_alias_literals();
    lemma_plain_folder_literals();
    lemma_names_distinct();
    lemma_drive_joined_kind(root, "INBOX.md"@);
    lemma_drive_joined_kind(root, "Inbox.md"@);
    lemma_drive_joined_kind(root, "INDEX.md"@);
    lemma_drive_joined_kind(root, "Index.md"@);
    lemma_drive_folder_kind(root, "Projects"@, name);
    lemma_drive_folder_kind(root, "Areas"@, name);
    lemma_drive_folder_kind(root, "Resources"@, name);
    lemma_drive_folder_kind(root, "Archives"@, name);
    reveal_strlit("INBOX.md");
    reveal_strlit("Inbox.md");
    reveal_strlit("INDEX.md");
    reveal_strlit("Index.md");
    reveal_strlit("Projects");
    reveal_strlit("Areas");
    reveal_strlit("Resources");
    reveal_strlit("Archives");
}

proof fn lemma_drive_joined_kind(root: Seq<char>, n: Seq<char>)
    requires
        drive_root(root),
        plain_name(n),
    ensures
        kind_of_path(root, joined_on(root, n, true), true) == kind_of_top(n),
{
    crate::winpath::law_drive_join_adds_one_component(root, n);
    let bc = components_on(root, true);
    let pc = bc.push(n);
    assert(pc.take(bc.len() as int) =~= bc);
    assert(pc.skip(bc.len() as int) =~= seq![n]);
}

proof fn lemma_drive_folder_kind(root: Seq<char>, folder: Seq<char>, n: Seq<char>)
    requires
        drive_root(root),
        plain_name(folder),
        plain_name(n),
    ensures
        kind_of_path(root, joined_on(joined_on(root, folder, true), n, true), true) == kind_of_top(
            folder,
        ),
{
    let f = joined_on(root, folder, true);
    crate::winpath::law_drive_join_adds_one_component(root, folder);
    assert(f.len() >= 2 && f[0] == root[0] && f[1] == root[1]) by {
        assert(f.len() >= root.len());
        assert(f.subrange(0, root.len() as int) =~= root);
    }
    crate::winpath::law_drive_join_adds_one_component(f, n);
    let bc = components_on(root, true);
    let pc = bc.push(folder).push(n);
    assert(pc.take(bc.len() as int) =~= bc);
    assert(pc.skip(bc.len() as int) =~= seq![folder, n]);
}

proof fn lemma_joined_kind(root: Seq<char>, n: Seq<char>)
    requires
        plain_name(n),
    ensures
        kind_of_path(root, joined_on(root, n, false), false) == kind_of_top(n),
{
    law_join_adds_one_component(root, n);
    let bc = components(root);
    let pc = bc.push(n);
    assert(pc.take(bc.len() as int) =~= bc);
    assert(pc.skip(bc.len() as int) =~= seq![n]);
}

proof fn lemma_folder_kind(root: Seq<char>, folder: Seq<char>, n: Seq<char>)
    requires
        plain_name(folder),
        plain_name(n),
    ensures
        kind_of_path(root, joined(joined(root, folder), n), false) == kind_of_top(folder),
{
    law_join_adds_one_component(root, folder);
    law_join_adds_one_component(joined(root, folder), n);
    let bc = components(root);
    let pc = bc.push(folder).push(n);
    assert(pc.take(bc.len() as int) =~= bc);
    assert(pc.skip(bc.len() as int) =~= seq![folder, n]);
}

proof fn lemma_plain_alias_literals()
    ensures
        plain_name("Inbox.md"@),
        plain_name("Index.md"@),
{
    reveal_strlit("Inbox.md");
    reveal_strlit("Index.md");
    reveal_strlit(".");
    reveal_strlit("..");
    let a = "Inbox.md"@;
    let b = "Index.md"@;
    assert forall|i: int| 0 <= i < a.len() implies #[trigger] a[i] != '/' && a[i] != '\\' by {}
    assert forall|i: int| 0 <= i < b.len() implies #[trigger] b[i] != '/' && b[i] != '\\' by {}
    assert(a.len() != "."@.len() && a.len() != ".."@.len());
    assert(b.len() != "."@.len() && b.len() != ".."@.len());
}

proof fn lemma_plain_folder_literals()
    ensures
        plain_name("Projects"@),
        plain_name("Areas"@),
        plain_name("Resources"@),
        plain_name("Archives"@),
{
    reveal_strlit("Projects");
    reveal_strlit("Areas");
    reveal_strlit("Resources");
    reveal_strlit("Archives");
    reveal_strlit(".");
    reveal_strlit("..");
    let a = "Projects"@;
    let b = "Areas"@;
    let c = "Resources"@;
    let d = "Archives"@;
    assert forall|i: int| 0 <= i < a.len() implies #[trigger] a[i] != '/' && a[i] != '\\' by {}
    assert forall|i: int| 0 <= i < b.len() implies #[trigger] b[i] != '/' && b[i] != '\\' by {}
    assert forall|i: int| 0 <= i < c.len() implies #[trigger] c[i] != '/' && c[i] != '\\' by {}
    assert forall|i: int| 0 <= i < d.len() implies #[trigger] d[i] != '/' && d[i] != '\\' by {}
    assert(a.len() != "."@.len() && a.len() != ".."@.len());
    assert(b.len() != "."@.len() && b.len() != ".."@.len());
    assert(c.len() != "."@.len() && c.len() != ".."@.len());
    assert(d.len() != "."@.len() && d.len() != ".."@.len());
}

fn top_kind(name: &Vec<char>) -> (r: ParaKind)
    ensures
        r == kind_of_top(name@),
{
    if eq_str(name, "INBOX.md") || eq_str(name, "Inbox.md") {
        ParaKind::Inbox
    } else if eq_str(name, "INDEX.md") || eq_str(name, "Index.md") {
        ParaKind::Index
    } else if eq_str(name, "Projects") {
        ParaKind::Project
    } else if eq_str(name, "Areas") {
        ParaKind::Area
    } else if eq_str(name, "Resources") {
        ParaKind::Resource
    } else if eq_str(name, "Archives") {
        ParaKind::Archive
    } else {
        ParaKind::Note
    }
}

/// The PARA kind of `path` inside the vault at `root`.
pub fn classify_path(root: &str, path: &str, windows: bool) -> (r: ParaKind)
    ensures
        r == kind_of_path(root@, path@, windows),
{
    let rc = chars_of(root);
    let pc = chars_of(path);
    let rel = match strip_path_prefix(&pc, &rc, windows) {
        Some(rest) => rest,
        None => path_components(&pc, windows),
    };
    if rel.len() > 0 {
        assert(views(rel@)[0] == rel@[0]@);
        top_kind(&rel[0])
    } else {
        let empty: Vec<char> = Vec::new();
        assert(empty@ =~= Seq::<char>::empty());
        top_kind(&empty)
    }
}

/// Whether `path` names a markdown file (`.md`, `.markdown` or `.mdown`, in
/// any ASCII case).
pub fn is_markdown(path: &str, windows: bool) -> (r: bool)
    ensures
        r == markdown_on(path@, windows),
{
    let pc = chars_of(path);
    is_markdown_chars(&pc, windows)
}

/// The names the vault joins to a root are plain names.
proof fn lemma_plain_literals()
    ensures
        plain_name("para"@),
        plain_name("INBOX.md"@),
        plain_name("INDEX.md"@),
{
    reveal_strlit("para");
    reveal_strlit("INBOX.md");
    reveal_strlit("INDEX.md");
    reveal_strlit(".");
    reveal_strlit("..");
    let a = "para"@;
    let b = "INBOX.md"@;
    let c = "INDEX.md"@;
    assert forall|i: int| 0 <= i < a.len() implies #[trigger] a[i] != '/' && a[i] != '\\' by {}
    assert forall|i: int| 0 <= i < b.len() implies #[trigger] b[i] != '/' && b[i] != '\\' by {}
    assert forall|i: int| 0 <= i < c.len() implies #[trigger] c[i] != '/' && c[i] != '\\' by {}
    assert(a.len() != "."@.len());
    assert(b.len() != "."@.len() && b.len() != ".."@.len());
    assert(c.len() != "."@.len() && c.len() != ".."@.len());
    assert(a.len() != ".."@.len());
}

/// Home-directory PARA vault (`~/para`).
pub fn default_user_vault(home: &str, windows: bool) -> (r: String)
    ensures
        r@ == joined_on(home@, "para"@, windows),
{
    let hc = chars_of(home);
    proof {
        lemma_plain_literals();
    }
    let p = join_path(&hc, "para", windows);
    string_of(&p)
}

/// The file name of `path`, or the empty string when it has none.
pub open spec fn name_or_empty(path: Seq<char>, windows: bool) -> Seq<char> {
    match file_name_on(path, windows) {
        Some(n) => n,
        None => Seq::empty(),
    }
}

/// The file name of `path`, or the empty string when it has none.
pub fn file_name(path: &str, windows: bool) -> (r: String)
    ensures
        r@ == name_or_empty(path@, windows),
{
    let pc = chars_of(path);
    match file_name_chars(&pc, windows) {
        Some(n) => string_of(&n),
        None => String::new(),
    }
}

// ---------------------------------------------------------------------------
// Open notes
// ---------------------------------------------------------------------------

/// A note open in the preview.
#[derive(Debug, Clone, PartialEq, Eq)]
pub struct OpenTab {
    pub path: String,
    pub title: String,
    pub content: String,
    pub frontmatter: Vec<FrontmatterField>,
}

/// A field written as `key: value`.
pub open spec fn field_line(f: (Seq<char>, Seq<char>)) -> Seq<char> {
    f.0 + ": "@ + f.1
}

/// The body followed by a blank line and one `key: value` line per field;
/// just the body when there are no fields.
pub open spec fn excerpt_text(content: Seq<char>, fields: Seq<(Seq<char>, Seq<char>)>) -> Seq<
    char,
> {
    if fields.len() == 0 {
        content
    } else {
        content + "\n\n"@ + join(fields.map_values(|f: (Seq<char>, Seq<char>)| field_line(f)), "\n"@)
    }
}

impl OpenTab {
    /// Body plus YAML fields, so the filing assistant still sees `due` / `standard`.
    pub fn excerpt(&self) -> (r: String)
        ensures
            r@ == excerpt_text(self.content@, field_views(self.frontmatter@)),
    {
        if self.frontmatter.len() == 0 {
            return self.content.clone();
        }
        let ghost fv = field_views(self.frontmatter@);
        let mut lines: Vec<Vec<char>> = Vec::new();
        let mut i: usize = 0;
        while i < self.frontmatter.len()
            invariant
                fv == field_views(self.frontmatter@),
                i <= fv.len(),
                views(lines@) =~= fv.take(i as int).map_values(
                    |f: (Seq<char>, Seq<char>)| field_line(f),
                ),
            decreases fv.len() - i,
        {
            let f = &self.frontmatter[i];
            let mut l = chars_of(f.key.as_str());
            extend_str(&mut l, ": ");
            let v = chars_of(f.value.as_str());
            extend(&mut l, &v);
            let ghost before = views(lines@);
            lines.push(l);
            assert(fv[i as int] == (f.key@, f.value@));
            assert(views(lines@) =~= before.push(field_line(fv[i as int])));
            assert(fv.take((i + 1) as int) =~= fv.take(i as int).push(fv[i as int]));
            i = i + 1;
        }
        assert(fv.take(fv.len() as int) =~= fv);
        let meta = join_chars(&lines, "\n");
        let mut out = self.content.clone();
        push_str(&mut out, "\n\n");
        crate::text::push_chars(&mut out, &meta);
        out
    }
}

// ---------------------------------------------------------------------------
// The vault root: what is there, and what a first run adds
// ---------------------------------------------------------------------------

/// What a name at the vault root turned out to be.
#[derive(Debug, Clone, Copy, PartialEq, Eq, Structural)]
pub enum EntryKind {
    Missing,
    File,
    Dir,
    Other,
}

/// One name at the vault root and what it is.
#[derive(Debug, Clone)]
pub struct ProbedEntry {
    pub name: String,
    pub kind: EntryKind,
}

/// What the names of `probe_names` are at a vault root.
#[derive(Debug, Clone)]
pub struct RootProbe {
    pub entries: Vec<ProbedEntry>,
}

impl View for RootProbe {
    type V = Seq<(Seq<char>, EntryKind)>;

    open spec fn view(&self) -> Seq<(Seq<char>, EntryKind)> {
        self.entries@.map_values(|e: ProbedEntry| (e.name@, e.kind))
    }
}

/// What `name` is according to the probe: the first entry with that name
/// decides; a name that no entry mentions is missing.
pub open spec fn kind_at(p: Seq<(Seq<char>, EntryKind)>, name: Seq<char>) -> EntryKind
    decreases p.len(),
{
    if p.len() == 0 {
        EntryKind::Missing
    } else if p[0].0 == name {
        p[0].1
    } else {
        kind_at(p.drop_first(), name)
    }
}

pub open spec fn is_file_at(p: Seq<(Seq<char>, EntryKind)>, name: Seq<char>) -> bool {
    kind_at(p, name) == EntryKind::File
}

pub open spec fn is_dir_at(p: Seq<(Seq<char>, EntryKind)>, name: Seq<char>) -> bool {
    kind_at(p, name) == EntryKind::Dir
}

/// The names a vault root is probed for.
pub open spec fn probed_names() -> Seq<Seq<char>> {
    seq![
        "INBOX.md"@,
        "Inbox.md"@,
        "INDEX.md"@,
        "Index.md"@,
        "Projects"@,
        "Areas"@,
        "Resources"@,
        "Archives"@,
    ]
}

/// The names whose kinds the vault functions read.
pub fn probe_names() -> (r: Vec<String>)
    ensures
        r@.map_values(|s: String| s@) == probed_names(),
{
    let mut r: Vec<String> = Vec::new();
    r.push(string_of(&chars_of("INBOX.md")));
    r.push(string_of(&chars_of("Inbox.md")));
    r.push(string_of(&chars_of("INDEX.md")));
    r.push(string_of(&chars_of("Index.md")));
    r.push(string_of(&chars_of("Projects")));
    r.push(string_of(&chars_of("Areas")));
    r.push(string_of(&chars_of("Resources")));
    r.push(string_of(&chars_of("Archives")));
    assert(r@.map_values(|s: String| s@) =~= probed_names());
    r
}

fn probed_kind(probe: &RootProbe, name: &str) -> (r: EntryKind)
    ensures
        r == kind_at(probe@, name@),
{
    let nc = chars_of(name);
    let mut i: usize = 0;
    let ghost pv = probe@;
    assert(pv.skip(0) =~= pv);
    while i < probe.entries.len()
        invariant
            pv == probe@,
            nc@ == name@,
            i <= pv.len(),
            kind_at(pv, name@) == kind_at(pv.skip(i as int), name@),
        decreases pv.len() - i,
    {
        let e = &probe.entries[i];
        let ec = chars_of(e.name.as_str());
        assert(pv[i as int] == (e.name@, e.kind));
        assert(pv.skip(i as int).len() > 0);
        assert(pv.skip(i as int)[0] == (e.name@, e.kind));
        if crate::text::chars_eq(&ec, &nc) {
            return e.kind;
        }
        assert(pv.skip(i as int).drop_first() =~= pv.skip((i + 1) as int));
        i = i + 1;
    }
    EntryKind::Missing
}

fn probed_file(probe: &RootProbe, name: &str) -> (r: bool)
    ensures
        r == is_file_at(probe@, name@),
{
    match probed_kind(probe, name) {
        EntryKind::File => true,
        _ => false,
    }
}

fn probed_dir(probe: &RootProbe, name: &str) -> (r: bool)
    ensures
        r == is_dir_at(probe@, name@),
{
    match probed_kind(probe, name) {
        EntryKind::Dir => true,
        _ => false,
    }
}

/// A root with an inbox note, an index note or one of the PARA folders.
pub open spec fn vault_like(p: Seq<(Seq<char>, EntryKind)>) -> bool {
    ||| is_file_at(p, "INBOX.md"@)
    ||| is_file_at(p, "INDEX.md"@)
    ||| is_dir_at(p, "Projects"@)
    ||| is_dir_at(p, "Areas"@)
    ||| is_dir_at(p, "Resources"@)
    ||| is_dir_at(p, "Archives"@)
}

/// Whether the probed root looks like a PARA vault.
pub fn looks_like_vault(probe: &RootProbe) -> (r: bool)
    ensures
        r == vault_like(probe@),
{
    probed_file(probe, "INBOX.md") || probed_file(probe, "INDEX.md") || probed_dir(
        probe,
        "Projects",
    ) || probed_dir(probe, "Areas") || probed_dir(probe, "Resources") || probed_dir(
        probe,
        "Archives",
    )
}

/// An inbox note under either accepted name.
pub open spec fn inbox_present(p: Seq<(Seq<char>, EntryKind)>) -> bool {
    is_file_at(p, "INBOX.md"@) || is_file_at(p, "Inbox.md"@)
}

/// An index note under either accepted name.
pub open spec fn index_present(p: Seq<(Seq<char>, EntryKind)>) -> bool {
    is_file_at(p, "INDEX.md"@) || is_file_at(p, "Index.md"@)
}

pub fn has_inbox(probe: &RootProbe) -> (r: bool)
    ensures
        r == inbox_present(probe@),
{
    probed_file(probe, "INBOX.md") || probed_file(probe, "Inbox.md")
}

pub fn has_index(probe: &RootProbe) -> (r: bool)
    ensures
        r == index_present(probe@),
{
    probed_file(probe, "INDEX.md") || probed_file(probe, "Index.md")
}

/// What a first run creates: the missing folders and starter notes.
#[derive(Debug, Clone, Default, PartialEq, Eq)]
pub struct EnsureReport {
    pub created_dirs: Vec<String>,
    pub created_files: Vec<String>,
}

impl View for EnsureReport {
    type V = (Seq<Seq<char>>, Seq<Seq<char>>);

    open spec fn view(&self) -> (Seq<Seq<char>>, Seq<Seq<char>>) {
        (
            self.created_dirs@.map_values(|s: String| s@),
            self.created_files@.map_values(|s: String| s@),
        )
    }
}

/// `[name]` when `wanted`, else nothing.
pub open spec fn listed_if(wanted: bool, name: Seq<char>) -> Seq<Seq<char>> {
    if wanted {
        seq![name]
    } else {
        Seq::empty()
    }
}

/// The PARA folders that are not directories yet, in the order
/// Projects, Areas, Resources, Archives.
pub open spec fn dirs_to_create(p: Seq<(Seq<char>, EntryKind)>) -> Seq<Seq<char>> {
    listed_if(!is_dir_at(p, "Projects"@), "Projects"@) + listed_if(!is_dir_at(p, "Areas"@), "Areas"@) + listed_if(
        !is_dir_at(p, "Resources"@),
        "Resources"@,
    ) + listed_if(!is_dir_at(p, "Archives"@), "Archives"@)
}

/// `INBOX.md` unless an inbox note exists, then `INDEX.md` unless an index
/// note exists.
pub open spec fn files_to_create(p: Seq<(Seq<char>, EntryKind)>) -> Seq<Seq<char>> {
    listed_if(!inbox_present(p), "INBOX.md"@) + listed_if(!index_present(p), "INDEX.md"@)
}

fn push_name(v: &mut Vec<String>, name: &str)
    ensures
        final(v)@.map_values(|s: String| s@) == old(v)@.map_values(|s: String| s@).push(name@),
{
    let ghost before = v@.map_values(|s: String| s@);
    v.push(string_of(&chars_of(name)));
    assert(v@.map_values(|s: String| s@) =~= before.push(name@));
}

/// What `ensure_vault` creates at the probed root: the missing PARA folders and
/// the missing starter notes. Existing entries are never in the plan.
pub fn plan_vault(probe: &RootProbe) -> (r: EnsureReport)
    ensures
        r@ == (dirs_to_create(probe@), files_to_create(probe@)),
{
    let mut dirs: Vec<String> = Vec::new();
    let mut files: Vec<String> = Vec::new();
    if !probed_dir(probe, "Projects") {
        push_name(&mut dirs, "Projects");
    }
    if !probed_dir(probe, "Areas") {
        push_name(&mut dirs, "Areas");
    }
    if !probed_dir(probe, "Resources") {
        push_name(&mut dirs, "Resources");
    }
    if !probed_dir(probe, "Archives") {
        push_name(&mut dirs, "Archives");
    }
    if !has_inbox(probe) {
        push_name(&mut files, "INBOX.md");
    }
    if !has_index(probe) {
        push_name(&mut files, "INDEX.md");
    }
    let r = EnsureReport { created_dirs: dirs, created_files: files };
    assert(r@.0 =~= dirs_to_create(probe@));
    assert(r@.1 =~= files_to_create(probe@));
    r
}

/// The root after a plan has been carried out: each planned folder is a
/// directory and each planned note a file; every other name is as before.
pub open spec fn after_plan(
    p: Seq<(Seq<char>, EntryKind)>,
    plan: (Seq<Seq<char>>, Seq<Seq<char>>),
) -> Seq<(Seq<char>, EntryKind)> {
    plan.0.map_values(|n: Seq<char>| (n, EntryKind::Dir)) + plan.1.map_values(
        |n: Seq<char>| (n, EntryKind::File),
    ) + p
}

/// The note to open first: `INBOX.md`, else `INDEX.md`, when it is a file.
pub open spec fn first_note(
    root: Seq<char>,
    p: Seq<(Seq<char>, EntryKind)>,
    windows: bool,
) -> Option<Seq<char>> {
    if is_file_at(p, "INBOX.md"@) {
        Some(joined_on(root, "INBOX.md"@, windows))
    } else if is_file_at(p, "INDEX.md"@) {
        Some(joined_on(root, "INDEX.md"@, windows))
    } else {
        None
    }
}

/// The note the preview opens at start.
pub fn default_open_path(root: &str, probe: &RootProbe, windows: bool) -> (r: Option<String>)
    ensures
        match r {
            Some(p) => first_note(root@, probe@, windows) == Some(p@),
            None => first_note(root@, probe@, windows) is None,
        },
{
    let rc = chars_of(root);
    proof {
        lemma_plain_literals();
    }
    if probed_file(probe, "INBOX.md") {
        return Some(string_of(&join_path(&rc, "INBOX.md", windows)));
    }
    if probed_file(probe, "INDEX.md") {
        return Some(string_of(&join_path(&rc, "INDEX.md", windows)));
    }
    None
}

/// The starter text of a note that a first run creates.
pub fn starter_note(name: &str) -> (r: Option<&'static str>)
    ensures
        name@ == "INBOX.md"@ ==> (r matches Some(t) && t@ == INBOX_SEED@),
        name@ == "INDEX.md"@ ==> (r matches Some(t) && t@ == INDEX_SEED@),
        name@ != "INBOX.md"@ && name@ != "INDEX.md"@ ==> r is None,
{
    let n = chars_of(name);
    proof {
        reveal_strlit("INBOX.md");
        reveal_strlit("INDEX.md");
        assert("INBOX.md"@[3] != "INDEX.md"@[3]);
    }
    if eq_str(&n, "INBOX.md") {
        Some(INBOX_SEED)
    } else if eq_str(&n, "INDEX.md") {
        Some(INDEX_SEED)
    } else {
        None
    }
}

// ---------------------------------------------------------------------------
// Laws of the first-run plan
// ---------------------------------------------------------------------------

/// Some entry of `a` carries `name`.
pub open spec fn names(a: Seq<(Seq<char>, EntryKind)>, name: Seq<char>) -> bool {
    exists|i: int| 0 <= i < a.len() && (#[trigger] a[i]).0 == name
}

proof fn lemma_kind_at_concat(
    a: Seq<(Seq<char>, EntryKind)>,
    b: Seq<(Seq<char>, EntryKind)>,
    name: Seq<char>,
)
    ensures
        kind_at(a + b, name) == if names(a, name) {
            kind_at(a, name)
        } else {
            kind_at(b, name)
        },
    decreases a.len(),
{
    if a.len() == 0 {
        assert(a + b =~= b);
    } else {
        assert((a + b).drop_first() =~= a.drop_first() + b);
        lemma_kind_at_concat(a.drop_first(), b, name);
        if a[0].0 != name {
            if names(a, name) {
                let i = choose|i: int| 0 <= i < a.len() && (#[trigger] a[i]).0 == name;
                assert(a.drop_first()[i - 1] == a[i]);
            }
            if names(a.drop_first(), name) {
                let i = choose|i: int|
                    0 <= i < a.drop_first().len() && (#[trigger] a.drop_first()[i]).0 == name;
                assert(a[i + 1] == a.drop_first()[i]);
            }
        } else {
            assert(a[0].0 == name);
        }
    }
}

proof fn lemma_kind_at_tagged(ns: Seq<Seq<char>>, k: EntryKind, name: Seq<char>)
    ensures
        names(ns.map_values(|n: Seq<char>| (n, k)), name) == ns.contains(name),
        ns.contains(name) ==> kind_at(ns.map_values(|n: Seq<char>| (n, k)), name) == k,
    decreases ns.len(),
{
    let t = ns.map_values(|n: Seq<char>| (n, k));
    if ns.contains(name) {
        let i = choose|i: int| 0 <= i < ns.len() && ns[i] == name;
        assert(t[i].0 == name);
    }
    if names(t, name) {
        let i = choose|i: int| 0 <= i < t.len() && (#[trigger] t[i]).0 == name;
        assert(ns[i] == name);
    }
    if ns.len() > 0 {
        lemma_kind_at_tagged(ns.drop_first(), k, name);
        assert(t.drop_first() =~= ns.drop_first().map_values(|n: Seq<char>| (n, k)));
        if ns[0] != name && ns.contains(name) {
            let i = choose|i: int| 0 <= i < ns.len() && ns[i] == name;
            assert(ns.drop_first()[i - 1] == name);
        }
    }
}

/// What `name` is once `plan` has been carried out at a root probed as `p`.
proof fn lemma_after_plan_kind(
    p: Seq<(Seq<char>, EntryKind)>,
    plan: (Seq<Seq<char>>, Seq<Seq<char>>),
    name: Seq<char>,
)
    ensures
        kind_at(after_plan(p, plan), name) == if plan.0.contains(name) {
            EntryKind::Dir
        } else if plan.1.contains(name) {
            EntryKind::File
        } else {
            kind_at(p, name)
        },
{
    let d = plan.0.map_values(|n: Seq<char>| (n, EntryKind::Dir));
    let f = plan.1.map_values(|n: Seq<char>| (n, EntryKind::File));
    assert(after_plan(p, plan) =~= d + (f + p));
    lemma_kind_at_concat(d, f + p, name);
    lemma_kind_at_concat(f, p, name);
    lemma_kind_at_tagged(plan.0, EntryKind::Dir, name);
    lemma_kind_at_tagged(plan.1, EntryKind::File, name);
}

proof fn lemma_listed_if_contains(b: bool, n: Seq<char>, m: Seq<char>)
    ensures
        listed_if(b, n).contains(m) == (b && n == m),
{
    if b && n == m {
        assert(listed_if(b, n)[0] == m);
    }
}

proof fn lemma_plan_membership(p: Seq<(Seq<char>, EntryKind)>, name: Seq<char>)
    ensures
        dirs_to_create(p).contains(name) == ((name == "Projects"@ || name == "Areas"@ || name
            == "Resources"@ || name == "Archives"@) && !is_dir_at(p, name)),
        files_to_create(p).contains(name) == ((name == "INBOX.md"@ && !inbox_present(p)) || (
        name == "INDEX.md"@ && !index_present(p))),
{
    let a = listed_if(!is_dir_at(p, "Projects"@), "Projects"@);
    let b = listed_if(!is_dir_at(p, "Areas"@), "Areas"@);
    let c = listed_if(!is_dir_at(p, "Resources"@), "Resources"@);
    let d = listed_if(!is_dir_at(p, "Archives"@), "Archives"@);
    lemma_listed_if_contains(!is_dir_at(p, "Projects"@), "Projects"@, name);
    lemma_listed_if_contains(!is_dir_at(p, "Areas"@), "Areas"@, name);
    lemma_listed_if_contains(!is_dir_at(p, "Resources"@), "Resources"@, name);
    lemma_listed_if_contains(!is_dir_at(p, "Archives"@), "Archives"@, name);
    vstd::seq_lib::lemma_seq_concat_contains_all_elements(a, b, name);
    vstd::seq_lib::lemma_seq_concat_contains_all_elements(a + b, c, name);
    vstd::seq_lib::lemma_seq_concat_contains_all_elements(a + b + c, d, name);
    let e = listed_if(!inbox_present(p), "INBOX.md"@);
    let g = listed_if(!index_present(p), "INDEX.md"@);
    lemma_listed_if_contains(!inbox_present(p), "INBOX.md"@, name);
    lemma_listed_if_contains(!index_present(p), "INDEX.md"@, name);
    vstd::seq_lib::lemma_seq_concat_contains_all_elements(e, g, name);
}

/// A first run is idempotent: once the plan for a root has been carried out,
/// planning again at that root creates nothing.
pub proof fn law_ensure_is_idempotent(p: Seq<(Seq<char>, EntryKind)>)
    ensures
        dirs_to_create(after_plan(p, (dirs_to_create(p), files_to_create(p)))) == Seq::<
            Seq<char>,
        >::empty(),
        files_to_create(after_plan(p, (dirs_to_create(p), files_to_create(p)))) == Seq::<
            Seq<char>,
        >::empty(),
{
    let plan = (dirs_to_create(p), files_to_create(p));
    let q = after_plan(p, plan);
    lemma_plan_membership(p, "Projects"@);
    lemma_plan_membership(p, "Areas"@);
    lemma_plan_membership(p, "Resources"@);
    lemma_plan_membership(p, "Archives"@);
    lemma_plan_membership(p, "INBOX.md"@);
    lemma_plan_membership(p, "Inbox.md"@);
    lemma_plan_membership(p, "INDEX.md"@);
    lemma_plan_membership(p, "Index.md"@);
    lemma_after_plan_kind(p, plan, "Projects"@);
    lemma_after_plan_kind(p, plan, "Areas"@);
    lemma_after_plan_kind(p, plan, "Resources"@);
    lemma_after_plan_kind(p, plan, "Archives"@);
    lemma_after_plan_kind(p, plan, "INBOX.md"@);
    lemma_after_plan_kind(p, plan, "Inbox.md"@);
    lemma_after_plan_kind(p, plan, "INDEX.md"@);
    lemma_after_plan_kind(p, plan, "Index.md"@);
    reveal_strlit("Projects");
    reveal_strlit("Areas");
    reveal_strlit("Resources");
    reveal_strlit("Archives");
    reveal_strlit("INBOX.md");
    reveal_strlit("Inbox.md");
    reveal_strlit("INDEX.md");
    reveal_strlit("Index.md");
    assert("Projects"@[0] != "INBOX.md"@[0] && "Projects"@[0] != "INDEX.md"@[0]);
    assert("Areas"@.len() != "INBOX.md"@.len() && "Areas"@.len() != "INDEX.md"@.len());
    assert("Resources"@.len() != "INBOX.md"@.len() && "Resources"@.len() != "INDEX.md"@.len());
    assert("Archives"@[0] != "INBOX.md"@[0] && "Archives"@[0] != "INDEX.md"@[0]);
    assert("Inbox.md"@[1] != "INBOX.md"@[1] && "Inbox.md"@[0] != "Projects"@[0]);
    assert("Index.md"@[1] != "INDEX.md"@[1] && "Index.md"@[0] != "Projects"@[0]);
    assert(is_dir_at(q, "Projects"@));
    assert(is_dir_at(q, "Areas"@));
    assert(is_dir_at(q, "Resources"@));
    assert(is_dir_at(q, "Archives"@));
    assert(inbox_present(q));
    assert(index_present(q));
    assert(dirs_to_create(q) =~= Seq::<Seq<char>>::empty());
    assert(files_to_create(q) =~= Seq::<Seq<char>>::empty());
}

/// After a first run the root looks like a vault.
pub proof fn law_ensured_root_looks_like_vault(p: Seq<(Seq<char>, EntryKind)>)
    ensures
        vault_like(after_plan(p, (dirs_to_create(p), files_to_create(p)))),
{
    let plan = (dirs_to_create(p), files_to_create(p));
    lemma_plan_membership(p, "Projects"@);
    lemma_after_plan_kind(p, plan, "Projects"@);
}

/// A first run never overwrites: it creates only folders that are not
/// directories and notes for which no inbox or index note exists, and every
/// name it does not create keeps what it was.
pub proof fn law_ensure_keeps_existing(p: Seq<(Seq<char>, EntryKind)>, name: Seq<char>)
    ensures
        dirs_to_create(p).contains(name) ==> !is_dir_at(p, name),
        files_to_create(p).contains(name) ==> !is_file_at(p, name),
        !dirs_to_create(p).contains(name) && !files_to_create(p).contains(name) ==> kind_at(
            after_plan(p, (dirs_to_create(p), files_to_create(p))),
            name,
        ) == kind_at(p, name),
{
    lemma_plan_membership(p, name);
    lemma_after_plan_kind(p, (dirs_to_create(p), files_to_create(p)), name);
}

// ---------------------------------------------------------------------------
// Loading a note
// ---------------------------------------------------------------------------

/// What `String::from_utf8_lossy` makes of a byte string.
pub uninterp spec fn utf8_lossy(bytes: Seq<u8>) -> Seq<char>;

/// Decodes bytes as UTF-8 with std's `String::from_utf8_lossy`, invalid
/// sequences becoming U+FFFD.
///
/// Trusted: the result is the named decoding `utf8_lossy` of the bytes; the
/// decoding itself is not stated.
#[verifier::external_body]
fn from_utf8_lossy(bytes: &[u8]) -> (r: String)
    ensures
        r@ == utf8_lossy(bytes@),
{
    String::from_utf8_lossy(bytes).into_owned()
}

/// The text a note's bytes give: decoded, and cut after the preview limit
/// with a notice appended.
pub open spec fn note_text(raw: Seq<u8>) -> Seq<char> {
    if raw.len() > MAX_PREVIEW_BYTES {
        utf8_lossy(raw.take(MAX_PREVIEW_BYTES as int)) + "\n\n> Preview truncated after 1 MB.\n"@
    } else {
        utf8_lossy(raw)
    }
}

/// The tab title of a note: its file name, or `untitled.md`.
pub open spec fn tab_title(path: Seq<char>, windows: bool) -> Seq<char> {
    match file_name_on(path, windows) {
        Some(n) => n,
        None => "untitled.md"@,
    }
}

/// The tab for the note at `path` whose decoded text is `text`: titled by
/// the file name (or `untitled.md`), with the front matter split off.
pub fn open_tab(path: &str, text: String, windows: bool) -> (r: OpenTab)
    ensures
        r.path@ == path@,
        r.title@ == tab_title(path@, windows),
        (field_views(r.frontmatter@), r.content@) == split_note(text@),
{
    let (frontmatter, content) = split_frontmatter(text.as_str());
    let pc = chars_of(path);
    let title = match file_name_chars(&pc, windows) {
        Some(n) => string_of(&n),
        None => string_of(&chars_of("untitled.md")),
    };
    OpenTab { path: string_of(&pc), title, content, frontmatter }
}

/// The open tab for the note at `path` whose file holds `raw`.
pub fn open_tab_from_bytes(path: &str, raw: &[u8], windows: bool) -> (r: OpenTab)
    ensures
        r.path@ == path@,
        r.title@ == tab_title(path@, windows),
        (field_views(r.frontmatter@), r.content@) == split_note(note_text(raw@)),
{
    let truncated = raw.len() > MAX_PREVIEW_BYTES;
    let slice = if truncated {
        vstd::slice::slice_subrange(raw, 0, MAX_PREVIEW_BYTES)
    } else {
        raw
    };
    assert(truncated ==> slice@ =~= raw@.take(MAX_PREVIEW_BYTES as int));
    let mut text = from_utf8_lossy(slice);
    if truncated {
        push_str(&mut text, "\n\n> Preview truncated after 1 MB.\n");
    }
    open_tab(path, text, windows)
}

// ---------------------------------------------------------------------------
// Choosing the vault
// ---------------------------------------------------------------------------

/// Which vault the app opens.
#[derive(Debug, Clone, PartialEq, Eq)]
pub enum RootChoice {
    /// A path given on the command line or in `PARA_VAULT`.
    Given(String),
    /// The home-directory vault, which is created when missing.
    Home(String),
    /// The current directory.
    CurrentDir,
}

/// The vault to open: the first command-line argument, else a non-empty
/// `PARA_VAULT`, else `para` under `HOME` (or `USERPROFILE`), else the
/// current directory.
pub fn choose_root(
    arg: Option<String>,
    para_vault: Option<String>,
    home: Option<String>,
    user_profile: Option<String>,
    windows: bool,
) -> (r: RootChoice)
    ensures
        arg is Some ==> r == RootChoice::Given(arg->0),
        arg is None && para_vault is Some && para_vault->0@.len() > 0 ==> r == RootChoice::Given(
            para_vault->0,
        ),
        arg is None && !(para_vault is Some && para_vault->0@.len() > 0) && home is Some ==> (
        r matches RootChoice::Home(p) && p@ == joined_on(home->0@, "para"@, windows)),
        arg is None && !(para_vault is Some && para_vault->0@.len() > 0) && home is None
            && user_profile is Some ==> (r matches RootChoice::Home(p) && p@ == joined_on(
            user_profile->0@,
            "para"@,
            windows,
        )),
        arg is None && !(para_vault is Some && para_vault->0@.len() > 0) && home is None
            && user_profile is None ==> r == RootChoice::CurrentDir,
{
    if let Some(a) = arg {
        return RootChoice::Given(a);
    }
    if let Some(v) = para_vault {
        if !v.as_str().is_empty() {
            return RootChoice::Given(v);
        }
    }
    let found = match home {
        Some(h) => Some(h),
        None => user_profile,
    };
    match found {
        Some(h) => RootChoice::Home(default_user_vault(h.as_str(), windows)),
        None => RootChoice::CurrentDir,
    }
}

} // verus!
