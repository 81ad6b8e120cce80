//! The vault's notes: the sorted list the assistant mentions and the tree the
//! sidebar shows, computed from what the directory walk found.
use vstd::prelude::*;

use crate::paths::{display_path, markdown_on, shown_on};
use crate::order::{
    lemma_lex_le_transitive, lemma_lex_total, lex_le, lex_le_chars, sort_texts, sorted_lex,
};
use crate::text::{chars_of, eq_str, string_of, views};
use crate::vault::{name_or_empty, MAX_DEPTH};

verus! {

broadcast use vstd::string::group_string_axioms;

/// One entry of a directory as the walk found it: its full path, whether it
/// is a directory, and, for a directory that was read, its entries.
#[derive(Debug)]
pub struct DirEntry {
    pub path: String,
    pub is_dir: bool,
    pub children: Vec<DirEntry>,
}

/// Directory names the tree and the file list never enter: hidden ones and
/// tool or build output.
pub open spec fn skipped_dir(name: Seq<char>) -> bool {
    ||| (name.len() > 0 && name[0] == '.')
    ||| name == ".git"@
    ||| name == ".hg"@
    ||| name == ".svn"@
    ||| name == ".idea"@
    ||| name == ".vscode"@
    ||| name == ".cursor"@
    ||| name == "node_modules"@
    ||| name == "target"@
    ||| name == "dist"@
    ||| name == "build"@
}

/// Hidden folders and tool or build output are skipped, and the PARA folders
/// never are.
pub proof fn law_skipped_folders(name: Seq<char>)
    ensures
        name.len() > 0 && name[0] == '.' ==> skipped_dir(name),
        skipped_dir("node_modules"@),
        skipped_dir("target"@),
        skipped_dir("dist"@),
        skipped_dir("build"@),
        !skipped_dir("Projects"@),
        !skipped_dir("Areas"@),
        !skipped_dir("Resources"@),
        !skipped_dir("Archives"@),
{
    reveal_strlit("node_modules");
    reveal_strlit("target");
    reveal_strlit("dist");
    reveal_strlit("build");
    reveal_strlit("Projects");
    reveal_strlit("Areas");
    reveal_strlit("Resources");
    reveal_strlit("Archives");
    reveal_strlit(".git");
    reveal_strlit(".hg");
    reveal_strlit(".svn");
    reveal_strlit(".idea");
    reveal_strlit(".vscode");
    reveal_strlit(".cursor");
    let ns = seq!["Projects"@, "Areas"@, "Resources"@, "Archives"@];
    assert forall|i: int| 0 <= i < 4 implies !skipped_dir(#[trigger] ns[i]) by {
        assert(ns[i][0] != '.');
        assert(ns[i] != "node_modules"@ && ns[i] != "target"@ && ns[i] != "dist"@ && ns[i]
            != "build"@) by {
            assert(ns[i][0] != "node_modules"@[0] || ns[i].len() != "node_modules"@.len());
            assert(ns[i][0] != "target"@[0] || ns[i].len() != "target"@.len());
            assert(ns[i][0] != "dist"@[0] || ns[i].len() != "dist"@.len());
            assert(ns[i][0] != "build"@[0] || ns[i].len() != "build"@.len());
        }
    }
    assert(ns[0] == "Projects"@ && ns[1] == "Areas"@ && ns[2] == "Resources"@ && ns[3]
        == "Archives"@);
}

/// Whether the walk skips a directory of this name.
pub fn should_skip_dir(name: &str) -> (r: bool)
    ensures
        r == skipped_dir(name@),
{
    let n = chars_of(name);
    (n.len() > 0 && n[0] == '.') || eq_str(&n, ".git") || eq_str(&n, ".hg") || eq_str(&n, ".svn")
        || eq_str(&n, ".idea") || eq_str(&n, ".vscode") || eq_str(&n, ".cursor") || eq_str(
        &n,
        "node_modules",
    ) || eq_str(&n, "target") || eq_str(&n, "dist") || eq_str(&n, "build")
}

/// Whether the walk reads the entries of a directory at `depth`.
pub fn should_descend(depth: usize) -> (r: bool)
    ensures
        r == (depth <= MAX_DEPTH),
{
    depth <= MAX_DEPTH
}

/// The markdown files under `entries` (a directory at `depth`), as paths
/// relative to `root`, in walk order: directories at a depth above the limit
/// are not entered, skipped directories are left out.
pub open spec fn markdown_under(
    root: Seq<char>,
    entries: Seq<DirEntry>,
    depth: nat,
    windows: bool,
) -> Seq<
    Seq<char>,
>
    decreases entries,
{
    if depth > MAX_DEPTH || entries.len() == 0 {
        Seq::empty()
    } else {
        let e = entries.last();
        markdown_under(root, entries.drop_last(), depth, windows) + if e.is_dir {
            if skipped_dir(name_or_empty(e.path@, windows)) {
                Seq::empty()
            } else {
                markdown_under(root, e.children@, depth + 1, windows)
            }
        } else if markdown_on(e.path@, windows) {
            seq![shown_on(root, e.path@, windows)]
        } else {
            Seq::empty()
        }
    }
}

/// The entry's contribution to `markdown_under`.
pub open spec fn markdown_of_entry(
    root: Seq<char>,
    e: DirEntry,
    depth: nat,
    windows: bool,
) -> Seq<Seq<char>> {
    if e.is_dir {
        if skipped_dir(name_or_empty(e.path@, windows)) {
            Seq::empty()
        } else {
            markdown_under(root, e.children@, depth + 1, windows)
        }
    } else if markdown_on(e.path@, windows) {
        seq![shown_on(root, e.path@, windows)]
    } else {
        Seq::empty()
    }
}

proof fn lemma_markdown_under_step(
    root: Seq<char>,
    entries: Seq<DirEntry>,
    depth: nat,
    i: int,
    windows: bool,
)
    requires
        0 <= i < entries.len(),
        depth <= MAX_DEPTH,
    ensures
        markdown_under(root, entries.take(i + 1), depth, windows) == markdown_under(
            root,
            entries.take(i),
            depth,
            windows,
        ) + markdown_of_entry(root, entries[i], depth, windows),
{
    assert(entries.take(i + 1).drop_last() =~= entries.take(i));
    assert(entries.take(i + 1).last() == entries[i]);
}

proof fn lemma_under_concat(
    root: Seq<char>,
    a: Seq<DirEntry>,
    b: Seq<DirEntry>,
    depth: nat,
    windows: bool,
)
    ensures
        markdown_under(root, a + b, depth, windows) == markdown_under(root, a, depth, windows)
            + markdown_under(root, b, depth, windows),
    decreases b.len(),
{
    if depth > MAX_DEPTH {
        assert(markdown_under(root, a, depth, windows) + markdown_under(root, b, depth, windows)
            =~= Seq::<Seq<char>>::empty());
    } else if b.len() == 0 {
        assert(a + b =~= a);
        assert(markdown_under(root, a, depth, windows) + markdown_under(root, b, depth, windows)
            =~= markdown_under(root, a, depth, windows));
    } else {
        let ab = a + b;
        assert(ab.drop_last() =~= a + b.drop_last());
        assert(ab.last() == b.last());
        lemma_under_concat(root, a, b.drop_last(), depth, windows);
        assert(markdown_under(root, ab, depth, windows) == markdown_under(
            root,
            ab.drop_last(),
            depth,
            windows,
        ) + markdown_of_entry(root, ab.last(), depth, windows));
        assert(markdown_under(root, b, depth, windows) == markdown_under(
            root,
            b.drop_last(),
            depth,
            windows,
        ) + markdown_of_entry(root, b.last(), depth, windows));
        assert(markdown_under(root, ab, depth, windows) =~= markdown_under(root, a, depth, windows)
            + markdown_under(root, b, depth, windows));
    }
}

/// The list of a directory holds, in place, what each of its entries adds.
proof fn lemma_under_entry(
    root: Seq<char>,
    entries: Seq<DirEntry>,
    depth: nat,
    windows: bool,
    i: int,
)
    requires
        0 <= i < entries.len(),
        depth <= MAX_DEPTH,
    ensures
        forall|x: Seq<char>|
            markdown_of_entry(root, entries[i], depth, windows).contains(x) ==> markdown_under(
                root,
                entries,
                depth,
                windows,
            ).contains(x),
{
    let a = entries.take(i);
    let one = seq![entries[i]];
    let c = entries.skip(i + 1);
    assert(entries =~= a + one + c);
    lemma_under_concat(root, a + one, c, depth, windows);
    lemma_under_concat(root, a, one, depth, windows);
    assert(one.drop_last() =~= Seq::<DirEntry>::empty());
    assert(one.last() == entries[i]);
    assert(markdown_under(root, Seq::<DirEntry>::empty(), depth, windows) =~= Seq::<
        Seq<char>,
    >::empty());
    assert(markdown_under(root, one, depth, windows) == markdown_under(
        root,
        one.drop_last(),
        depth,
        windows,
    ) + markdown_of_entry(root, one.last(), depth, windows));
    assert(Seq::<Seq<char>>::empty() + markdown_of_entry(root, entries[i], depth, windows)
        =~= markdown_of_entry(root, entries[i], depth, windows));
    assert(markdown_under(root, one, depth, windows) == markdown_of_entry(
        root,
        entries[i],
        depth,
        windows,
    ));
    let whole = markdown_under(root, entries, depth, windows);
    let pre = markdown_under(root, a, depth, windows);
    let mid = markdown_of_entry(root, entries[i], depth, windows);
    assert(whole == pre + mid + markdown_under(root, c, depth, windows));
    assert forall|x: Seq<char>| mid.contains(x) implies whole.contains(x) by {
        let k = choose|k: int| 0 <= k < mid.len() && mid[k] == x;
        assert(whole[pre.len() + k] == x);
    }
}

/// Every markdown note directly in a listed directory is in its list, shown
/// relative to the vault root.
pub proof fn law_listing_holds_each_note(
    root: Seq<char>,
    entries: Seq<DirEntry>,
    depth: nat,
    windows: bool,
    i: int,
)
    requires
        0 <= i < entries.len(),
        depth <= MAX_DEPTH,
        !entries[i].is_dir,
        markdown_on(entries[i].path@, windows),
    ensures
        markdown_under(root, entries, depth, windows).contains(
            shown_on(root, entries[i].path@, windows),
        ),
{
    lemma_under_entry(root, entries, depth, windows, i);
    let mid = markdown_of_entry(root, entries[i], depth, windows);
    assert(mid == seq![shown_on(root, entries[i].path@, windows)]);
    assert(mid.contains(shown_on(root, entries[i].path@, windows))) by {
        assert(mid[0] == shown_on(root, entries[i].path@, windows));
    }
}

/// The list descends into every folder that is not skipped: what a folder
/// in a listed directory lists is listed there too. With the previous law,
/// every markdown note reached through folders that are not skipped, within
/// the depth limit, is in the vault's file list.
pub proof fn law_listing_descends_into_folders(
    root: Seq<char>,
    entries: Seq<DirEntry>,
    depth: nat,
    windows: bool,
    i: int,
)
    requires
        0 <= i < entries.len(),
        depth <= MAX_DEPTH,
        entries[i].is_dir,
        !skipped_dir(name_or_empty(entries[i].path@, windows)),
    ensures
        forall|x: Seq<char>|
            markdown_under(root, entries[i].children@, depth + 1, windows).contains(x)
                ==> markdown_under(root, entries, depth, windows).contains(x),
{
    lemma_under_entry(root, entries, depth, windows, i);
}

fn collect_markdown(
    root: &str,
    entries: &Vec<DirEntry>,
    depth: usize,
    out: &mut Vec<Vec<char>>,
    windows: bool,
)
    ensures
        views(final(out)@) == views(old(out)@) + markdown_under(
            root@,
            entries@,
            depth as nat,
            windows,
        ),
    decreases entries@,
{
    let ghost start = views(out@);
    if depth > MAX_DEPTH {
        assert(views(out@) =~= start + Seq::<Seq<char>>::empty());
        return;
    }
    let mut i: usize = 0;
    assert(entries@.take(0) =~= Seq::<DirEntry>::empty());
    assert(views(out@) =~= start + markdown_under(root@, entries@.take(0), depth as nat, windows));
    while i < entries.len()
        invariant
            depth <= MAX_DEPTH,
            i <= entries@.len(),
            views(out@) == start + markdown_under(
                root@,
                entries@.take(i as int),
                depth as nat,
                windows,
            ),
        decreases entries@.len() - i,
    {
        proof {
            lemma_markdown_under_step(root@, entries@, depth as nat, i as int, windows);
        }
        let e = &entries[i];
        let ghost mid = views(out@);
        if e.is_dir {
            let name = crate::vault::file_name(e.path.as_str(), windows);
            if !should_skip_dir(name.as_str()) {
                assert(decreases_to!(entries@ => entries@[i as int]));
                collect_markdown(root, &e.children, depth + 1, out, windows);
            } else {
                assert(views(out@) =~= mid + Seq::<Seq<char>>::empty());
            }
        } else {
            let p = chars_of(e.path.as_str());
            if crate::paths::is_markdown_chars(&p, windows) {
                let shown = display_path(root, e.path.as_str(), windows);
                let sc = chars_of(shown.as_str());
                out.push(sc);
                assert(views(out@) =~= mid + seq![shown_on(root@, e.path@, windows)]);
            } else {
                assert(views(out@) =~= mid + Seq::<Seq<char>>::empty());
            }
        }
        assert(views(out@) =~= start + markdown_under(
            root@,
            entries@.take((i + 1) as int),
            depth as nat,
            windows,
        ));
        i = i + 1;
    }
    assert(entries@.take(entries@.len() as int) =~= entries@);
}

/// The markdown notes of the vault at `root`, as paths relative to it with
/// `/` separators, sorted.
pub open spec fn vault_files(root: Seq<char>, entries: Seq<DirEntry>, windows: bool) -> Seq<
    Seq<char>,
> {
    markdown_under(root, entries, 0, windows)
}

/// The markdown notes of the vault whose root directory holds `entries`,
/// relative to `root`, in sorted order.
pub fn vault_file_list(root: &str, entries: &Vec<DirEntry>, windows: bool) -> (r: Vec<String>)
    ensures
        sorted_lex(r@.map_values(|s: String| s@)),
        r@.map_values(|s: String| s@).to_multiset() == vault_files(
            root@,
            entries@,
            windows,
        ).to_multiset(),
{
    let mut found: Vec<Vec<char>> = Vec::new();
    assert(views(found@) =~= Seq::<Seq<char>>::empty());
    collect_markdown(root, entries, 0, &mut found, windows);
    assert(views(found@) =~= vault_files(root@, entries@, windows));
    let sorted = sort_texts(&found);
    let mut r: Vec<String> = Vec::new();
    let mut i: usize = 0;
    while i < sorted.len()
        invariant
            i <= sorted@.len(),
            r@.map_values(|s: String| s@) == views(sorted@).take(i as int),
        decreases sorted@.len() - i,
    {
        let ghost before = r@.map_values(|s: String| s@);
        r.push(string_of(&sorted[i]));
        assert(r@.map_values(|s: String| s@) =~= before.push(sorted@[i as int]@));
        assert(views(sorted@).take((i + 1) as int) =~= views(sorted@).take(i as int).push(
            sorted@[i as int]@,
        ));
        i = i + 1;
    }
    assert(views(sorted@).take(sorted@.len() as int) =~= views(sorted@));
    r
}

// ---------------------------------------------------------------------------
// The sidebar tree
// ---------------------------------------------------------------------------

/// The four PARA folder names.
pub open spec fn para_dir(name: Seq<char>) -> bool {
    name == "Projects"@ || name == "Areas"@ || name == "Resources"@ || name == "Archives"@
}

pub fn is_para_dir(name: &str) -> (r: bool)
    ensures
        r == para_dir(name@),
{
    let n = chars_of(name);
    eq_str(&n, "Projects") || eq_str(&n, "Areas") || eq_str(&n, "Resources") || eq_str(
        &n,
        "Archives",
    )
}

/// Where an entry sorts in the tree: the inbox, the index, then the four
/// PARA folders in order, then other folders, then other notes.
pub open spec fn rank_of(name: Seq<char>, is_dir: bool) -> nat {
    if name == "INBOX.md"@ || name == "Inbox.md"@ {
        0
    } else if name == "INDEX.md"@ || name == "Index.md"@ {
        1
    } else if name == "Projects"@ {
        2
    } else if name == "Areas"@ {
        3
    } else if name == "Resources"@ {
        4
    } else if name == "Archives"@ {
        5
    } else if is_dir {
        6
    } else {
        7
    }
}

/// A name that is neither a starter note nor a PARA folder.
pub open spec fn ordinary_name(n: Seq<char>) -> bool {
    n != "INBOX.md"@ && n != "Inbox.md"@ && n != "INDEX.md"@ && n != "Index.md"@ && n
        != "Projects"@ && n != "Areas"@ && n != "Resources"@ && n != "Archives"@
}

/// The tree's order of ranks: the inbox note, the index note, then
/// `Projects`, `Areas`, `Resources` and `Archives`, then every other folder,
/// then every other note; each step strictly before the next, and the two
/// spellings of the inbox and of the index ranked alike.
pub proof fn law_tree_rank_order(folder: Seq<char>, note: Seq<char>, d1: bool, d2: bool)
    requires
        ordinary_name(folder),
        ordinary_name(note),
    ensures
        rank_of("INBOX.md"@, d1) == rank_of("Inbox.md"@, d2),
        rank_of("INDEX.md"@, d1) == rank_of("Index.md"@, d2),
        rank_of("Inbox.md"@, d1) < rank_of("Index.md"@, d2),
        rank_of("Index.md"@, d1) < rank_of("Projects"@, d2),
        rank_of("Projects"@, d1) < rank_of("Areas"@, d2),
        rank_of("Areas"@, d1) < rank_of("Resources"@, d2),
        rank_of("Resources"@, d1) < rank_of("Archives"@, d2),
        rank_of("Archives"@, d1) < rank_of(folder, true),
        rank_of(folder, true) < rank_of(note, false),
{
    crate::vault::lemma_names_distinct();
}

pub fn sort_rank(name: &str, is_dir: bool) -> (r: u8)
    ensures
        r as nat == rank_of(name@, is_dir),
{
    let n = chars_of(name);
    if eq_str(&n, "INBOX.md") || eq_str(&n, "Inbox.md") {
        0
    } else if eq_str(&n, "INDEX.md") || eq_str(&n, "Index.md") {
        1
    } else if eq_str(&n, "Projects") {
        2
    } else if eq_str(&n, "Areas") {
        3
    } else if eq_str(&n, "Resources") {
        4
    } else if eq_str(&n, "Archives") {
        5
    } else if is_dir {
        6
    } else {
        7
    }
}

/// What `str::to_lowercase` makes of a text (full Unicode case mapping).
pub uninterp spec fn lowercase(s: Seq<char>) -> Seq<char>;

/// Lower-cases a text with std's `str::to_lowercase`.
///
/// Trusted: the result is the named mapping `lowercase` of the argument; the
/// Unicode case tables behind it are not stated.
#[verifier::external_body]
fn to_lowercase(s: &str) -> (r: String)
    ensures
        r@ == lowercase(s@),
{
    s.to_lowercase()
}

/// One row of the sidebar tree.
#[derive(Debug)]
pub struct TreeNode {
    pub id: String,
    pub label: String,
    pub expanded: bool,
    pub children: Vec<TreeNode>,
}

/// What a row of the tree shows.
pub struct TreeView {
    pub id: Seq<char>,
    pub label: Seq<char>,
    pub expanded: bool,
    pub children: Seq<TreeView>,
}

pub open spec fn node_view(n: TreeNode) -> TreeView
    decreases n,
{
    TreeView {
        id: n.id@,
        label: n.label@,
        expanded: n.expanded,
        children: nodes_view(n.children@),
    }
}

pub open spec fn nodes_view(s: Seq<TreeNode>) -> Seq<TreeView>
    decreases s,
{
    if s.len() == 0 {
        Seq::empty()
    } else {
        nodes_view(s.drop_last()).push(node_view(s.last()))
    }
}

/// A row before sorting: its rank, its lower-cased name and what it shows.
pub struct Row {
    pub rank: nat,
    pub key: Seq<char>,
    pub node: TreeView,
}

/// Rows sort by rank, then by lower-cased name.
pub open spec fn row_le(a: Row, b: Row) -> bool {
    a.rank < b.rank || (a.rank == b.rank && lex_le(a.key, b.key))
}

/// `x` placed after the leading rows of `s` that sort before it or with it.
pub open spec fn place(s: Seq<Row>, x: Row) -> Seq<Row>
    decreases s.len(),
{
    if s.len() == 0 {
        seq![x]
    } else if row_le(s[0], x) {
        seq![s[0]] + place(s.drop_first(), x)
    } else {
        seq![x] + s
    }
}

/// The rows in sorted order; rows that sort together keep their order
/// (`slice::sort_by` is stable).
pub open spec fn sort_rows(rows: Seq<Row>) -> Seq<Row>
    decreases rows.len(),
{
    if rows.len() == 0 {
        Seq::empty()
    } else {
        place(sort_rows(rows.drop_last()), rows.last())
    }
}

/// The rows a directory at `depth` contributes, in walk order: nameless
/// entries, skipped directories, folders that show nothing (other than the
/// PARA folders) and non-markdown files are left out; a PARA folder at the
/// top starts expanded.
pub open spec fn tree_rows(entries: Seq<DirEntry>, depth: nat, windows: bool) -> Seq<Row>
    decreases entries, 0nat,
{
    if depth > MAX_DEPTH || entries.len() == 0 {
        Seq::empty()
    } else {
        let e = entries.last();
        let name = name_or_empty(e.path@, windows);
        let rest = tree_rows(entries.drop_last(), depth, windows);
        if name.len() == 0 {
            rest
        } else if e.is_dir {
            if skipped_dir(name) {
                rest
            } else {
                let children = tree_of(e.children@, depth + 1, windows);
                if children.len() == 0 && !para_dir(name) {
                    rest
                } else {
                    rest.push(
                        Row {
                            rank: rank_of(name, true),
                            key: lowercase(name),
                            node: TreeView {
                                id: e.path@,
                                label: name,
                                expanded: depth == 0 && para_dir(name),
                                children: children,
                            },
                        },
                    )
                }
            }
        } else if markdown_on(e.path@, windows) {
            rest.push(
                Row {
                    rank: rank_of(name, false),
                    key: lowercase(name),
                    node: TreeView {
                        id: e.path@,
                        label: name,
                        expanded: false,
                        children: Seq::empty(),
                    },
                },
            )
        } else {
            rest
        }
    }
}

/// The tree rows of a directory at `depth`, sorted.
pub open spec fn tree_of(entries: Seq<DirEntry>, depth: nat, windows: bool) -> Seq<TreeView>
    decreases entries, 1nat,
{
    sort_rows(tree_rows(entries, depth, windows)).map_values(|r: Row| r.node)
}

/// A row of the tree before sorting: its rank (see `sort_rank`), its
/// lower-cased name and the node it shows.
#[derive(Debug)]
pub struct TreeRow {
    pub rank: u8,
    pub key: Vec<char>,
    pub node: TreeNode,
}

pub open spec fn row_view(r: TreeRow) -> Row {
    Row { rank: r.rank as nat, key: r.key@, node: node_view(r.node) }
}

pub open spec fn rows_view(s: Seq<TreeRow>) -> Seq<Row> {
    s.map_values(|r: TreeRow| row_view(r))
}

fn row_le_exec(a: &TreeRow, b: &TreeRow) -> (r: bool)
    ensures
        r == row_le(row_view(*a), row_view(*b)),
{
    a.rank < b.rank || (a.rank == b.rank && lex_le_chars(&a.key, &b.key))
}

proof fn lemma_place_at(s: Seq<Row>, x: Row, p: int)
    requires
        0 <= p <= s.len(),
        forall|k: int| 0 <= k < p ==> row_le(#[trigger] s[k], x),
        p < s.len() ==> !row_le(s[p], x),
    ensures
        place(s, x) == s.insert(p, x),
    decreases p,
{
    if p == 0 {
        assert(s.insert(0, x) =~= seq![x] + s);
    } else {
        assert(row_le(s[0], x));
        let t = s.drop_first();
        assert forall|k: int| 0 <= k < p - 1 implies row_le(#[trigger] t[k], x) by {
            assert(t[k] == s[k + 1]);
        }
        if p - 1 < t.len() {
            assert(t[p - 1] == s[p]);
        }
        lemma_place_at(t, x, p - 1);
        assert(seq![s[0]] + t.insert(p - 1, x) =~= s.insert(p, x));
    }
}

proof fn lemma_sort_rows_step(rows: Seq<Row>, i: int)
    requires
        0 <= i < rows.len(),
    ensures
        sort_rows(rows.take(i + 1)) == place(sort_rows(rows.take(i)), rows[i]),
{
    assert(rows.take(i + 1).drop_last() =~= rows.take(i));
    assert(rows.take(i + 1).last() == rows[i]);
}

fn sort_row_entries(rows: Vec<TreeRow>) -> (r: Vec<TreeRow>)
    ensures
        rows_view(r@) == sort_rows(rows_view(rows@)),
{
    let ghost orig = rows_view(rows@);
    let n = rows.len();
    let mut rest = rows;
    let mut out: Vec<TreeRow> = Vec::new();
    let mut i: usize = 0;
    assert(orig.skip(0) =~= orig);
    assert(orig.take(0) =~= Seq::<Row>::empty());
    assert(rows_view(out@) =~= Seq::<Row>::empty());
    while i < n
        invariant
            n == orig.len(),
            i <= n,
            rows_view(rest@) == orig.skip(i as int),
            rows_view(out@) == sort_rows(orig.take(i as int)),
        decreases n - i,
    {
        proof {
            lemma_sort_rows_step(orig, i as int);
        }
        let ghost rest_before = rows_view(rest@);
        assert(rest_before.len() == n - i);
        let x = rest.remove(0);
        assert(rows_view(rest@) =~= rest_before.drop_first());
        assert(rest_before[0] == orig[i as int]);
        assert(row_view(x) == orig[i as int]);
        assert(orig.skip(i as int).drop_first() =~= orig.skip((i + 1) as int));
        let ghost ov = rows_view(out@);
        let mut p: usize = 0;
        while p < out.len() && row_le_exec(&out[p], &x)
            invariant
                ov == rows_view(out@),
                p <= ov.len(),
                forall|k: int| 0 <= k < p ==> row_le(#[trigger] ov[k], row_view(x)),
            decreases ov.len() - p,
        {
            p = p + 1;
        }
        proof {
            lemma_place_at(ov, row_view(x), p as int);
        }
        out.insert(p, x);
        assert(rows_view(out@) =~= ov.insert(p as int, row_view(x)));
        i = i + 1;
    }
    assert(orig.take(n as int) =~= orig);
    out
}

proof fn lemma_nodes_view_push(s: Seq<TreeNode>, n: TreeNode)
    ensures
        nodes_view(s.push(n)) == nodes_view(s).push(node_view(n)),
{
    assert(s.push(n).drop_last() =~= s);
    assert(s.push(n).last() == n);
}

fn nodes_of(rows: Vec<TreeRow>) -> (r: Vec<TreeNode>)
    ensures
        nodes_view(r@) == rows_view(rows@).map_values(|r: Row| r.node),
{
    let ghost orig = rows_view(rows@);
    let n = rows.len();
    let mut rest = rows;
    let mut out: Vec<TreeNode> = Vec::new();
    let mut i: usize = 0;
    assert(orig.skip(0) =~= orig);
    assert(nodes_view(out@) =~= orig.take(0).map_values(|r: Row| r.node));
    while i < n
        invariant
            n == orig.len(),
            i <= n,
            rows_view(rest@) == orig.skip(i as int),
            nodes_view(out@) == orig.take(i as int).map_values(|r: Row| r.node),
        decreases n - i,
    {
        let ghost rest_before = rows_view(rest@);
        assert(rest_before.len() == n - i);
        let x = rest.remove(0);
        assert(rows_view(rest@) =~= rest_before.drop_first());
        assert(rest_before[0] == orig[i as int]);
        assert(orig.skip(i as int).drop_first() =~= orig.skip((i + 1) as int));
        proof {
            lemma_nodes_view_push(out@, x.node);
        }
        let ghost before = out@;
        out.push(x.node);
        assert(out@ == before.push(x.node));
        assert(orig.take((i + 1) as int).map_values(|r: Row| r.node) =~= orig.take(
            i as int,
        ).map_values(|r: Row| r.node).push(orig[i as int].node));
        i = i + 1;
    }
    assert(orig.take(n as int) =~= orig);
    out
}

proof fn lemma_tree_rows_step(entries: Seq<DirEntry>, depth: nat, i: int, windows: bool)
    requires
        0 <= i < entries.len(),
    ensures
        entries.take(i + 1).drop_last() == entries.take(i),
        entries.take(i + 1).last() == entries[i],
        entries.take(i + 1).len() > 0,
{
    assert(entries.take(i + 1).drop_last() =~= entries.take(i));
}

fn scan_dir(entries: &Vec<DirEntry>, depth: usize, windows: bool) -> (r: Vec<TreeNode>)
    ensures
        nodes_view(r@) == tree_of(entries@, depth as nat, windows),
    decreases entries@,
{
    let mut rows: Vec<TreeRow> = Vec::new();
    if depth > MAX_DEPTH {
        let none: Vec<TreeNode> = Vec::new();
        assert(nodes_view(none@) =~= tree_of(entries@, depth as nat, windows));
        return none;
    }
    let mut i: usize = 0;
    assert(entries@.take(0) =~= Seq::<DirEntry>::empty());
    assert(rows_view(rows@) =~= tree_rows(entries@.take(0), depth as nat, windows));
    while i < entries.len()
        invariant
            depth <= MAX_DEPTH,
            i <= entries@.len(),
            rows_view(rows@) == tree_rows(entries@.take(i as int), depth as nat, windows),
        decreases entries@.len() - i,
    {
        proof {
            lemma_tree_rows_step(entries@, depth as nat, i as int, windows);
        }
        let e = &entries[i];
        let ghost before = rows_view(rows@);
        let name = crate::vault::file_name(e.path.as_str(), windows);
        if name.as_str().is_empty() {
        } else if e.is_dir {
            if should_skip_dir(name.as_str()) {
            } else {
                assert(decreases_to!(entries@ => entries@[i as int]));
                let children = scan_dir(&e.children, depth + 1, windows);
                if children.len() == 0 && !is_para_dir(name.as_str()) {
                    assert(nodes_view(children@).len() == 0) by {
                        assert(children@ =~= Seq::<TreeNode>::empty());
                    }
                } else {
                    if children.len() == 0 {
                        assert(children@ =~= Seq::<TreeNode>::empty());
                    } else {
                        assert(nodes_view(children@).len() > 0);
                    }
                    let rank = sort_rank(name.as_str(), true);
                    let lower = to_lowercase(name.as_str());
                    let key = chars_of(lower.as_str());
                    let expanded = depth == 0 && is_para_dir(name.as_str());
                    let node = TreeNode {
                        id: e.path.clone(),
                        label: name,
                        expanded: expanded,
                        children: children,
                    };
                    rows.push(TreeRow { rank, key, node });
                    assert(rows_view(rows@) =~= before.push(row_view(rows@.last())));
                }
            }
        } else if crate::paths::is_markdown_chars(&chars_of(e.path.as_str()), windows) {
            let rank = sort_rank(name.as_str(), false);
            let lower = to_lowercase(name.as_str());
            let key = chars_of(lower.as_str());
            let node = TreeNode {
                id: e.path.clone(),
                label: name,
                expanded: false,
                children: Vec::new(),
            };
            assert(nodes_view(node.children@) =~= Seq::<TreeView>::empty());
            rows.push(TreeRow { rank, key, node });
            assert(rows_view(rows@) =~= before.push(row_view(rows@.last())));
        }
        i = i + 1;
    }
    assert(entries@.take(entries@.len() as int) =~= entries@);
    sort_tree_rows(rows)
}

/// The nodes of a folder's rows, sorted by rank and then by key; rows that
/// sort together keep their order.
pub fn sort_tree_rows(rows: Vec<TreeRow>) -> (r: Vec<TreeNode>)
    ensures
        nodes_view(r@) == sort_rows(rows_view(rows@)).map_values(|x: Row| x.node),
{
    let sorted = sort_row_entries(rows);
    nodes_of(sorted)
}

/// The sidebar tree of the vault whose root directory holds `entries`.
pub fn scan_tree(entries: &Vec<DirEntry>, windows: bool) -> (r: Vec<TreeNode>)
    ensures
        nodes_view(r@) == tree_of(entries@, 0, windows),
{
    scan_dir(entries, 0, windows)
}

// ---------------------------------------------------------------------------
// The order of the tree
// ---------------------------------------------------------------------------

/// Every row sorts with or before every later row.
pub open spec fn rows_sorted(s: Seq<Row>) -> bool {
    forall|i: int, j: int| 0 <= i < j < s.len() ==> row_le(#[trigger] s[i], #[trigger] s[j])
}

proof fn lemma_row_le_total(a: Row, b: Row)
    ensures
        row_le(a, b) || row_le(b, a),
{
    if a.rank == b.rank {
        lemma_lex_total(a.key, b.key);
    }
}

proof fn lemma_row_le_transitive(a: Row, b: Row, c: Row)
    requires
        row_le(a, b),
        row_le(b, c),
    ensures
        row_le(a, c),
{
    if a.rank == b.rank && b.rank == c.rank {
        lemma_lex_le_transitive(a.key, b.key, c.key);
    }
}

proof fn lemma_cons_multiset(a: Row, t: Seq<Row>)
    ensures
        (seq![a] + t).to_multiset() == t.to_multiset().insert(a),
{
    broadcast use vstd::seq_lib::group_to_multiset_ensures;

    assert(t.insert(0, a) =~= seq![a] + t);
    vstd::seq_lib::to_multiset_insert(t, 0, a);
}

proof fn lemma_place_props(s: Seq<Row>, x: Row)
    requires
        rows_sorted(s),
    ensures
        rows_sorted(place(s, x)),
        place(s, x).to_multiset() == s.to_multiset().insert(x),
    decreases s.len(),
{
    broadcast use vstd::seq_lib::group_to_multiset_ensures;

    if s.len() == 0 {
        assert(place(s, x) =~= seq![x]);
        lemma_cons_multiset(x, s);
        assert(seq![x] + s =~= seq![x]);
    } else if row_le(s[0], x) {
        let d = s.drop_first();
        assert(rows_sorted(d)) by {
            assert forall|i: int, j: int| 0 <= i < j < d.len() implies row_le(
                #[trigger] d[i],
                #[trigger] d[j],
            ) by {
                assert(d[i] == s[i + 1] && d[j] == s[j + 1]);
            }
        }
        lemma_place_props(d, x);
        let t = place(d, x);
        let r = seq![s[0]] + t;
        assert(place(s, x) == r);
        lemma_cons_multiset(s[0], t);
        lemma_cons_multiset(s[0], d);
        assert(s =~= seq![s[0]] + d);
        assert forall|i: int, j: int| 0 <= i < j < r.len() implies row_le(
            #[trigger] r[i],
            #[trigger] r[j],
        ) by {
            if i == 0 {
                let y = r[j];
                assert(y == t[j - 1]);
                assert(t.contains(y));
                assert(t.to_multiset().count(y) > 0);
                if y != x {
                    assert(d.to_multiset().count(y) > 0);
                    assert(d.contains(y));
                    let k = choose|k: int| 0 <= k < d.len() && d[k] == y;
                    assert(s[k + 1] == y);
                }
            } else {
                assert(r[i] == t[i - 1] && r[j] == t[j - 1]);
            }
        }
    } else {
        lemma_row_le_total(s[0], x);
        let r = seq![x] + s;
        assert(place(s, x) == r);
        lemma_cons_multiset(x, s);
        assert forall|i: int, j: int| 0 <= i < j < r.len() implies row_le(
            #[trigger] r[i],
            #[trigger] r[j],
        ) by {
            if i == 0 {
                assert(r[j] == s[j - 1]);
                if j - 1 > 0 {
                    lemma_row_le_transitive(x, s[0], s[j - 1]);
                }
            } else {
                assert(r[i] == s[i - 1] && r[j] == s[j - 1]);
            }
        }
    }
}

/// The tree shows each folder's rows in order: by rank (the inbox, the
/// index, the four PARA folders, other folders, other notes), then by
/// lower-cased name; sorting neither drops nor repeats a row.
pub proof fn law_tree_rows_are_ordered(rows: Seq<Row>)
    ensures
        rows_sorted(sort_rows(rows)),
        sort_rows(rows).to_multiset() == rows.to_multiset(),
    decreases rows.len(),
{
    broadcast use vstd::seq_lib::group_to_multiset_ensures;

    if rows.len() == 0 {
        assert(sort_rows(rows) =~= rows);
    } else {
        law_tree_rows_are_ordered(rows.drop_last());
        lemma_place_props(sort_rows(rows.drop_last()), rows.last());
        assert(rows =~= rows.drop_last().push(rows.last()));
    }
}

} // verus!
