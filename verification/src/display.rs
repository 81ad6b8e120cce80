//! Small display decisions of the window: its frame, the frontmatter grid
//! and the icons of the tree.
use vstd::prelude::*;

use crate::text::{chars_of, contains};
use crate::vault::ParaKind;

verus! {

broadcast use vstd::string::group_string_axioms;

/// Whether the window draws its own rounded frame: everywhere but macOS,
/// where the system draws it.
pub fn paints_own_frame(on_macos: bool) -> (r: bool)
    ensures
        r == !on_macos,
{
    !on_macos
}

/// The number of columns of the frontmatter grid: one for a single field,
/// else two.
pub fn frontmatter_columns(field_count: usize) -> (r: usize)
    ensures
        r == if field_count <= 1 {
            1usize
        } else {
            2usize
        },
{
    if field_count <= 1 {
        1
    } else {
        2
    }
}

/// A value takes a whole grid row when it is longer than 40 characters or
/// spans lines.
pub open spec fn wide_value(value: Seq<char>) -> bool {
    value.len() > 40 || contains(value, "\n"@)
}

/// The number of columns a frontmatter value spans.
pub fn field_span(value: &str, columns: usize) -> (r: usize)
    ensures
        r == if wide_value(value@) {
            columns
        } else {
            1usize
        },
{
    let v = chars_of(value);
    if v.len() > 40 || crate::text::contains_str(&v, "\n") {
        columns
    } else {
        1
    }
}

/// The icons of the vault tree.
#[derive(Debug, Clone, Copy, PartialEq, Eq, Structural)]
pub enum TreeIcon {
    FolderOpen,
    Folder,
    Inbox,
    LayoutDashboard,
    Frame,
    Building2,
    BookOpen,
    FolderClosed,
    File,
}

/// A folder shows open or closed; a note shows the icon of its kind.
pub open spec fn icon_for(is_folder: bool, expanded: bool, kind: ParaKind) -> TreeIcon {
    if is_folder {
        if expanded {
            TreeIcon::FolderOpen
        } else {
            TreeIcon::Folder
        }
    } else {
        match kind {
            ParaKind::Inbox => TreeIcon::Inbox,
            ParaKind::Index => TreeIcon::LayoutDashboard,
            ParaKind::Project => TreeIcon::Frame,
            ParaKind::Area => TreeIcon::Building2,
            ParaKind::Resource => TreeIcon::BookOpen,
            ParaKind::Archive => TreeIcon::FolderClosed,
            ParaKind::Note => TreeIcon::File,
        }
    }
}

/// The icon of a tree row.
pub fn tree_icon(is_folder: bool, expanded: bool, kind: ParaKind) -> (r: TreeIcon)
    ensures
        r == icon_for(is_folder, expanded, kind),
{
    if is_folder {
        return if expanded {
            TreeIcon::FolderOpen
        } else {
            TreeIcon::Folder
        };
    }
    match kind {
        ParaKind::Inbox => TreeIcon::Inbox,
        ParaKind::Index => TreeIcon::LayoutDashboard,
        ParaKind::Project => TreeIcon::Frame,
        ParaKind::Area => TreeIcon::Building2,
        ParaKind::Resource => TreeIcon::BookOpen,
        ParaKind::Archive => TreeIcon::FolderClosed,
        ParaKind::Note => TreeIcon::File,
    }
}

} // verus!
