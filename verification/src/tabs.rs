//! The open notes of the preview and which one is shown.
use vstd::prelude::*;

use crate::frontmatter::field_views;
use crate::paths::{components_on, same_path};
use crate::text::chars_of;
use crate::vault::OpenTab;

verus! {

broadcast use vstd::string::group_string_axioms;

/// What an open note is: its path, title, body and fields.
pub type TabView = (Seq<char>, Seq<char>, Seq<char>, Seq<(Seq<char>, Seq<char>)>);

pub open spec fn tab_view(t: OpenTab) -> TabView {
    (t.path@, t.title@, t.content@, field_views(t.frontmatter@))
}

/// The notes open in the preview, in tab order, and the index of the shown
/// one. With no tabs the index is 0; `select` may leave it past the end, and
/// then no tab is shown.
pub struct Tabs {
    tabs: Vec<OpenTab>,
    active: usize,
}

impl View for Tabs {
    type V = (Seq<TabView>, nat);

    closed spec fn view(&self) -> (Seq<TabView>, nat) {
        (self.tabs@.map_values(|t: OpenTab| tab_view(t)), self.active as nat)
    }
}

/// The index of the first tab whose path has the components of `path`.
pub open spec fn tab_index(tabs: Seq<TabView>, path: Seq<char>, from: int, windows: bool) -> Option<
    nat,
>
    decreases tabs.len() - from,
{
    if from < 0 || from >= tabs.len() {
        None
    } else if components_on(tabs[from].0, windows) == components_on(path, windows) {
        Some(from as nat)
    } else {
        tab_index(tabs, path, from + 1, windows)
    }
}

/// The shown index after the tab at `index` is closed in a list of `len`
/// tabs: 0 once no tab is left, the new last tab when the index ran past the
/// end, one less when a tab before it was closed, else unchanged.
pub open spec fn active_after_close(active: nat, index: nat, len: nat) -> nat {
    if len - 1 == 0 {
        0
    } else if active >= len - 1 {
        (len - 2) as nat
    } else if active > index {
        (active - 1) as nat
    } else {
        active
    }
}

impl Tabs {
    /// No open tabs.
    pub fn new() -> (r: Tabs)
        ensures
            r@ == (Seq::<TabView>::empty(), 0nat),
    {
        let r = Tabs { tabs: Vec::new(), active: 0 };
        assert(r@.0 =~= Seq::<TabView>::empty());
        r
    }

    /// The number of open tabs.
    pub fn len(&self) -> (r: usize)
        ensures
            r == self@.0.len(),
    {
        self.tabs.len()
    }

    /// The index of the shown tab.
    pub fn active_index(&self) -> (r: usize)
        ensures
            r == self@.1,
    {
        self.active
    }

    /// The shown tab, if the index points at one.
    pub fn active_tab(&self) -> (r: Option<&OpenTab>)
        ensures
            match r {
                Some(t) => self@.1 < self@.0.len() && tab_view(*t) == self@.0[self@.1 as int],
                None => self@.1 >= self@.0.len(),
            },
    {
        if self.active < self.tabs.len() {
            Some(&self.tabs[self.active])
        } else {
            None
        }
    }

    /// The tab at `index`, if there is one.
    pub fn get(&self, index: usize) -> (r: Option<&OpenTab>)
        ensures
            match r {
                Some(t) => index < self@.0.len() && tab_view(*t) == self@.0[index as int],
                None => index >= self@.0.len(),
            },
    {
        if index < self.tabs.len() {
            Some(&self.tabs[index])
        } else {
            None
        }
    }

    /// The index of the tab already showing `path`, if any.
    pub fn position(&self, path: &str, windows: bool) -> (r: Option<usize>)
        ensures
            match r {
                Some(i) => tab_index(self@.0, path@, 0, windows) == Some(i as nat),
                None => tab_index(self@.0, path@, 0, windows) is None,
            },
    {
        let pc = chars_of(path);
        let ghost tv = self@.0;
        let mut i: usize = 0;
        while i < self.tabs.len()
            invariant
                tv == self@.0,
                pc@ == path@,
                i <= tv.len(),
                tab_index(tv, path@, 0, windows) == tab_index(tv, path@, i as int, windows),
            decreases tv.len() - i,
        {
            let tc = chars_of(self.tabs[i].path.as_str());
            assert(tv[i as int].0 == self.tabs@[i as int].path@);
            if same_path(&tc, &pc, windows) {
                return Some(i);
            }
            i = i + 1;
        }
        None
    }

    /// Shows the tab at `index`; true when that changed the shown tab.
    pub fn select(&mut self, index: usize) -> (changed: bool)
        ensures
            final(self)@ == (old(self)@.0, index as nat),
            changed == (old(self)@.1 != index),
    {
        if self.active != index {
            self.active = index;
            true
        } else {
            false
        }
    }

    /// Adds a tab at the end and shows it.
    pub fn push(&mut self, tab: OpenTab)
        ensures
            final(self)@ == (old(self)@.0.push(tab_view(tab)), old(self)@.0.len()),
    {
        let ghost before = self@.0;
        self.tabs.push(tab);
        self.active = self.tabs.len() - 1;
        assert(self@.0 =~= before.push(tab_view(tab)));
    }

    /// Closes the tab at `index`; an index past the end changes nothing.
    /// True when a tab was closed.
    pub fn close(&mut self, index: usize) -> (closed: bool)
        ensures
            closed == (index < old(self)@.0.len()),
            closed ==> final(self)@ == (
                old(self)@.0.remove(index as int),
                active_after_close(old(self)@.1, index as nat, old(self)@.0.len()),
            ),
            !closed ==> final(self)@ == old(self)@,
    {
        if index >= self.tabs.len() {
            return false;
        }
        let ghost before = self@.0;
        self.tabs.remove(index);
        assert(self@.0 =~= before.remove(index as int));
        if self.tabs.len() == 0 {
            self.active = 0;
        } else if self.active >= self.tabs.len() {
            self.active = self.tabs.len() - 1;
        } else if self.active > index {
            self.active = self.active - 1;
        }
        true
    }
}

/// Closing a tab leaves a valid shown index: a tab is shown whenever one is
/// left, and the index is 0 when none is.
pub proof fn law_close_keeps_a_tab_shown(active: nat, index: nat, len: nat)
    requires
        index < len,
    ensures
        len - 1 > 0 ==> active_after_close(active, index, len) < len - 1,
        len - 1 == 0 ==> active_after_close(active, index, len) == 0,
{
}

/// Closing another tab keeps the same note shown: when the shown tab is not
/// the closed one, it is still the shown tab afterwards.
pub proof fn law_close_keeps_shown_note(tabs: Seq<TabView>, active: nat, index: nat)
    requires
        index < tabs.len(),
        active < tabs.len(),
        active != index,
    ensures
        tabs.remove(index as int)[active_after_close(active, index, tabs.len()) as int]
            == tabs[active as int],
{
}

/// Opening a note that is not open yet shows it: after `push` the shown tab is
/// the new one.
pub proof fn law_push_shows_new_tab(tabs: Seq<TabView>, t: TabView)
    ensures
        tabs.push(t)[tabs.len() as int] == t,
{
}

/// No note is open in two tabs: no two tabs' paths have the same components.
pub open spec fn distinct_notes(tabs: Seq<TabView>, windows: bool) -> bool {
    forall|i: int, j: int|
        0 <= i < j < tabs.len() ==> components_on(#[trigger] tabs[i].0, windows) != components_on(
            #[trigger] tabs[j].0, windows)
}

proof fn lemma_tab_index(tabs: Seq<TabView>, path: Seq<char>, from: int, windows: bool)
    requires
        0 <= from,
    ensures
        match tab_index(tabs, path, from, windows) {
            Some(i) => from <= i < tabs.len() && components_on(tabs[i as int].0, windows)
                == components_on(path, windows),
            None => forall|k: int|
                from <= k < tabs.len() ==> components_on(#[trigger] tabs[k].0, windows)
                    != components_on(path, windows),
        },
    decreases tabs.len() - from,
{
    if from < tabs.len() && components_on(tabs[from].0, windows) != components_on(path, windows) {
        lemma_tab_index(tabs, path, from + 1, windows);
    }
}

/// Looking a note up finds the tab that shows it, and reports none only when
/// no tab shows it.
pub proof fn law_lookup_finds_open_note(tabs: Seq<TabView>, path: Seq<char>, windows: bool)
    ensures
        match tab_index(tabs, path, 0, windows) {
            Some(i) => i < tabs.len() && components_on(tabs[i as int].0, windows)
                == components_on(path, windows),
            None => forall|k: int|
                0 <= k < tabs.len() ==> components_on(#[trigger] tabs[k].0, windows)
                    != components_on(path, windows),
        },
{
    lemma_tab_index(tabs, path, 0, windows);
}

/// Opening a note that the lookup did not find keeps every note in one tab.
pub proof fn law_open_keeps_notes_distinct(tabs: Seq<TabView>, t: TabView, windows: bool)
    requires
        distinct_notes(tabs, windows),
        tab_index(tabs, t.0, 0, windows) is None,
    ensures
        distinct_notes(tabs.push(t), windows),
{
    lemma_tab_index(tabs, t.0, 0, windows);
    let r = tabs.push(t);
    assert forall|i: int, j: int| 0 <= i < j < r.len() implies components_on(
        #[trigger] r[i].0, windows) != components_on(#[trigger] r[j].0, windows) by {
        assert(r[i] == tabs[i]);
        if j < tabs.len() {
            assert(r[j] == tabs[j]);
        } else {
            assert(r[j] == t);
        }
    }
}

/// Closing a tab keeps every note in one tab.
pub proof fn law_close_keeps_notes_distinct(tabs: Seq<TabView>, index: nat, windows: bool)
    requires
        distinct_notes(tabs, windows),
        index < tabs.len(),
    ensures
        distinct_notes(tabs.remove(index as int), windows),
{
    let r = tabs.remove(index as int);
    assert forall|i: int, j: int| 0 <= i < j < r.len() implies components_on(
        #[trigger] r[i].0, windows) != components_on(#[trigger] r[j].0, windows) by {
        let a = if i < index { i } else { i + 1 };
        let b = if j < index { j } else { j + 1 };
        assert(r[i] == tabs[a] && r[j] == tabs[b]);
    }
}

} // verus!
