//! The file-explorer sidebar state: a flattened directory tree with a
//! selection and a scroll window.
//!
//! Reading directories is the host's job; it hands the listed entries in
//! as plain values.  This module keeps the tree shape, the selection and
//! the scroll window coherent.

use vstd::prelude::*;

verus! {

/// What a tree entry is.
#[derive(Debug, Clone, Copy, PartialEq, Eq, Structural)]
pub enum EntryKind {
    Directory,
    File,
}

/// One row of the flattened file tree.
#[derive(Debug, Clone)]
pub struct FileEntry {
    pub name: String,
    pub path: String,
    pub kind: EntryKind,
    pub depth: usize,
    pub expanded: bool,
    pub children_loaded: bool,
}

impl FileEntry {
    /// Builds an entry from its path, display name and kind, collapsed.
    pub fn new(path: String, name: String, kind: EntryKind, depth: usize) -> (e: FileEntry)
        ensures
            e.path@ == path@,
            e.name@ == name@,
            e.kind == kind,
            e.depth == depth,
            !e.expanded,
            !e.children_loaded,
    {
        FileEntry { name, path, kind, depth, expanded: false, children_loaded: false }
    }

    /// True for a directory entry.
    pub fn is_dir(&self) -> (r: bool)
        ensures
            r == (self.kind == EntryKind::Directory),
    {
        self.kind == EntryKind::Directory
    }
}

/// How many rows of the tree are assumed visible while scrolling with the
/// arrow keys.
pub const EXPLORER_VIEW_ROWS: usize = 20;

/// The sidebar state.
pub struct Explorer {
    /// The root directory the tree was listed from.
    pub root: String,
    /// The flattened tree, top to bottom.
    pub entries: Vec<FileEntry>,
    /// The selected row.
    pub selected: usize,
    /// The sidebar width in cells.
    pub width: usize,
    /// Whether the sidebar is shown.
    pub visible: bool,
    /// The first visible row.
    pub scroll_offset: usize,
}

impl Explorer {
    /// A sidebar rooted at `root` with no entries loaded yet; the host
    /// lists the directory and hands the rows to [`Explorer::set_entries`].
    pub fn new(root: String) -> (e: Explorer)
        ensures
            e.root@ == root@,
            e.entries@.len() == 0,
            e.selected == 0,
            e.width == 25,
            !e.visible,
            e.scroll_offset == 0,
    {
        Explorer { root, entries: Vec::new(), selected: 0, width: 25, visible: false, scroll_offset: 0 }
    }

    /// Replaces the listed entries (a fresh directory listing).
    pub fn set_entries(&mut self, entries: Vec<FileEntry>)
        ensures
            *final(self) == (Explorer { entries: final(self).entries, ..*old(self) }),
            final(self).entries == entries,
    {
        self.entries = entries;
    }

    /// Shows or hides the sidebar.
    pub fn toggle(&mut self)
        ensures
            *final(self) == (Explorer { visible: !old(self).visible, ..*old(self) }),
    {
        self.visible = !self.visible;
    }

    /// Scrolls so the selected row stays inside the assumed view window.
    fn ensure_visible(&mut self)
        ensures
            *final(self) == (Explorer { scroll_offset: final(self).scroll_offset, ..*old(self) }),
            final(self).scroll_offset == (if old(self).selected < old(self).scroll_offset {
                old(self).selected as int
            } else if old(self).selected >= old(self).scroll_offset + EXPLORER_VIEW_ROWS {
                old(self).selected - (EXPLORER_VIEW_ROWS - 1)
            } else {
                old(self).scroll_offset as int
            }),
    {
        if self.selected < self.scroll_offset {
            self.scroll_offset = self.selected;
        } else if self.selected - self.scroll_offset >= EXPLORER_VIEW_ROWS {
            self.scroll_offset = self.selected - (EXPLORER_VIEW_ROWS - 1);
        }
    }

    /// Moves the selection one row up, keeping it visible.
    pub fn move_up(&mut self)
        ensures
            old(self).selected == 0 ==> *final(self) == *old(self),
            old(self).selected > 0 ==> final(self).selected == old(self).selected - 1 && final(self).entries == old(self).entries && final(self).visible == old(self).visible,
    {
        if self.selected > 0 {
            self.selected = self.selected - 1;
            self.ensure_visible();
        }
    }

    /// Moves the selection one row down, keeping it visible.
    pub fn move_down(&mut self)
        ensures
            old(self).selected + 1 >= old(self).entries@.len() ==> *final(self) == *old(self),
            old(self).selected + 1 < old(self).entries@.len() ==> final(self).selected == old(self).selected + 1 && final(self).entries == old(self).entries && final(self).visible
                == old(self).visible,
    {
        let len = self.entries.len();
        if self.selected < len && len - self.selected > 1 {
            self.selected = self.selected + 1;
            self.ensure_visible();
        }
    }

    /// The selected entry, when the selection points at one.
    pub fn selected_entry(&self) -> (r: Option<&FileEntry>)
        ensures
            self.selected < self.entries@.len() ==> (r matches Some(e) && *e == self.entries@[self.selected as int]),
            self.selected >= self.entries@.len() ==> r is None,
    {
        if self.selected < self.entries.len() {
            Some(&self.entries[self.selected])
        } else {
            None
        }
    }

    /// The collapsed form of the tree: the directory at `index` with its
    /// expanded mark cleared and its run of deeper entries removed.
    pub open spec fn spec_collapsed(entries: Seq<FileEntry>, index: int) -> Seq<FileEntry> {
        let n = spec_child_run(entries, index);
        entries.subrange(0, index).push(
            FileEntry { expanded: false, ..entries[index] },
        ) + entries.skip(index + 1 + n)
    }

    /// Collapses the directory at `index`: clears its expanded mark and
    /// drops the following entries that are deeper than it.  Anything but
    /// an expanded directory is left alone.
    pub fn collapse_at(&mut self, index: usize)
        ensures
            *final(self) == (Explorer { entries: final(self).entries, ..*old(self) }),
            (index < old(self).entries@.len() && old(self).entries@[index as int].kind
                == EntryKind::Directory && old(self).entries@[index as int].expanded) ==> final(self).entries@ == Self::spec_collapsed(old(self).entries@, index as int),
            !(index < old(self).entries@.len() && old(self).entries@[index as int].kind
                == EntryKind::Directory && old(self).entries@[index as int].expanded) ==> final(self).entries == old(self).entries,
    {
        if index >= self.entries.len() {
            return ;
        }
        let is_dir = self.entries[index].kind == EntryKind::Directory;
        let expanded = self.entries[index].expanded;
        if !is_dir || !expanded {
            return ;
        }
        let depth = self.entries[index].depth;
        let mut e = self.entries.remove(index);
        e.expanded = false;
        self.entries.insert(index, e);
        proof {
            assert(self.entries@ =~= old(self).entries@.update(
                index as int,
                FileEntry { expanded: false, ..old(self).entries@[index as int] },
            ));
        }
        let ghost orig = old(self).entries@;
        let n0 = self.entries.len();
        proof {
            assert(orig.len() == n0);
        }
        let mut removed: usize = 0;
        while index + 1 < self.entries.len() && self.entries[index + 1].depth > depth
            invariant
                orig.len() <= usize::MAX,
                self.root == old(self).root,
                self.selected == old(self).selected,
                self.width == old(self).width,
                self.visible == old(self).visible,
                self.scroll_offset == old(self).scroll_offset,
                index < self.entries@.len(),
                removed <= index + 1 + removed,
                index + 1 + removed <= orig.len(),
                self.entries@ =~= orig.subrange(0, index as int).push(
                    FileEntry { expanded: false, ..orig[index as int] },
                ) + orig.skip(index + 1 + removed),
                forall|m: int|
                    index + 1 <= m < index + 1 + removed ==> orig[m].depth > orig[
                        index as int
                    ].depth,
                depth == orig[index as int].depth,
            decreases self.entries@.len(),
        {
            proof {
                assert(self.entries@[index + 1] == orig[index + 1 + removed]);
            }
            self.entries.remove(index + 1);
            proof {
                assert(index + 1 + removed <= orig.len());
            }
            removed = removed + 1;
            proof {
                assert(self.entries@ =~= orig.subrange(0, index as int).push(
                    FileEntry { expanded: false, ..orig[index as int] },
                ) + orig.skip(index + 1 + removed));
            }
        }
        proof {
            if index + 1 + removed < orig.len() {
                assert(self.entries@[index + 1] == orig[index + 1 + removed]);
            }
            lemma_child_run_stops(orig, index as int, index + 1 + removed);
            assert(self.entries@ =~= Self::spec_collapsed(orig, index as int));
        }
    }

    /// Expands the directory at `index`: sets its expanded mark and
    /// splices the listed children in right after it.  Anything but a
    /// collapsed directory is left alone and the children are dropped.
    pub fn expand_at(&mut self, index: usize, children: Vec<FileEntry>)
        ensures
            *final(self) == (Explorer { entries: final(self).entries, ..*old(self) }),
            (index < old(self).entries@.len() && old(self).entries@[index as int].kind
                == EntryKind::Directory && !old(self).entries@[index as int].expanded) ==> final(self).entries@ == old(self).entries@.subrange(0, index as int).push(
                FileEntry { expanded: true, ..old(self).entries@[index as int] },
            ) + children@ + old(self).entries@.skip(index + 1),
            !(index < old(self).entries@.len() && old(self).entries@[index as int].kind
                == EntryKind::Directory && !old(self).entries@[index as int].expanded) ==> final(self).entries == old(self).entries,
    {
        if index >= self.entries.len() {
            return ;
        }
        let is_dir = self.entries[index].kind == EntryKind::Directory;
        let expanded = self.entries[index].expanded;
        if !is_dir || expanded {
            return ;
        }
        let mut e = self.entries.remove(index);
        e.expanded = true;
        self.entries.insert(index, e);
        proof {
            assert(self.entries@ =~= old(self).entries@.update(
                index as int,
                FileEntry { expanded: true, ..old(self).entries@[index as int] },
            ));
        }
        let ghost orig = old(self).entries@;
        let ghost kids = children@;
        let mut children = children;
        let mut inserted: usize = 0;
        while children.len() > 0
            invariant
                self.root == old(self).root,
                self.selected == old(self).selected,
                self.width == old(self).width,
                self.visible == old(self).visible,
                self.scroll_offset == old(self).scroll_offset,
                index < orig.len(),
                inserted + children@.len() == kids.len(),
                children@ =~= kids.skip(inserted as int),
                index + 1 + inserted <= self.entries@.len(),
                self.entries@ =~= orig.subrange(0, index as int).push(
                    FileEntry { expanded: true, ..orig[index as int] },
                ) + kids.subrange(0, inserted as int) + orig.skip(index + 1),
            decreases children@.len(),
        {
            let c = children.remove(0);
            proof {
                assert(c == kids[inserted as int]);
                assert(children@ =~= kids.skip(inserted + 1));
            }
            let cur_len = self.entries.len();
            proof {
                assert(index + 1 + inserted <= cur_len);
            }
            self.entries.insert(index + 1 + inserted, c);
            inserted = inserted + 1;
            proof {
                assert(self.entries@ =~= orig.subrange(0, index as int).push(
                    FileEntry { expanded: true, ..orig[index as int] },
                ) + kids.subrange(0, inserted as int) + orig.skip(index + 1));
            }
        }
        proof {
            assert(kids.subrange(0, kids.len() as int) =~= kids);
            assert(self.entries@ =~= orig.subrange(0, index as int).push(
                FileEntry { expanded: true, ..orig[index as int] },
            ) + kids + orig.skip(index + 1));
        }
    }

    /// Expands or collapses the selected directory; `children` is the
    /// host's listing of it, used only when expanding.
    pub fn toggle_expand(&mut self, children: Vec<FileEntry>)
        ensures
            *final(self) == (Explorer { entries: final(self).entries, ..*old(self) }),
            ({
                let sel = old(self).selected as int;
                if sel < old(self).entries@.len() && old(self).entries@[sel].kind
                    == EntryKind::Directory {
                    if old(self).entries@[sel].expanded {
                        final(self).entries@ == Self::spec_collapsed(old(self).entries@, sel)
                    } else {
                        final(self).entries@ == old(self).entries@.subrange(0, sel).push(
                            FileEntry { expanded: true, ..old(self).entries@[sel] },
                        ) + children@ + old(self).entries@.skip(sel + 1)
                    }
                } else {
                    final(self).entries == old(self).entries
                }
            }),
    {
        if self.selected >= self.entries.len() {
            return ;
        }
        let sel = self.selected;
        if !(self.entries[sel].kind == EntryKind::Directory) {
            return ;
        }
        if self.entries[sel].expanded {
            self.collapse_at(sel);
        } else {
            self.expand_at(sel, children);
        }
    }

    /// Adjusts the scroll window to a sidebar of `rows` cells (two are
    /// reserved for the header), keeping the selection visible.
    pub fn set_visible_rows(&mut self, rows: usize)
        ensures
            *final(self) == (Explorer { scroll_offset: final(self).scroll_offset, ..*old(self) }),
            final(self).scroll_offset == ({
                let visible = if rows >= 2 {
                    rows - 2
                } else {
                    0
                };
                if visible >= 1 && old(self).selected >= old(self).scroll_offset + visible {
                    old(self).selected - (visible - 1)
                } else {
                    old(self).scroll_offset as int
                }
            }),
    {
        let visible_rows = if rows >= 2 {
            rows - 2
        } else {
            0
        };
        if visible_rows >= 1 && self.selected >= self.scroll_offset && self.selected
            - self.scroll_offset >= visible_rows {
            self.scroll_offset = self.selected - (visible_rows - 1);
        }
    }

    /// The directory a "change directory" on the selection should target:
    /// a directory entry's own path, a file entry's parent directory.
    pub fn get_cd_path(&self) -> (r: Option<String>)
        ensures
            self.selected >= self.entries@.len() ==> r is None,
            self.selected < self.entries@.len() ==> (r matches Some(p) && p@ == ({
                let e = self.entries@[self.selected as int];
                if e.kind == EntryKind::Directory {
                    e.path@
                } else {
                    parent_dir_of(e.path@)
                }
            })),
    {
        if self.selected >= self.entries.len() {
            return None;
        }
        let entry = &self.entries[self.selected];
        if entry.kind == EntryKind::Directory {
            Some(entry.path.clone())
        } else {
            Some(parent_path(&entry.path))
        }
    }

    /// Changes the root, clearing the tree; the host lists the new root
    /// and hands the rows to [`Explorer::set_entries`].
    pub fn set_root(&mut self, path: String)
        ensures
            final(self).root@ == path@,
            final(self).entries@.len() == 0,
            final(self).selected == 0,
            final(self).scroll_offset == 0,
            final(self).visible == old(self).visible,
            final(self).width == old(self).width,
    {
        self.root = path;
        self.entries = Vec::new();
        self.selected = 0;
        self.scroll_offset = 0;
    }
}

/// The parent directory of a path, as std's path semantics give it.
/// Opaque: only the trusted query below speaks for it.
pub uninterp spec fn parent_dir_of(path: Seq<char>) -> Seq<char>;

/// Relies on std's `Path::parent`: the path without its final component;
/// a path without a parent is handed back whole.
#[verifier::external_body]
fn parent_path(path: &String) -> (r: String)
    ensures
        r@ == parent_dir_of(path@),
{
    match std::path::Path::new(path.as_str()).parent() {
        Some(p) => p.to_string_lossy().to_string(),
        None => path.clone(),
    }
}

/// How many entries after `index` sit deeper than it (its expanded
/// children run).
pub open spec fn spec_child_run(entries: Seq<FileEntry>, index: int) -> int {
    spec_child_run_from(entries, index, index + 1) - (index + 1)
}

/// The first position at or after `from` that is not deeper than the
/// entry at `index`.
pub open spec fn spec_child_run_from(entries: Seq<FileEntry>, index: int, from: int) -> int
    decreases entries.len() - from,
{
    if from < 0 || from >= entries.len() {
        from
    } else if entries[from].depth > entries[index].depth {
        spec_child_run_from(entries, index, from + 1)
    } else {
        from
    }
}

/// When every entry in `[index + 1, stop)` is deeper than the one at
/// `index` and `stop` is the end or a shallower entry, the children run
/// ends exactly at `stop`.
proof fn lemma_child_run_stops(entries: Seq<FileEntry>, index: int, stop: int)
    requires
        0 <= index < entries.len(),
        index + 1 <= stop <= entries.len(),
        forall|m: int| index + 1 <= m < stop ==> entries[m].depth > entries[index].depth,
        stop < entries.len() ==> !(entries[stop].depth > entries[index].depth),
    ensures
        spec_child_run(entries, index) == stop - (index + 1),
{
    lemma_child_run_from_stops(entries, index, index + 1, stop);
}

/// Helper induction for [`lemma_child_run_stops`].
proof fn lemma_child_run_from_stops(entries: Seq<FileEntry>, index: int, from: int, stop: int)
    requires
        0 <= index < entries.len(),
        0 <= from <= stop <= entries.len(),
        forall|m: int| from <= m < stop ==> entries[m].depth > entries[index].depth,
        stop < entries.len() ==> !(entries[stop].depth > entries[index].depth),
    ensures
        spec_child_run_from(entries, index, from) == stop,
    decreases stop - from,
{
    if from < stop {
        lemma_child_run_from_stops(entries, index, from + 1, stop);
    }
}

} // verus!
