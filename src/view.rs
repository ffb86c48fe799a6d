use vstd::prelude::*;
use crate::color::ColorTable;
use crate::entry::{
    entry_views, group_entries, in_group, make_entry, sort_by_name, sorted_by_name, DirChild,
    DirChildView, Entry, EntryView,
};
use crate::order::same_name;

verus! {

/// The directory could not be opened or listed.
pub struct LoadError {
    pub path: String,
}

/// A key press, as far as the listing reacts to it.
#[derive(Clone, Copy, Debug, PartialEq, Eq, Structural)]
pub enum Key {
    Up,
    Down,
    PageUp,
    PageDown,
    Home,
    End,
    Char(char),
    Other,
}

/// One visible row: the position of its entry in the combined listing, and
/// whether that entry has the focus.
#[derive(Clone, Copy, Debug, PartialEq, Eq, Structural)]
pub struct Row {
    pub index: usize,
    pub focused: bool,
}

/// How far a page key moves the focus.
pub const PAGE: i64 = 10;

/// The loaded, navigable listing of one directory: its sub-directories and
/// its other children, each sorted by name, shown directories first; a focus
/// into that combined order; the first row shown last time.
pub struct DirectoryView {
    pub path: String,
    pub dirs: Vec<Entry>,
    pub files: Vec<Entry>,
    pub focus: usize,
    pub last_window_start: usize,
}

/// The views of a sequence of children.
pub open spec fn child_views(s: Seq<DirChild>) -> Seq<DirChildView> {
    s.map_values(|c: DirChild| c@)
}

/// `focus + delta`, kept within `[0, total - 1]`; unchanged when `total` is 0.
pub open spec fn moved(focus: int, total: int, delta: int) -> int {
    if total <= 0 {
        focus
    } else if focus + delta < 0 {
        0
    } else if focus + delta > total - 1 {
        total - 1
    } else {
        focus + delta
    }
}

/// The first row to show: the previous one where the focus is still in that
/// window of `height` rows, else the nearest one that brings the focus in.
pub open spec fn window_start_for(last: int, focus: int, height: int) -> int {
    if focus < last {
        focus
    } else if focus > last + height - 1 {
        focus - height + 1
    } else {
        last
    }
}

/// The focus after a key press, and whether the key was used.
pub open spec fn key_effect(focus: int, total: int, key: Key) -> (int, bool) {
    match key {
        Key::Up => (moved(focus, total, -1), true),
        Key::Down => (moved(focus, total, 1), true),
        Key::PageUp => (moved(focus, total, -(PAGE as int)), true),
        Key::PageDown => (moved(focus, total, PAGE as int), true),
        Key::Home => (0, true),
        Key::End => (if total > 0 { total - 1 } else { focus }, true),
        Key::Char(c) => if c == 'j' {
            (moved(focus, total, 1), true)
        } else if c == 'k' {
            (moved(focus, total, -1), true)
        } else {
            (focus, false)
        },
        Key::Other => (focus, false),
    }
}

/// The longest name among `s`, in characters.
pub open spec fn max_name_len(s: Seq<EntryView>) -> nat
    decreases s.len(),
{
    if s.len() == 0 {
        0
    } else {
        let m = max_name_len(s.drop_last());
        if s.last().name.len() > m { s.last().name.len() } else { m }
    }
}

/// The text of one row `width` characters wide: the name at the left, the
/// size at the right, spaces between (one at least).
pub open spec fn row_line(name: Seq<char>, size: Seq<char>, width: int) -> Seq<char> {
    let gap = if width - name.len() - size.len() >= 1 { width - name.len() - size.len() } else { 1 };
    name + Seq::new(gap as nat, |i: int| ' ') + size
}

impl DirectoryView {
    /// The number of entries.
    pub open spec fn total(&self) -> nat {
        self.dirs@.len() + self.files@.len()
    }

    /// All entries in display order: directories, then the rest.
    pub open spec fn combined(&self) -> Seq<EntryView> {
        entry_views(self.dirs@) + entry_views(self.files@)
    }

    /// Both groups sorted by name, the count fits in `usize`, and the focus is
    /// on an entry (0 when there is none).
    pub open spec fn wf(&self) -> bool {
        &&& sorted_by_name(entry_views(self.dirs@))
        &&& sorted_by_name(entry_views(self.files@))
        &&& self.total() <= usize::MAX
        &&& if self.total() == 0 { self.focus == 0 } else { self.focus < self.total() }
    }

    /// `self` is the fresh listing of `path` whose children were enumerated
    /// as `cs`, under the extension colours `t`.
    pub open spec fn loaded_from(
        &self,
        path: Seq<char>,
        cs: Seq<DirChildView>,
        t: Seq<(Seq<char>, Seq<char>)>,
    ) -> bool {
        &&& self.wf()
        &&& self.path@ == path
        &&& self.focus == 0
        &&& self.last_window_start == 0
        &&& entry_views(self.dirs@).to_multiset() == group_entries(cs, t, true).to_multiset()
        &&& entry_views(self.files@).to_multiset() == group_entries(cs, t, false).to_multiset()
    }

    /// An empty listing of `path`.
    pub fn new(path: String) -> (r: DirectoryView)
        ensures
            r.wf(),
            r.path@ == path@,
            r.total() == 0,
            r.focus == 0,
            r.last_window_start == 0,
    {
        let r = DirectoryView {
            path,
            dirs: Vec::new(),
            files: Vec::new(),
            focus: 0,
            last_window_start: 0,
        };
        assert(entry_views(r.dirs@) =~= Seq::<EntryView>::empty());
        assert(entry_views(r.files@) =~= Seq::<EntryView>::empty());
        r
    }

    /// The listing of `path` from its enumerated children, or the error where
    /// the directory could not be listed (`listing` is `None`). Children
    /// whose name is not text or whose metadata could not be read are left
    /// out.
    pub fn try_from(path: String, listing: Option<Vec<DirChild>>, table: &ColorTable) -> (r: Result<
        DirectoryView,
        LoadError,
    >)
        ensures
            match (listing, r) {
                (None, Err(e)) => e.path@ == path@,
                (Some(cs), Ok(v)) => v.loaded_from(path@, child_views(cs@), table@),
                _ => false,
            },
    {
        broadcast use vstd::seq_lib::group_to_multiset_ensures;

        let mut rest = match listing {
            None => {
                return Err(LoadError { path });
            },
            Some(cs) => cs,
        };
        let ghost all = child_views(rest@);
        let count: usize = rest.len();
        let mut dirs: Vec<Entry> = Vec::new();
        let mut files: Vec<Entry> = Vec::new();
        assert(entry_views(dirs@) =~= Seq::<EntryView>::empty());
        assert(entry_views(files@) =~= Seq::<EntryView>::empty());
        assert(child_views(rest@) =~= all);
        while rest.len() > 0
            invariant
                dirs@.len() + files@.len() + rest@.len() <= all.len(),
                all.len() == count,
                entry_views(dirs@).to_multiset().add(
                    group_entries(child_views(rest@), table@, true).to_multiset(),
                ) == group_entries(all, table@, true).to_multiset(),
                entry_views(files@).to_multiset().add(
                    group_entries(child_views(rest@), table@, false).to_multiset(),
                ) == group_entries(all, table@, false).to_multiset(),
            decreases rest@.len(),
        {
            let ghost before = child_views(rest@);
            let c = rest.pop().unwrap();
            proof {
                assert(child_views(rest@) =~= before.drop_last());
                assert(before.last() == c@);
            }
            match (&c.name, &c.meta) {
                (Some(_), Some(m)) => {
                    let is_dir = m.kind == crate::color::FileKind::Dir;
                    let ghost dv = entry_views(dirs@);
                    let ghost fv = entry_views(files@);
                    let ghost cv = c@;
                    let e = make_entry(c, table);
                    proof {
                        let rv = child_views(rest@);
                        vstd::seq_lib::to_multiset_build(dv, e@);
                        vstd::seq_lib::to_multiset_build(fv, e@);
                        vstd::seq_lib::to_multiset_build(group_entries(rv, table@, true), e@);
                        vstd::seq_lib::to_multiset_build(group_entries(rv, table@, false), e@);
                        assert(in_group(cv, is_dir) && !in_group(cv, !is_dir));
                    }
                    if is_dir {
                        dirs.push(e);
                        assert(entry_views(dirs@) =~= dv.push(e@));
                        assert(entry_views(files@) =~= fv);
                        assert(entry_views(dirs@).to_multiset().add(
                            group_entries(child_views(rest@), table@, true).to_multiset(),
                        ) =~= dv.to_multiset().add(group_entries(before, table@, true).to_multiset()));
                    } else {
                        files.push(e);
                        assert(entry_views(files@) =~= fv.push(e@));
                        assert(entry_views(dirs@) =~= dv);
                        assert(entry_views(files@).to_multiset().add(
                            group_entries(child_views(rest@), table@, false).to_multiset(),
                        ) =~= fv.to_multiset().add(group_entries(before, table@, false).to_multiset()));
                    }
                },
                _ => {
                    assert(!in_group(before.last(), true) && !in_group(before.last(), false));
                },
            }
        }
        assert(child_views(rest@) =~= Seq::<DirChildView>::empty());
        assert(entry_views(dirs@).to_multiset() =~= group_entries(all, table@, true).to_multiset());
        assert(entry_views(files@).to_multiset() =~= group_entries(all, table@, false).to_multiset());
        let dirs = sort_by_name(dirs);
        let files = sort_by_name(files);
        proof {
            vstd::seq_lib::to_multiset_len(entry_views(dirs@));
            vstd::seq_lib::to_multiset_len(entry_views(files@));
        }
        Ok(DirectoryView { path, dirs, files, focus: 0, last_window_start: 0 })
    }

    /// The directory this listing shows.
    pub fn path(&self) -> (r: &String)
        ensures
            r@ == self.path@,
    {
        &self.path
    }

    /// The sub-directories, sorted by name.
    pub fn dirs(&self) -> (r: &Vec<Entry>)
        ensures
            r@ == self.dirs@,
    {
        &self.dirs
    }

    /// The other children, sorted by name.
    pub fn files(&self) -> (r: &Vec<Entry>)
        ensures
            r@ == self.files@,
    {
        &self.files
    }

    /// The position of the focused entry in the combined order.
    pub fn focus(&self) -> (r: usize)
        ensures
            r == self.focus,
    {
        self.focus
    }

    /// The first row shown by the last render.
    pub fn last_window_start(&self) -> (r: usize)
        ensures
            r == self.last_window_start,
    {
        self.last_window_start
    }

    /// The number of entries, directories and the rest.
    pub fn total_list_size(&self) -> (r: usize)
        requires
            self.wf(),
        ensures
            r == self.total(),
    {
        self.dirs.len() + self.files.len()
    }

    /// The entry at position `i` of the combined order.
    pub fn entry(&self, i: usize) -> (r: &Entry)
        requires
            self.wf(),
            i < self.total(),
        ensures
            r@ == self.combined()[i as int],
    {
        if i < self.dirs.len() {
            &self.dirs[i]
        } else {
            &self.files[i - self.dirs.len()]
        }
    }

    /// Moves the focus by `difference` (negative: towards the first entry),
    /// stopping at the first and the last entry.
    pub fn change_focus_by(&mut self, difference: i64)
        requires
            old(self).wf(),
        ensures
            final(self).wf(),
            final(self).focus == moved(old(self).focus as int, old(self).total() as int, difference as int),
            final(self).dirs == old(self).dirs,
            final(self).files == old(self).files,
            final(self).path == old(self).path,
            final(self).last_window_start == old(self).last_window_start,
    {
        let total = self.total_list_size();
        if total == 0 {
            return;
        }
        let focus = self.focus;
        if difference >= 0 {
            let d = difference as u64;
            if d >= (total - 1 - focus) as u64 {
                self.focus = total - 1;
            } else {
                self.focus = focus + d as usize;
            }
        } else {
            let d = (-(difference + 1)) as u64;
            if d >= focus as u64 {
                self.focus = 0;
            } else {
                self.focus = focus - d as usize - 1;
            }
        }
    }

    /// Moves the focus to the first entry.
    pub fn move_to_start(&mut self)
        requires
            old(self).wf(),
        ensures
            final(self).wf(),
            final(self).focus == 0,
            final(self).dirs == old(self).dirs,
            final(self).files == old(self).files,
            final(self).path == old(self).path,
            final(self).last_window_start == old(self).last_window_start,
    {
        self.focus = 0;
    }

    /// Moves the focus to the last entry; nothing happens when there is none.
    pub fn move_to_end(&mut self)
        requires
            old(self).wf(),
        ensures
            final(self).wf(),
            final(self).focus == (if old(self).total() > 0 { old(self).total() - 1 } else { 0 }),
            final(self).dirs == old(self).dirs,
            final(self).files == old(self).files,
            final(self).path == old(self).path,
            final(self).last_window_start == old(self).last_window_start,
    {
        let total = self.total_list_size();
        if total > 0 {
            self.focus = total - 1;
        }
    }

    /// Moves the focus to the first entry, directories first, whose path is
    /// `path`; nothing happens when there is none.
    pub fn focus_path(&mut self, path: &str)
        requires
            old(self).wf(),
        ensures
            final(self).wf(),
            (exists|i: int| 0 <= i < old(self).total() && #[trigger] old(self).combined()[i].path == path@)
                ==> {
                &&& final(self).focus < old(self).total()
                &&& old(self).combined()[final(self).focus as int].path == path@
                &&& forall|k: int|
                    0 <= k < final(self).focus ==> #[trigger] old(self).combined()[k].path != path@
            },
            !(exists|i: int| 0 <= i < old(self).total() && #[trigger] old(self).combined()[i].path == path@)
                ==> final(self).focus == old(self).focus,
            final(self).dirs == old(self).dirs,
            final(self).files == old(self).files,
            final(self).path == old(self).path,
            final(self).last_window_start == old(self).last_window_start,
    {
        let total = self.total_list_size();
        let mut i: usize = 0;
        while i < total
            invariant
                total == self.total(),
                self.wf(),
                self == old(self),
                i <= total,
                forall|k: int| 0 <= k < i ==> #[trigger] self.combined()[k].path != path@,
            decreases total - i,
        {
            let e = self.entry(i);
            if same_name(e.path.as_str(), path) {
                assert(old(self).combined()[i as int].path == path@);
                self.focus = i;
                return;
            }
            i = i + 1;
        }
    }

    /// The first row to show in a window of `height` rows.
    pub fn window_start(&self, height: usize) -> (r: usize)
        requires
            self.wf(),
            height >= 1,
        ensures
            r == window_start_for(self.last_window_start as int, self.focus as int, height as int),
            r <= self.focus,
            self.focus <= r + height - 1,
    {
        let last = self.last_window_start;
        let focus = self.focus;
        if focus < last {
            focus
        } else if focus - last > height - 1 {
            focus - (height - 1)
        } else {
            last
        }
    }

    /// The rows of a window of `height` rows: one for each entry from the
    /// window's first row on, while there are entries.
    pub fn rows(&self, height: usize) -> (r: Vec<Row>)
        requires
            self.wf(),
            height >= 1,
        ensures
            ({
                let start = window_start_for(
                    self.last_window_start as int,
                    self.focus as int,
                    height as int,
                );
                &&& r@.len() == (if self.total() - start < height { self.total() - start } else {
                    height as int
                })
                &&& forall|i: int|
                    0 <= i < r@.len() ==> (#[trigger] r@[i]).index == start + i && r@[i].focused == (
                    start + i == self.focus)
            }),
    {
        let start = self.window_start(height);
        let total = self.total_list_size();
        let mut r: Vec<Row> = Vec::new();
        let mut i: usize = 0;
        while i < height && start + i < total
            invariant
                start <= self.focus,
                self.total() == 0 ==> start == 0,
                self.total() > 0 ==> start < self.total(),
                total == self.total(),
                i <= height,
                start + i <= total,
                r@.len() == i,
                forall|k: int|
                    0 <= k < i ==> (#[trigger] r@[k]).index == start + k && r@[k].focused == (start + k
                        == self.focus),
            decreases height - i,
        {
            r.push(Row { index: start + i, focused: start + i == self.focus });
            i = i + 1;
        }
        r
    }

    /// Records the first row of a render in a window of `height` rows, for
    /// the next one.
    pub fn record_window(&mut self, height: usize)
        requires
            old(self).wf(),
            height >= 1,
        ensures
            final(self).wf(),
            final(self).last_window_start == window_start_for(
                old(self).last_window_start as int,
                old(self).focus as int,
                height as int,
            ),
            final(self).focus == old(self).focus,
            final(self).dirs == old(self).dirs,
            final(self).files == old(self).files,
            final(self).path == old(self).path,
    {
        self.last_window_start = self.window_start(height);
    }

    /// The size the listing asks for: its longest name and its number of
    /// entries, 1 at least each.
    pub fn required_size(&self) -> (r: (usize, usize))
        requires
            self.wf(),
        ensures
            r.0 == (if max_name_len(self.combined()) > 1 { max_name_len(self.combined()) } else { 1 }),
            r.1 == (if self.total() > 1 { self.total() } else { 1 }),
    {
        let total = self.total_list_size();
        let mut w: usize = 1;
        let mut i: usize = 0;
        assert(self.combined().subrange(0, 0) =~= Seq::<EntryView>::empty());
        while i < total
            invariant
                self.wf(),
                total == self.total() == self.combined().len(),
                i <= total,
                w == (if max_name_len(self.combined().subrange(0, i as int)) > 1 {
                    max_name_len(self.combined().subrange(0, i as int))
                } else {
                    1
                }),
            decreases total - i,
        {
            let n = self.entry(i).name.as_str().unicode_len();
            assert(self.combined().subrange(0, i + 1).drop_last() =~= self.combined().subrange(
                0,
                i as int,
            ));
            if n > w {
                w = n;
            }
            i = i + 1;
        }
        assert(self.combined().subrange(0, total as int) =~= self.combined());
        (w, if total > 1 { total } else { 1 })
    }

    /// Reacts to a key: up and down (and `k`, `j`) move by one entry, the page
    /// keys by a page, home and end go to the first and the last entry.
    /// Returns whether the key was used.
    pub fn on_event(&mut self, key: Key) -> (used: bool)
        requires
            old(self).wf(),
        ensures
            final(self).wf(),
            (final(self).focus as int, used) == key_effect(old(self).focus as int, old(self).total() as int, key),
            final(self).dirs == old(self).dirs,
            final(self).files == old(self).files,
            final(self).path == old(self).path,
            final(self).last_window_start == old(self).last_window_start,
    {
        match key {
            Key::Up => self.change_focus_by(-1),
            Key::Down => self.change_focus_by(1),
            Key::PageUp => self.change_focus_by(-PAGE),
            Key::PageDown => self.change_focus_by(PAGE),
            Key::Home => self.move_to_start(),
            Key::End => self.move_to_end(),
            Key::Char(c) => {
                if c == 'j' {
                    self.change_focus_by(1);
                } else if c == 'k' {
                    self.change_focus_by(-1);
                } else {
                    return false;
                }
            },
            Key::Other => {
                return false;
            },
        }
        true
    }
}

/// The text of one row `width` characters wide: `name` at the left, `size`
/// at the right, spaces between (one at least).
pub fn row_text(name: &str, size: &str, width: usize) -> (r: String)
    requires
        name@.len() + size@.len() + width < usize::MAX,
    ensures
        r@ == row_line(name@, size@, width as int),
{
    let n = name.unicode_len();
    let s = size.unicode_len();
    let gap: usize = if width > n + s { width - n - s } else { 1 };
    let mut r = String::from_str(name);
    let mut i: usize = 0;
    while i < gap
        invariant
            i <= gap,
            r@ == name@ + Seq::new(i as nat, |k: int| ' '),
        decreases gap - i,
    {
        crate::text::push_char(&mut r, ' ');
        i = i + 1;
        assert(r@ =~= name@ + Seq::new(i as nat, |k: int| ' '));
    }
    assert(r@ =~= name@ + Seq::new(gap as nat, |k: int| ' '));
    r.concat(size)
}

} // verus!
