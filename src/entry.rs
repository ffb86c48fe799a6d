use vstd::prelude::*;
use crate::color::{entry_colors, ColorPair, ColorTable, FileKind};
use crate::order::{name_le, name_less, name_lt, lemma_name_lt_transitive};
use crate::text::{decimal, decimal_string, human_size, human_size_string};

verus! {

/// What the file system says of the place a path leads to, links followed.
#[derive(Clone, Copy, Debug, PartialEq, Eq, Structural)]
pub enum Target {
    /// Nothing can be found there (a broken link).
    Missing,
    /// A directory, with the number of children that could be read, or `None`
    /// where it could not be listed.
    Dir(Option<u64>),
    /// A regular file of the given length in bytes.
    File(u64),
    /// Anything else (a device, a socket, a pipe).
    Other,
}

/// What could be read of one child's own metadata.
#[derive(Clone, Copy, Debug, PartialEq, Eq, Structural)]
pub struct ChildMeta {
    /// The child's own type: a link counts as a link.
    pub kind: FileKind,
    /// Its permission bits.
    pub mode: u32,
    /// What its path leads to.
    pub target: Target,
}

/// One child of a directory as it was enumerated.
pub struct DirChild {
    pub path: String,
    /// The name, or `None` where it is not valid text.
    pub name: Option<String>,
    /// The metadata, or `None` where it could not be read.
    pub meta: Option<ChildMeta>,
}

pub struct DirChildView {
    pub path: Seq<char>,
    pub name: Option<Seq<char>>,
    pub meta: Option<ChildMeta>,
}

impl View for DirChild {
    type V = DirChildView;

    open spec fn view(&self) -> DirChildView {
        DirChildView {
            path: self.path@,
            name: match self.name {
                Some(n) => Some(n@),
                None => None,
            },
            meta: self.meta,
        }
    }
}

/// One listed entry of a directory.
pub struct Entry {
    pub path: String,
    pub name: String,
    /// The size column: child count, byte count, link target or a marker.
    pub size: String,
    pub color: ColorPair,
}

pub struct EntryView {
    pub path: Seq<char>,
    pub name: Seq<char>,
    pub size: Seq<char>,
    pub color: ColorPair,
}

impl View for Entry {
    type V = EntryView;

    open spec fn view(&self) -> EntryView {
        EntryView { path: self.path@, name: self.name@, size: self.size@, color: self.color }
    }
}

/// The views of a sequence of entries.
pub open spec fn entry_views(s: Seq<Entry>) -> Seq<EntryView> {
    s.map_values(|e: Entry| e@)
}

/// The size text of what a path leads to.
pub open spec fn target_text(t: Target) -> Seq<char> {
    match t {
        Target::Missing => "Broken Link"@,
        Target::Dir(Some(n)) => decimal(n as nat),
        Target::Dir(None) => "?"@,
        Target::File(n) => human_size(n as nat),
        Target::Other => "Error"@,
    }
}

/// The size column of an entry of type `kind`: a link shows `-> ` and the
/// size text of its target.
pub open spec fn size_text(kind: FileKind, t: Target) -> Seq<char> {
    if kind == FileKind::Symlink {
        "-> "@ + target_text(t)
    } else {
        target_text(t)
    }
}

/// The size text of what a path leads to.
pub fn target_string(t: Target) -> (r: String)
    ensures
        r@ == target_text(t),
{
    match t {
        Target::Missing => String::from_str("Broken Link"),
        Target::Dir(Some(n)) => decimal_string(n),
        Target::Dir(None) => String::from_str("?"),
        Target::File(n) => human_size_string(n),
        Target::Other => String::from_str("Error"),
    }
}

/// The size column of an entry of type `kind` whose path leads to `t`.
pub fn size_string(kind: FileKind, t: Target) -> (r: String)
    ensures
        r@ == size_text(kind, t),
{
    let s = target_string(t);
    if kind == FileKind::Symlink {
        String::from_str("-> ").concat(s.as_str())
    } else {
        s
    }
}

/// A child is listed when its name is text and its metadata could be read.
pub open spec fn is_listed(c: DirChildView) -> bool {
    c.name is Some && c.meta is Some
}

/// A listed child goes with the directories when its own type is a directory.
pub open spec fn in_group(c: DirChildView, dirs: bool) -> bool {
    is_listed(c) && (c.meta.unwrap().kind == FileKind::Dir) == dirs
}

/// The entry that a listed child becomes.
pub open spec fn entry_of(c: DirChildView, t: Seq<(Seq<char>, Seq<char>)>) -> EntryView {
    let m = c.meta.unwrap();
    EntryView {
        path: c.path,
        name: c.name.unwrap(),
        size: size_text(m.kind, m.target),
        color: entry_colors(m.kind, m.mode, c.name.unwrap(), t),
    }
}

/// The entries of the directories (`dirs`) or of the other children, in the
/// order of enumeration.
pub open spec fn group_entries(cs: Seq<DirChildView>, t: Seq<(Seq<char>, Seq<char>)>, dirs: bool) -> Seq<
    EntryView,
>
    decreases cs.len(),
{
    if cs.len() == 0 {
        Seq::empty()
    } else {
        let r = group_entries(cs.drop_last(), t, dirs);
        if in_group(cs.last(), dirs) {
            r.push(entry_of(cs.last(), t))
        } else {
            r
        }
    }
}

/// The entries are in ascending order of name.
pub open spec fn sorted_by_name(s: Seq<EntryView>) -> bool {
    forall|i: int, j: int| 0 <= i < j < s.len() ==> name_le(#[trigger] s[i].name, #[trigger] s[j].name)
}

/// The entry for the listed child `c`.
pub fn make_entry(c: DirChild, table: &ColorTable) -> (r: Entry)
    requires
        is_listed(c@),
    ensures
        r@ == entry_of(c@, table@),
{
    let name = c.name.unwrap();
    let m = c.meta.unwrap();
    let size = size_string(m.kind, m.target);
    let color = ColorPair::new(m.kind, m.mode, name.as_str(), table);
    Entry { path: c.path, name, size, color }
}

/// The entries in ascending order of name; entries of equal name keep their
/// order.
pub fn sort_by_name(v: Vec<Entry>) -> (r: Vec<Entry>)
    ensures
        sorted_by_name(entry_views(r@)),
        entry_views(r@).to_multiset() == entry_views(v@).to_multiset(),
{
    broadcast use vstd::seq_lib::group_to_multiset_ensures;

    let mut rest = v;
    let mut r: Vec<Entry> = Vec::new();
    assert(entry_views(r@) =~= Seq::<EntryView>::empty());
    while rest.len() > 0
        invariant
            sorted_by_name(entry_views(r@)),
            entry_views(r@).to_multiset().add(entry_views(rest@).to_multiset()) == entry_views(
                v@,
            ).to_multiset(),
        decreases rest@.len(),
    {
        let ghost before = rest@;
        let e = rest.pop().unwrap();
        proof {
            assert(entry_views(before) =~= entry_views(rest@).push(e@));
            vstd::seq_lib::to_multiset_build(entry_views(rest@), e@);
        }
        let mut j: usize = 0;
        while j < r.len() && !name_less(e.name.as_str(), r[j].name.as_str())
            invariant
                j <= r@.len(),
                forall|k: int| 0 <= k < j ==> !name_lt(e@.name, #[trigger] r@[k]@.name),
            decreases r@.len() - j,
        {
            j = j + 1;
        }
        let ghost s = entry_views(r@);
        proof {
            assert(forall|k: int| 0 <= k < s.len() ==> s[k] == #[trigger] r@[k]@);
        }
        r.insert(j, e);
        proof {
            let s2 = entry_views(r@);
            assert(s2 =~= s.insert(j as int, e@));
            vstd::seq_lib::to_multiset_insert(s, j as int, e@);
            assert forall|a: int, b: int| 0 <= a < b < s2.len() implies name_le(
                #[trigger] s2[a].name,
                #[trigger] s2[b].name,
            ) by {
                if b < j {
                } else if b == j {
                    assert(s2[a] == s[a]);
                } else if a == j {
                    assert(s2[b] == s[b - 1]);
                    if name_lt(s[b - 1].name, e@.name) {
                        assert(j < s.len());
                        assert(name_lt(e@.name, s[j as int].name));
                        if j < b - 1 {
                            assert(name_le(s[j as int].name, s[b - 1].name));
                        }
                        lemma_name_lt_transitive(s[b - 1].name, e@.name, s[j as int].name);
                        crate::order::lemma_name_lt_irreflexive(s[j as int].name);
                    }
                } else if a < j {
                    assert(s2[a] == s[a]);
                    assert(s2[b] == s[b - 1]);
                } else {
                    assert(s2[a] == s[a - 1]);
                    assert(s2[b] == s[b - 1]);
                }
            };
        }
    }
    assert(entry_views(rest@) =~= Seq::<EntryView>::empty());
    r
}

} // verus!
