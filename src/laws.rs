//! What holds of the listing across calls.
use vstd::multiset::Multiset;
use vstd::prelude::*;
use crate::color::{default_pair, entry_colors, extension_of, FileKind};
use crate::entry::{entry_of, size_text, Target, entry_views, group_entries, in_group, is_listed, sorted_by_name, DirChildView, EntryView};
use crate::order::{lemma_name_lt_total, name_le};
use crate::view::{moved, window_start_for, DirectoryView};

verus! {

broadcast use vstd::seq_lib::group_to_multiset_ensures, vstd::multiset::group_multiset_axioms;

/// The focus after the moves `deltas`, one after the other, from `focus`.
pub open spec fn after_moves(focus: int, total: int, deltas: Seq<int>) -> int
    decreases deltas.len(),
{
    if deltas.len() == 0 {
        focus
    } else {
        moved(after_moves(focus, total, deltas.drop_last()), total, deltas.last())
    }
}

/// The focus after `n` moves down by one from `focus`.
pub open spec fn after_steps_down(focus: int, total: int, n: nat) -> int
    decreases n,
{
    if n == 0 {
        focus
    } else {
        moved(after_steps_down(focus, total, (n - 1) as nat), total, 1)
    }
}

/// In a listing that is not empty, the focus stays on an entry whatever moves
/// are made.
pub proof fn lemma_moves_stay_in_bounds(focus: int, total: int, deltas: Seq<int>)
    requires
        0 <= focus < total,
    ensures
        0 <= after_moves(focus, total, deltas) < total,
    decreases deltas.len(),
{
    if deltas.len() > 0 {
        lemma_moves_stay_in_bounds(focus, total, deltas.drop_last());
    }
}

/// Moving down by one never leaves the listing; from any entry, enough such
/// moves reach the last entry, and further moves stay there.
pub proof fn lemma_steps_down_saturate(focus: int, total: int, n: nat)
    requires
        0 <= focus < total,
    ensures
        0 <= after_steps_down(focus, total, n) < total,
        n >= total - 1 - focus ==> after_steps_down(focus, total, n) == total - 1,
        n < total - 1 - focus ==> after_steps_down(focus, total, n) == focus + n,
        moved(total - 1, total, 1) == total - 1,
    decreases n,
{
    if n > 0 {
        lemma_steps_down_saturate(focus, total, (n - 1) as nat);
    }
}

/// The window chosen for a render starts at or above the focus and holds it:
/// the focus is never below its last row.
pub proof fn lemma_window_holds_focus(last: int, focus: int, height: int)
    requires
        0 <= last,
        0 <= focus,
        height >= 1,
    ensures
        0 <= window_start_for(last, focus, height) <= focus,
        focus <= window_start_for(last, focus, height) + height - 1,
{
}

/// Each group is sorted by name, and the display order is every directory
/// first, then every other entry, whatever their names.
pub proof fn lemma_display_order(v: DirectoryView)
    requires
        v.wf(),
    ensures
        sorted_by_name(entry_views(v.dirs@)),
        sorted_by_name(entry_views(v.files@)),
        v.combined().len() == v.total(),
        forall|i: int| 0 <= i < v.dirs@.len() ==> #[trigger] v.combined()[i] == v.dirs@[i]@,
        forall|j: int|
            0 <= j < v.files@.len() ==> #[trigger] v.combined()[v.dirs@.len() + j] == v.files@[j]@,
{
}

/// What one child adds to the entries of a group.
pub open spec fn group_part(c: DirChildView, t: Seq<(Seq<char>, Seq<char>)>, dirs: bool) -> Multiset<
    EntryView,
> {
    if in_group(c, dirs) {
        Multiset::singleton(entry_of(c, t))
    } else {
        Multiset::empty()
    }
}

proof fn lemma_group_last(s: Seq<DirChildView>, t: Seq<(Seq<char>, Seq<char>)>, dirs: bool)
    requires
        s.len() > 0,
    ensures
        group_entries(s, t, dirs).to_multiset() =~= group_entries(s.drop_last(), t, dirs).to_multiset().add(
            group_part(s.last(), t, dirs),
        ),
{
}

proof fn lemma_group_remove(s: Seq<DirChildView>, i: int, t: Seq<(Seq<char>, Seq<char>)>, dirs: bool)
    requires
        0 <= i < s.len(),
    ensures
        group_entries(s, t, dirs).to_multiset() =~= group_entries(s.remove(i), t, dirs).to_multiset().add(
            group_part(s[i], t, dirs),
        ),
    decreases s.len(),
{
    lemma_group_last(s, t, dirs);
    if i == s.len() - 1 {
        assert(s.remove(i) =~= s.drop_last());
    } else {
        let s1 = s.drop_last();
        lemma_group_remove(s1, i, t, dirs);
        assert(s.remove(i).drop_last() =~= s1.remove(i));
        assert(s.remove(i).last() == s.last());
        lemma_group_last(s.remove(i), t, dirs);
    }
}

/// Children enumerated in another order give the same entries.
proof fn lemma_group_permutation(
    a: Seq<DirChildView>,
    b: Seq<DirChildView>,
    t: Seq<(Seq<char>, Seq<char>)>,
    dirs: bool,
)
    requires
        a.to_multiset() == b.to_multiset(),
    ensures
        group_entries(a, t, dirs).to_multiset() == group_entries(b, t, dirs).to_multiset(),
    decreases a.len(),
{
    if a.len() == 0 {
        assert(a.to_multiset().len() == 0);
        assert(b.to_multiset().len() == 0);
        assert(b =~= a);
    } else {
        let x = a.last();
        assert(a.drop_last().push(x) =~= a);
        assert(a.to_multiset().count(x) > 0);
        assert(b.contains(x));
        let i = choose|i: int| 0 <= i < b.len() && b[i] == x;
        assert(b.remove(i).to_multiset() =~= a.drop_last().to_multiset());
        lemma_group_permutation(a.drop_last(), b.remove(i), t, dirs);
        lemma_group_last(a, t, dirs);
        lemma_group_remove(b, i, t, dirs);
    }
}

/// Every entry of a group comes from a child in that group.
proof fn lemma_group_origin(s: Seq<DirChildView>, t: Seq<(Seq<char>, Seq<char>)>, dirs: bool, x: EntryView)
    requires
        group_entries(s, t, dirs).contains(x),
    ensures
        exists|i: int| 0 <= i < s.len() && in_group(s[i], dirs) && x == entry_of(#[trigger] s[i], t),
    decreases s.len(),
{
    let g = group_entries(s.drop_last(), t, dirs);
    if in_group(s.last(), dirs) && x == entry_of(s.last(), t) {
        assert(s[s.len() - 1] == s.last());
    } else {
        let j = choose|j: int| 0 <= j < group_entries(s, t, dirs).len() && group_entries(s, t, dirs)[j] == x;
        assert(g[j] == x);
        lemma_group_origin(s.drop_last(), t, dirs, x);
        let i = choose|i: int|
            0 <= i < s.drop_last().len() && in_group(s.drop_last()[i], dirs) && x == entry_of(
                #[trigger] s.drop_last()[i],
                t,
            );
        assert(s[i] == s.drop_last()[i]);
    }
}

/// No two different entries of `s` share a name.
pub open spec fn names_identify(s: Seq<EntryView>) -> bool {
    forall|i: int, j: int|
        0 <= i < s.len() && 0 <= j < s.len() && #[trigger] s[i].name == #[trigger] s[j].name ==> s[i]
            == s[j]
}

/// Two sequences sorted by name with the same entries, where a name
/// identifies an entry, are the same sequence.
proof fn lemma_sorted_unique(a: Seq<EntryView>, b: Seq<EntryView>)
    requires
        a.to_multiset() == b.to_multiset(),
        sorted_by_name(a),
        sorted_by_name(b),
        names_identify(a),
    ensures
        a == b,
    decreases a.len(),
{
    if a.len() == 0 {
        assert(b.len() == 0);
        assert(a =~= b);
    } else {
        assert(a.to_multiset().count(a[0]) > 0);
        assert(b.contains(a[0]));
        let k = choose|k: int| 0 <= k < b.len() && b[k] == a[0];
        assert(b.to_multiset().count(b[0]) > 0);
        assert(a.contains(b[0]));
        let j = choose|j: int| 0 <= j < a.len() && a[j] == b[0];
        if k > 0 {
            assert(name_le(b[0].name, b[k].name));
        }
        if j > 0 {
            assert(name_le(a[0].name, a[j].name));
        }
        lemma_name_lt_total(a[0].name, b[0].name);
        assert(a[0].name == a[j].name);
        assert(a[0] == b[0]);
        let a1 = a.remove(0);
        let b1 = b.remove(0);
        assert(a1.to_multiset() == b1.to_multiset());
        assert forall|x: int, y: int| 0 <= x < y < a1.len() implies name_le(
            #[trigger] a1[x].name,
            #[trigger] a1[y].name,
        ) by {
            assert(a1[x] == a[x + 1] && a1[y] == a[y + 1]);
        };
        assert forall|x: int, y: int| 0 <= x < y < b1.len() implies name_le(
            #[trigger] b1[x].name,
            #[trigger] b1[y].name,
        ) by {
            assert(b1[x] == b[x + 1] && b1[y] == b[y + 1]);
        };
        assert forall|x: int, y: int|
            0 <= x < a1.len() && 0 <= y < a1.len() && #[trigger] a1[x].name == #[trigger] a1[y].name
                implies a1[x] == a1[y] by {
            assert(a1[x] == a[x + 1] && a1[y] == a[y + 1]);
        };
        lemma_sorted_unique(a1, b1);
        assert(a =~= b) by {
            assert forall|x: int| 0 <= x < a.len() implies a[x] == b[x] by {
                if x > 0 {
                    assert(a[x] == a1[x - 1] && b[x] == b1[x - 1]);
                }
            };
        };
    }
}

/// A sequence with the same entries as a group, where the children's names
/// are unique, has no two different entries with one name.
proof fn lemma_names_identify(
    s: Seq<EntryView>,
    cs: Seq<DirChildView>,
    t: Seq<(Seq<char>, Seq<char>)>,
    dirs: bool,
)
    requires
        s.to_multiset() == group_entries(cs, t, dirs).to_multiset(),
        unique_names(cs),
    ensures
        names_identify(s),
{
    assert forall|i: int, j: int|
        0 <= i < s.len() && 0 <= j < s.len() && #[trigger] s[i].name == #[trigger] s[j].name implies s[i]
        == s[j] by {
        assert(s.to_multiset().count(s[i]) > 0);
        assert(s.to_multiset().count(s[j]) > 0);
        lemma_group_origin(cs, t, dirs, s[i]);
        lemma_group_origin(cs, t, dirs, s[j]);
        let p = choose|p: int| 0 <= p < cs.len() && in_group(cs[p], dirs) && s[i] == entry_of(#[trigger] cs[p], t);
        let q = choose|q: int| 0 <= q < cs.len() && in_group(cs[q], dirs) && s[j] == entry_of(#[trigger] cs[q], t);
        assert(cs[p] == cs[q]);
    };
}

/// No two different listed children share a name, as in any directory.
pub open spec fn unique_names(cs: Seq<DirChildView>) -> bool {
    forall|i: int, j: int|
        0 <= i < cs.len() && 0 <= j < cs.len() && is_listed(cs[i]) && is_listed(cs[j])
            && #[trigger] cs[i].name == #[trigger] cs[j].name ==> cs[i] == cs[j]
}

/// Loading a directory twice, with the same children enumerated in any
/// order, gives the same directories and the same other entries, in the same
/// order, with the same sizes and colours.
pub proof fn lemma_reload_same_listing(
    v1: DirectoryView,
    v2: DirectoryView,
    path: Seq<char>,
    a: Seq<DirChildView>,
    b: Seq<DirChildView>,
    t: Seq<(Seq<char>, Seq<char>)>,
)
    requires
        v1.loaded_from(path, a, t),
        v2.loaded_from(path, b, t),
        a.to_multiset() == b.to_multiset(),
        unique_names(a),
    ensures
        entry_views(v1.dirs@) == entry_views(v2.dirs@),
        entry_views(v1.files@) == entry_views(v2.files@),
        v1.combined() == v2.combined(),
{
    lemma_group_permutation(a, b, t, true);
    lemma_group_permutation(a, b, t, false);
    lemma_names_identify(entry_views(v1.dirs@), a, t, true);
    lemma_names_identify(entry_views(v1.files@), a, t, false);
    lemma_sorted_unique(entry_views(v1.dirs@), entry_views(v2.dirs@));
    lemma_sorted_unique(entry_views(v1.files@), entry_views(v2.files@));
}

/// Every child of a group gives an entry of that group.
proof fn lemma_group_member(s: Seq<DirChildView>, t: Seq<(Seq<char>, Seq<char>)>, dirs: bool, i: int)
    requires
        0 <= i < s.len(),
        in_group(s[i], dirs),
    ensures
        group_entries(s, t, dirs).contains(entry_of(s[i], t)),
    decreases s.len(),
{
    let g = group_entries(s, t, dirs);
    if i == s.len() - 1 {
        assert(g[g.len() - 1] == entry_of(s[i], t));
    } else {
        assert(s.drop_last()[i] == s[i]);
        lemma_group_member(s.drop_last(), t, dirs, i);
        let g1 = group_entries(s.drop_last(), t, dirs);
        let k = choose|k: int| 0 <= k < g1.len() && g1[k] == entry_of(s[i], t);
        assert(g[k] == g1[k]);
    }
}

/// After a load, each listed child is an entry of the directories when its
/// own type is a directory and of the other entries otherwise (a link to a
/// directory included); its entry has the child's path and name, the size
/// text of its target and the colours of its type.
pub proof fn lemma_loaded_child_placed(
    v: DirectoryView,
    path: Seq<char>,
    cs: Seq<DirChildView>,
    t: Seq<(Seq<char>, Seq<char>)>,
    i: int,
)
    requires
        v.loaded_from(path, cs, t),
        0 <= i < cs.len(),
        is_listed(cs[i]),
    ensures
        cs[i].meta.unwrap().kind == FileKind::Dir ==> entry_views(v.dirs@).contains(entry_of(cs[i], t)),
        cs[i].meta.unwrap().kind != FileKind::Dir ==> entry_views(v.files@).contains(entry_of(cs[i], t)),
        entry_of(cs[i], t).path == cs[i].path,
        entry_of(cs[i], t).name == cs[i].name.unwrap(),
        entry_of(cs[i], t).size == size_text(cs[i].meta.unwrap().kind, cs[i].meta.unwrap().target),
        entry_of(cs[i], t).color == entry_colors(
            cs[i].meta.unwrap().kind,
            cs[i].meta.unwrap().mode,
            cs[i].name.unwrap(),
            t,
        ),
{
    let dirs = cs[i].meta.unwrap().kind == FileKind::Dir;
    lemma_group_member(cs, t, dirs, i);
    let x = entry_of(cs[i], t);
    assert(group_entries(cs, t, dirs).to_multiset().count(x) > 0);
}

/// The size column of a link whose target cannot be found reads
/// `-> Broken Link`; a directory with `n` readable children shows `n`, a
/// regular file its byte count.
pub proof fn lemma_size_texts(n: u64)
    ensures
        size_text(FileKind::Symlink, Target::Missing) == "-> "@ + "Broken Link"@,
        size_text(FileKind::Dir, Target::Dir(Some(n))) == crate::text::decimal(n as nat),
        size_text(FileKind::File, Target::File(n)) == crate::text::human_size(n as nat),
{
}

/// A regular file without any execute bit whose extension has no usable
/// colour configured gets the theme's own styles.
pub proof fn lemma_unmatched_file_default(mode: u32, name: Seq<char>, t: Seq<(Seq<char>, Seq<char>)>)
    requires
        mode & 0o111u32 == 0,
        match extension_of(name) {
            Some(e) => crate::color::configured_color(t, e) is None,
            None => true,
        },
    ensures
        entry_colors(FileKind::File, mode, name, t) == default_pair(),
{
}

} // verus!
