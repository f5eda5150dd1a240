//! The donor's record is complete, and tells any change of it.
use crate::add::laws::placed;
use crate::host::{canonicalize_at, entry_names_at, Event};
use crate::inherit::{
    children_at, entry_at, nested_at, scan_at, snapshot_at, verify_unchanged_at, EntryState,
    ItemView, SnapshotView,
};
use crate::order::{by_bytes, ordered};
use crate::path::{joined, steps};
use crate::text::utf8;
use vstd::prelude::*;

verus! {

/// `entry` is what the log shows of `path` from `k` on: its metadata, and the
/// text of a link.
pub open spec fn shown_as(l: Seq<Event>, k: int, path: Seq<u8>, entry: EntryState) -> bool {
    &&& 0 <= k < l.len()
    &&& match l[k] {
        Event::Metadata(p, Ok(m)) => {
            &&& p == path
            &&& m.dev == entry.dev
            &&& m.ino == entry.ino
            &&& m.mode == entry.mode
            &&& m.size == entry.size
            &&& m.links == entry.links
            &&& m.modified == entry.modified
            &&& m.changed == entry.changed
            &&& if m.mode & 0o170000u32 == 0o120000u32 {
                &&& k + 1 < l.len()
                &&& entry.target is Some
                &&& l[k + 1] == Event::ReadLink(path, Ok(entry.target->0))
            } else {
                entry.target is None
            }
        },
        _ => false,
    }
}

/// One of `items` is at `path`.
pub open spec fn item_at(items: Seq<ItemView>, path: Seq<u8>) -> bool {
    exists|m: int| 0 <= m < items.len() && (#[trigger] items[m]).path == path
}

/// At `k` the log shows the names in the directory at `path` of `root`, and
/// everything in it is one of `items`, but for Git's own at the top.
pub open spec fn entered_whole(
    l: Seq<Event>,
    k: int,
    root: Seq<u8>,
    path: Seq<u8>,
    items: Seq<ItemView>,
) -> bool {
    &&& 0 <= k < l.len()
    &&& match l[k] {
        Event::EntryNames(p, Ok(names)) => {
            &&& p == joined(root, path)
            &&& forall|n: int|
                0 <= n < names.len() && !(path.len() == 0 && names[n] == utf8(".git"@))
                    ==> item_at(items, joined(path, #[trigger] names[n]))
        },
        _ => false,
    }
}

/// Item number `n` is recorded: it is as the log shows it between `i` and `j`,
/// and with a directory goes all that is in it.
pub open spec fn recorded(
    l: Seq<Event>,
    i: int,
    j: int,
    root: Seq<u8>,
    items: Seq<ItemView>,
    n: int,
) -> bool {
    &&& exists|k: int|
        i <= k < j && #[trigger] shown_as(l, k, joined(root, items[n].path), items[n].entry)
    &&& items[n].entry.mode & 0o170000u32 == 0o040000u32 ==> exists|k: int|
        i <= k < j && #[trigger] entered_whole(l, k, root, items[n].path, items)
}

/// The items from number `from` on are recorded.
spec fn all_recorded(
    l: Seq<Event>,
    i: int,
    j: int,
    root: Seq<u8>,
    items: Seq<ItemView>,
    from: int,
) -> bool {
    forall|n: int|
        from <= n < items.len() ==> #[trigger] recorded(l, i, j, root, items, n)
}

spec fn grown(before: Seq<ItemView>, after: Seq<ItemView>) -> bool {
    &&& before.len() <= after.len()
    &&& after.take(before.len() as int) == before
}

proof fn lemma_recorded_within(
    l: Seq<Event>,
    i: int,
    a: int,
    b: int,
    j: int,
    root: Seq<u8>,
    before: Seq<ItemView>,
    after: Seq<ItemView>,
    n: int,
)
    requires
        recorded(l, a, b, root, before, n),
        0 <= n < before.len(),
        i <= a,
        b <= j,
        grown(before, after),
    ensures
        recorded(l, i, j, root, after, n),
{
    assert(after[n] == after.take(before.len() as int)[n]);
    let k = choose|k: int|
        a <= k < b && #[trigger] shown_as(l, k, joined(root, before[n].path), before[n].entry);
    assert(shown_as(l, k, joined(root, after[n].path), after[n].entry));
    if before[n].entry.mode & 0o170000u32 == 0o040000u32 {
        let k = choose|k: int|
            a <= k < b && #[trigger] entered_whole(l, k, root, before[n].path, before);
        let names = (l[k]->EntryNames_1)->Ok_0;
        assert forall|m: int|
            0 <= m < names.len() && !(before[n].path.len() == 0 && names[m] == utf8(
                ".git"@,
            )) implies item_at(after, joined(before[n].path, #[trigger] names[m])) by {
            lemma_item_kept(before, after, joined(before[n].path, names[m]));
        }
        assert(entered_whole(l, k, root, after[n].path, after));
    }
}

proof fn lemma_item_kept(before: Seq<ItemView>, after: Seq<ItemView>, path: Seq<u8>)
    requires
        item_at(before, path),
        grown(before, after),
    ensures
        item_at(after, path),
{
    let m = choose|m: int| 0 <= m < before.len() && (#[trigger] before[m]).path == path;
    assert(after[m] == after.take(before.len() as int)[m]);
}

proof fn lemma_grown_on(a: Seq<ItemView>, b: Seq<ItemView>, c: Seq<ItemView>)
    requires
        grown(a, b),
        grown(b, c),
    ensures
        grown(a, c),
{
    assert(c.take(a.len() as int) =~= b.take(a.len() as int));
}

proof fn lemma_entry_shown(l: Seq<Event>, i: int, path: Seq<u8>)
    requires
        placed(l, i),
    ensures
        ({
            let (r, j) = entry_at(l, i, path);
            &&& j == -1 || (i != -1 && i < j <= l.len())
            &&& r is Ok && j != -1 ==> shown_as(l, i, path, r->Ok_0)
        }),
{
}

proof fn lemma_scanned(
    l: Seq<Event>,
    i: int,
    root: Seq<u8>,
    relative: Seq<u8>,
    depth: nat,
    found: Seq<ItemView>,
)
    requires
        placed(l, i),
        scan_at(l, i, root, relative, depth, found).0 is Ok,
    ensures
        ({
            let (r, j) = scan_at(l, i, root, relative, depth, found);
            let after = r->Ok_0;
            &&& j == -1 || (i != -1 && i < j <= l.len())
            &&& grown(found, after)
            &&& found.len() < after.len()
            &&& after[found.len() as int].path == relative
            &&& j != -1 ==> all_recorded(l, i, j, root, after, found.len() as int)
        }),
    decreases depth, 1nat, 0nat,
{
    let path = joined(root, relative);
    let (entry, a) = entry_at(l, i, path);
    let entry = entry->Ok_0;
    lemma_entry_shown(l, i, path);
    let item = ItemView { path: relative, entry };
    let more = found.push(item);
    let (r, j) = scan_at(l, i, root, relative, depth, found);
    let after = r->Ok_0;
    assert(more.take(found.len() as int) =~= found);
    if entry.kind() != crate::host::DIRECTORY {
        assert(after == more);
        if j != -1 {
            assert(shown_as(l, i, joined(root, after[found.len() as int].path), entry));
            assert(recorded(l, i, j, root, after, found.len() as int));
        }
    } else {
        let (nested, b) = if relative.len() == 0 {
            (false, a)
        } else {
            nested_at(l, a, path)
        };
        assert(b == -1 || (a != -1 && a <= b <= l.len()));
        let (names, c) = entry_names_at(l, b, path);
        let names = names->Ok_0;
        assert(c == -1 || (b != -1 && b < c <= l.len()));
        lemma_children(l, c, root, relative, ordered(names), 0, depth, more);
        lemma_grown_on(found, more, after);
        assert(after[found.len() as int] == after.take(more.len() as int)[found.len() as int]);
        if j != -1 {
            assert forall|n: int| found.len() <= n < after.len() implies #[trigger] recorded(
                l,
                i,
                j,
                root,
                after,
                n,
            ) by {
                if n == found.len() {
                    assert(shown_as(l, i, joined(root, after[n].path), after[n].entry));
                    assert forall|m: int|
                        0 <= m < names.len() && !(relative.len() == 0 && names[m] == utf8(
                            ".git"@,
                        )) implies item_at(after, joined(relative, #[trigger] names[m])) by {
                        lemma_ordered_has(names, m);
                        let o = choose|o: int|
                            0 <= o < ordered(names).len() && ordered(names)[o] == names[m];
                        assert(item_at(after, joined(relative, ordered(names)[o])));
                    }
                    assert(entered_whole(l, b, root, after[n].path, after));
                } else {
                    assert(recorded(l, c, j, root, after, n));
                    assert(after.take(after.len() as int) =~= after);
                    lemma_recorded_within(l, i, c, j, j, root, after, after, n);
                }
            }
        }
    }
}

proof fn lemma_ordered_has(names: Seq<Seq<u8>>, m: int)
    requires
        0 <= m < names.len(),
    ensures
        ordered(names).contains(names[m]),
{
    crate::order::lemma_bytes_ordered();
    names.lemma_sort_by_ensures(by_bytes());
    vstd::seq_lib::to_multiset_contains(names, names[m]);
    vstd::seq_lib::to_multiset_contains(ordered(names), names[m]);
    assert(names.contains(names[m]));
}

proof fn lemma_children(
    l: Seq<Event>,
    i: int,
    root: Seq<u8>,
    relative: Seq<u8>,
    names: Seq<Seq<u8>>,
    k: nat,
    depth: nat,
    found: Seq<ItemView>,
)
    requires
        placed(l, i),
        children_at(l, i, root, relative, names, k, depth, found).0 is Ok,
    ensures
        ({
            let (r, j) = children_at(l, i, root, relative, names, k, depth, found);
            let after = r->Ok_0;
            &&& j == -1 || (i != -1 && i <= j <= l.len())
            &&& grown(found, after)
            &&& forall|o: int|
                k <= o < names.len() && !(relative.len() == 0 && names[o] == utf8(".git"@))
                    ==> item_at(after, joined(relative, #[trigger] names[o]))
            &&& j != -1 ==> all_recorded(l, i, j, root, after, found.len() as int)
        }),
    decreases depth, 0nat, names.len() - k,
{
    let (r, j) = children_at(l, i, root, relative, names, k, depth, found);
    let after = r->Ok_0;
    if k >= names.len() {
        assert(after.take(found.len() as int) =~= found);
    } else if relative.len() == 0 && names[k as int] == utf8(".git"@) {
        lemma_children(l, i, root, relative, names, k + 1, depth, found);
    } else {
        let path = joined(relative, names[k as int]);
        let (s, a) = scan_at(l, i, root, path, (depth - 1) as nat, found);
        let more = s->Ok_0;
        lemma_scanned(l, i, root, path, (depth - 1) as nat, found);
        lemma_children(l, a, root, relative, names, k + 1, depth, more);
        lemma_grown_on(found, more, after);
        assert(item_at(more, path)) by {
            assert(more[found.len() as int].path == path);
        }
        lemma_item_kept(more, after, path);
        if j != -1 {
            assert forall|n: int| found.len() <= n < after.len() implies #[trigger] recorded(
                l,
                i,
                j,
                root,
                after,
                n,
            ) by {
                if n < more.len() {
                    assert(recorded(l, i, a, root, more, n));
                    lemma_recorded_within(l, i, i, a, j, root, more, after, n);
                } else {
                    assert(recorded(l, a, j, root, after, n));
                    assert(after.take(after.len() as int) =~= after);
                    lemma_recorded_within(l, i, a, j, j, root, after, after, n);
                }
            }
        }
    }
}

/// The donor's record is complete: the donor itself is the first item, every
/// item is as it was looked at, and everything in a directory that is an item
/// is an item too, but for Git's own directory at the top.
pub proof fn law_record_is_complete(l: Seq<Event>, i: int, donor: Seq<u8>)
    requires
        0 <= i <= l.len(),
        snapshot_at(l, i, donor).0 is Ok,
        snapshot_at(l, i, donor).1 != -1,
    ensures
        ({
            let (r, j) = snapshot_at(l, i, donor);
            let record = r->Ok_0;
            &&& i < j <= l.len()
            &&& l[i] == Event::Canonicalize(donor, Ok(record.donor))
            &&& record.items.len() > 0
            &&& record.items[0].path.len() == 0
            &&& forall|n: int|
                0 <= n < record.items.len() ==> #[trigger] recorded(
                    l,
                    i,
                    j,
                    record.donor,
                    record.items,
                    n,
                )
        }),
{
    let (root, a) = canonicalize_at(l, i, donor);
    let root = root->Ok_0;
    let none = Seq::<ItemView>::empty();
    let depth = crate::inherit::MAX_DEPTH as nat;
    lemma_scanned(l, a, root, Seq::empty(), depth, none);
    let (items, j) = scan_at(l, a, root, Seq::empty(), depth, none);
    let items = items->Ok_0;
    assert forall|n: int| 0 <= n < items.len() implies #[trigger] recorded(
        l,
        i,
        j,
        root,
        items,
        n,
    ) by {
        assert(recorded(l, a, j, root, items, n));
        assert(items.take(items.len() as int) =~= items);
        lemma_recorded_within(l, i, a, j, j, root, items, items, n);
    }
}

/// The donor is found unchanged only where a second record of it has the same
/// items in the same order, each with the same identity, kind and permissions,
/// size, names and times, and the same text of a link.
pub proof fn law_unchanged_means_the_same_record(l: Seq<Event>, i: int, before: SnapshotView)
    requires
        verify_unchanged_at(l, i, before).0 is None,
    ensures
        snapshot_at(l, i, before.donor).0 matches Ok(after) && {
            &&& after.items.len() == before.items.len()
            &&& forall|n: int|
                0 <= n < before.items.len() ==> {
                    let a = (#[trigger] before.items[n]).entry;
                    let b = after.items[n].entry;
                    &&& steps(before.items[n].path) == steps(after.items[n].path)
                    &&& a.dev == b.dev && a.ino == b.ino
                    &&& a.mode == b.mode
                    &&& a.size == b.size
                    &&& a.links == b.links
                    &&& a.modified == b.modified
                    &&& a.changed == b.changed
                    &&& (a.target is Some) == (b.target is Some)
                    &&& a.target is Some ==> steps(a.target->0) == steps(b.target->0)
                }
        },
{
}

} // verus!
