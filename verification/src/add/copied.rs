//! An inherited worktree has what the donor has.
//!
//! Every item of the donor's record comes to be at its own place below the
//! destination, with what it holds, its permission bits and its times.
use crate::add::isolation::apart;
use crate::host::{canonicalize_at, entry_names_at, Event};
use crate::inherit::{
    copy_contents_at, copy_from, copy_item_at, copy_items_at, donor_links_at, entry_at, file_key,
    finalize_directories_at, finalize_from, fresh_report, materialize_at, preserve_from_at,
    verify_unchanged_at, EntryState, ItemView, ProgressView, ReportView, SnapshotView,
};
use crate::path::{joined, steps};
use crate::add::laws::{placed, quiet_donor_links, quiet_verify_unchanged};
use crate::text::begins;
use vstd::prelude::*;

verus! {

/// The place of an item is one of `links` or below one, and is filled by no
/// copy.
pub open spec fn left_out(links: Seq<Seq<u8>>, path: Seq<u8>) -> bool {
    exists|k: int| 0 <= k < links.len() && begins(steps(path), steps(#[trigger] links[k]))
}

/// The item is to be copied: it is not the root, and not left out.
pub open spec fn taken(links: Seq<Seq<u8>>, item: ItemView) -> bool {
    item.path.len() > 0 && !left_out(links, item.path)
}

/// The item is a regular file.
pub open spec fn regular(item: ItemView) -> bool {
    item.entry.mode & 0o170000u32 == 0o100000u32
}

/// The item is a directory.
pub open spec fn directory(item: ItemView) -> bool {
    item.entry.mode & 0o170000u32 == 0o040000u32
}

/// The item is a symbolic link.
pub open spec fn link(item: ItemView) -> bool {
    item.entry.mode & 0o170000u32 == 0o120000u32
}

/// What is at `path` was looked at, and is as it was recorded.
pub open spec fn seen_as(event: Event, path: Seq<u8>, entry: EntryState) -> bool {
    match event {
        Event::Metadata(p, Ok(m)) => {
            &&& p == path
            &&& m.dev == entry.dev
            &&& m.ino == entry.ino
            &&& m.mode == entry.mode
            &&& m.size == entry.size
            &&& m.links == entry.links
            &&& m.modified == entry.modified
            &&& m.changed == entry.changed
        },
        _ => false,
    }
}

/// From `k` on the log shows that `target` got the permission bits and the
/// times that `source` has.
pub open spec fn took_after(l: Seq<Event>, k: int, source: Seq<u8>, target: Seq<u8>) -> bool {
    &&& 0 <= k
    &&& k + 2 < l.len()
    &&& match l[k] {
        Event::Metadata(p, Ok(m)) => {
            &&& p == source
            &&& l[k + 1] == Event::SetMode(target, m.mode & 0o1777u32, None)
            &&& l[k + 2] == Event::SetTimes(target, m.accessed, m.modified, None)
        },
        _ => false,
    }
}

/// From `k` on the log shows that `target` was made a link to `text` and got
/// the times that the link at `source` has.
pub open spec fn linked_after(
    l: Seq<Event>,
    k: int,
    source: Seq<u8>,
    target: Seq<u8>,
    text: Seq<u8>,
) -> bool {
    &&& 0 <= k
    &&& k + 2 < l.len()
    &&& l[k] == Event::Symlink(text, target, None)
    &&& match l[k + 1] {
        Event::Metadata(p, Ok(m)) => {
            &&& p == source
            &&& l[k + 2] == Event::SetTimes(target, m.accessed, m.modified, None)
        },
        _ => false,
    }
}

/// `target` was filled with what `source` holds: by a clone, or where that is
/// allowed by a copy.
pub open spec fn got_contents(
    event: Event,
    source: Seq<u8>,
    target: Seq<u8>,
    allow_copy: bool,
) -> bool {
    match event {
        Event::CloneInto(s, t, Ok(_)) => s == source && t == target,
        Event::CopyNew(s, t, None) => s == source && t == target && allow_copy,
        _ => false,
    }
}

/// The item number `m` is another name of the file that number `n` is.
pub open spec fn same_file(items: Seq<ItemView>, m: int, n: int) -> bool {
    &&& regular(items[m])
    &&& items[m].entry.dev == items[n].entry.dev
    &&& items[m].entry.ino == items[n].entry.ino
}

/// `target` was made another name of an earlier item that is the same file as
/// number `n`.
pub open spec fn got_name(
    event: Event,
    target: Seq<u8>,
    items: Seq<ItemView>,
    n: int,
    root: Seq<u8>,
    links: Seq<Seq<u8>>,
) -> bool {
    match event {
        Event::HardLink(first, t, None) => t == target && exists|m: int|
            0 <= m < n && #[trigger] same_file(items, m, n) && taken(links, items[m]) && first
                == joined(root, items[m].path),
        _ => false,
    }
}

/// An earlier item that is copied is the same file as number `n`.
pub open spec fn named_before(items: Seq<ItemView>, n: int, links: Seq<Seq<u8>>) -> bool {
    exists|m: int| 0 <= m < n && #[trigger] same_file(items, m, n) && taken(links, items[m])
}

/// At `k`, and before `j`, the log shows that item number `n` came to be below
/// `root`: a regular file with its contents, permission bits and times, or as
/// another name of a file that is there; a directory; a link with its text and
/// times. Anything else is passed over.
pub open spec fn arrived(
    l: Seq<Event>,
    k: int,
    j: int,
    items: Seq<ItemView>,
    n: int,
    donor: Seq<u8>,
    root: Seq<u8>,
    links: Seq<Seq<u8>>,
    allow_copy: bool,
) -> bool {
    let item = items[n];
    let source = joined(donor, item.path);
    let target = joined(root, item.path);
    if regular(item) {
        &&& k + 3 < j
        &&& if named_before(items, n, links) {
            got_name(l[k], target, items, n, root, links)
        } else {
            got_contents(l[k], source, target, allow_copy)
        }
        &&& took_after(l, k + 1, source, target)
    } else if directory(item) {
        k < j && l[k] == Event::CreateDirectory(target, None)
    } else if link(item) {
        &&& k + 2 < j
        &&& item.entry.target is Some
        &&& linked_after(l, k, source, target, item.entry.target->0)
    } else {
        k <= j
    }
}

/// Between `i` and `j` the log shows that item number `n` was looked at, was as
/// recorded, and then came to be below `root`.
pub open spec fn inherited_item(
    l: Seq<Event>,
    i: int,
    j: int,
    items: Seq<ItemView>,
    n: int,
    donor: Seq<u8>,
    root: Seq<u8>,
    links: Seq<Seq<u8>>,
    allow_copy: bool,
) -> bool {
    exists|a: int, k: int|
        {
            &&& i <= a < k
            &&& #[trigger] seen_as(l[a], joined(donor, items[n].path), items[n].entry)
            &&& #[trigger] arrived(l, k, j, items, n, donor, root, links, allow_copy)
        }
}

/// The paths of the links among the first `n` items that are copied.
pub open spec fn links_among(items: Seq<ItemView>, n: nat, links: Seq<Seq<u8>>) -> Seq<Seq<u8>>
    decreases n,
{
    if n == 0 {
        Seq::empty()
    } else {
        let before = links_among(items, (n - 1) as nat, links);
        if taken(links, items[n - 1]) && link(items[n - 1]) {
            before.push(items[n - 1].path)
        } else {
            before
        }
    }
}

/// The paths of what is neither file, directory nor link among the first `n`
/// items that are not left out.
pub open spec fn specials_among(items: Seq<ItemView>, n: nat, links: Seq<Seq<u8>>) -> Seq<Seq<u8>>
    decreases n,
{
    if n == 0 {
        Seq::empty()
    } else {
        let before = specials_among(items, (n - 1) as nat, links);
        let item = items[n - 1];
        if taken(links, item) && !regular(item) && !directory(item) && !link(item) {
            before.push(item.path)
        } else {
            before
        }
    }
}

/// How many of the first `n` items are regular files that are copied.
pub open spec fn files_among(items: Seq<ItemView>, n: nat, links: Seq<Seq<u8>>) -> int
    decreases n,
{
    if n == 0 {
        0
    } else {
        files_among(items, (n - 1) as nat, links) + if taken(links, items[n - 1]) && regular(
            items[n - 1],
        ) {
            1int
        } else {
            0int
        }
    }
}

/// How many of the first `n` items are further names of files that are copied.
pub open spec fn names_among(items: Seq<ItemView>, n: nat, links: Seq<Seq<u8>>) -> int
    decreases n,
{
    if n == 0 {
        0
    } else {
        names_among(items, (n - 1) as nat, links) + if taken(links, items[n - 1]) && regular(
            items[n - 1],
        ) && named_before(items, n - 1, links) {
            1int
        } else {
            0int
        }
    }
}

/// `report` tells of the first `n` items: every file is a clone, a copy or
/// another name, the further names are counted as such, and the links and what
/// was passed over are listed in order.
pub open spec fn counts_for(
    report: ReportView,
    items: Seq<ItemView>,
    n: nat,
    links: Seq<Seq<u8>>,
    allow_copy: bool,
) -> bool {
    &&& report.cow_files + report.copied_files + report.hardlinks == files_among(items, n, links)
    &&& report.hardlinks == names_among(items, n, links)
    &&& !allow_copy ==> report.copied_files == 0
    &&& report.symlinks == links_among(items, n, links)
    &&& report.skipped_special == specials_among(items, n, links)
}

/// The first names that are remembered are those of the first `n` items.
spec fn remembers(
    state: ProgressView,
    items: Seq<ItemView>,
    n: int,
    root: Seq<u8>,
    links: Seq<Seq<u8>>,
) -> bool {
    &&& forall|key: u128| #[trigger]
        state.firsts.contains_key(key) ==> exists|m: int|
            0 <= m < n && regular(#[trigger] items[m]) && taken(links, items[m]) && key == file_key(
                items[m].entry.dev,
                items[m].entry.ino,
            ) && state.firsts[key] == joined(root, items[m].path)
    &&& forall|m: int|
        0 <= m < n && regular(#[trigger] items[m]) && taken(links, items[m])
            ==> state.firsts.contains_key(file_key(items[m].entry.dev, items[m].entry.ino))
}

proof fn lemma_keys_tell_apart(a: EntryState, b: EntryState)
    requires
        file_key(a.dev, a.ino) == file_key(b.dev, b.ino),
    ensures
        a.dev == b.dev,
        a.ino == b.ino,
{
    let x = a.dev as int * 0x1_0000_0000_0000_0000 + a.ino as int;
    let y = b.dev as int * 0x1_0000_0000_0000_0000 + b.ino as int;
    assert(0 <= x <= u128::MAX);
    assert(0 <= y <= u128::MAX);
    assert(x == y);
}

/// `j` comes after `i`, or is lost.
spec fn after(l: Seq<Event>, i: int, j: int) -> bool {
    j == -1 || (i != -1 && i <= j <= l.len())
}

proof fn lemma_item(
    l: Seq<Event>,
    i: int,
    items: Seq<ItemView>,
    n: int,
    root: Seq<u8>,
    donor: Seq<u8>,
    links: Seq<Seq<u8>>,
    allow_copy: bool,
    state: ProgressView,
)
    requires
        placed(l, i),
        0 <= n < items.len(),
        remembers(state, items, n, root, links),
        counts_for(state.report, items, n as nat, links, allow_copy),
        copy_item_at(l, i, items[n], root, donor, links, allow_copy, state).0 is Ok,
    ensures
        ({
            let (r, j) = copy_item_at(l, i, items[n], root, donor, links, allow_copy, state);
            let next = r->Ok_0;
            &&& after(l, i, j)
            &&& j != -1 ==> remembers(next, items, n + 1, root, links)
            &&& j != -1 ==> counts_for(next.report, items, (n + 1) as nat, links, allow_copy)
            &&& j != -1 && taken(links, items[n]) ==> inherited_item(
                l,
                i,
                j,
                items,
                n,
                donor,
                root,
                links,
                allow_copy,
            )
            &&& next.report.donor_links == state.report.donor_links
        }),
{
    reveal(copy_item_at);
    reveal(copy_contents_at);
    let item = items[n];
    let (r, j) = copy_item_at(l, i, item, root, donor, links, allow_copy, state);
    let next = r->Ok_0;
    assert(left_out(links, item.path) == crate::inherit::under_target(links, item.path));
    if taken(links, item) && j != -1 {
        let source = joined(donor, item.path);
        let target = joined(root, item.path);
        let (now, a) = entry_at(l, i, source);
        assert(seen_as(l[i], source, item.entry));
        if regular(item) {
            let key = file_key(item.entry.dev, item.entry.ino);
            let (contents, b) = copy_contents_at(l, a, item, source, target, allow_copy, state);
            assert(named_before(items, n, links) == state.firsts.contains_key(key)) by {
                if state.firsts.contains_key(key) {
                    let m = choose|m: int|
                        0 <= m < n && regular(#[trigger] items[m]) && taken(links, items[m]) && key
                            == file_key(items[m].entry.dev, items[m].entry.ino)
                            && state.firsts[key] == joined(root, items[m].path);
                    lemma_keys_tell_apart(items[m].entry, item.entry);
                    assert(same_file(items, m, n));
                }
                if named_before(items, n, links) {
                    let m = choose|m: int|
                        0 <= m < n && #[trigger] same_file(items, m, n) && taken(links, items[m]);
                    assert(regular(items[m]));
                }
            }
            if state.firsts.contains_key(key) {
                let m = choose|m: int|
                    0 <= m < n && regular(#[trigger] items[m]) && taken(links, items[m]) && key
                        == file_key(items[m].entry.dev, items[m].entry.ino) && state.firsts[key]
                        == joined(root, items[m].path);
                lemma_keys_tell_apart(items[m].entry, item.entry);
                assert(same_file(items, m, n));
                assert(got_name(l[b - 1], target, items, n, root, links));
            } else {
                assert(got_contents(l[b - 1], source, target, allow_copy));
            }
            assert(took_after(l, b, source, target));
            assert(arrived(l, b - 1, j, items, n, donor, root, links, allow_copy));
            assert(remembers(next, items, n + 1, root, links)) by {
                assert forall|other: u128| #[trigger]
                    next.firsts.contains_key(other) implies exists|m: int|
                    0 <= m < n + 1 && regular(#[trigger] items[m]) && taken(links, items[m])
                        && other == file_key(items[m].entry.dev, items[m].entry.ino)
                        && next.firsts[other] == joined(root, items[m].path) by {
                    if state.firsts.contains_key(other) {
                        let m = choose|m: int|
                            0 <= m < n && regular(#[trigger] items[m]) && taken(links, items[m])
                                && other == file_key(items[m].entry.dev, items[m].entry.ino)
                                && state.firsts[other] == joined(root, items[m].path);
                        assert(regular(items[m]));
                    } else {
                        assert(other == key);
                        assert(regular(items[n]));
                    }
                }
            }
        } else if directory(item) {
            assert(arrived(l, a, j, items, n, donor, root, links, allow_copy));
            assert(remembers(next, items, n + 1, root, links)) by {
                lemma_remembers(state, items, n, root, links);
            }
        } else if link(item) {
            assert(linked_after(l, a, source, target, item.entry.target->0));
            assert(arrived(l, a, j, items, n, donor, root, links, allow_copy));
            lemma_remembers(state, items, n, root, links);
        } else {
            assert(arrived(l, a, j, items, n, donor, root, links, allow_copy));
            lemma_remembers(state, items, n, root, links);
        }
    } else if j != -1 {
        lemma_remembers(state, items, n, root, links);
    }
}

proof fn lemma_remembers(
    state: ProgressView,
    items: Seq<ItemView>,
    n: int,
    root: Seq<u8>,
    links: Seq<Seq<u8>>,
)
    requires
        remembers(state, items, n, root, links),
        !(regular(items[n]) && taken(links, items[n])),
    ensures
        forall|next: ProgressView|
            #![trigger remembers(next, items, n + 1, root, links)]
            next.firsts == state.firsts ==> remembers(next, items, n + 1, root, links),
{
    assert forall|next: ProgressView| next.firsts == state.firsts implies #[trigger] remembers(
        next,
        items,
        n + 1,
        root,
        links,
    ) by {
        assert forall|key: u128| #[trigger] next.firsts.contains_key(key) implies exists|m: int|
            0 <= m < n + 1 && regular(#[trigger] items[m]) && taken(links, items[m]) && key
                == file_key(items[m].entry.dev, items[m].entry.ino) && next.firsts[key] == joined(
                root,
                items[m].path,
            ) by {
            assert(state.firsts.contains_key(key));
            let m = choose|m: int|
                0 <= m < n && regular(#[trigger] items[m]) && taken(links, items[m]) && key
                    == file_key(items[m].entry.dev, items[m].entry.ino) && state.firsts[key]
                    == joined(root, items[m].path);
            assert(regular(items[m]));
        }
    }
}

proof fn lemma_inherited_within(
    l: Seq<Event>,
    i: int,
    j: int,
    a: int,
    b: int,
    items: Seq<ItemView>,
    n: int,
    donor: Seq<u8>,
    root: Seq<u8>,
    links: Seq<Seq<u8>>,
    allow_copy: bool,
)
    requires
        inherited_item(l, a, b, items, n, donor, root, links, allow_copy),
        i <= a,
        b <= j,
    ensures
        inherited_item(l, i, j, items, n, donor, root, links, allow_copy),
{
    let (x, k) = choose|x: int, k: int|
        {
            &&& a <= x < k
            &&& #[trigger] seen_as(l[x], joined(donor, items[n].path), items[n].entry)
            &&& #[trigger] arrived(l, k, b, items, n, donor, root, links, allow_copy)
        };
    assert(seen_as(l[x], joined(donor, items[n].path), items[n].entry));
    assert(arrived(l, k, j, items, n, donor, root, links, allow_copy));
}

proof fn lemma_items(
    l: Seq<Event>,
    i: int,
    before: SnapshotView,
    k: nat,
    root: Seq<u8>,
    links: Seq<Seq<u8>>,
    allow_copy: bool,
    state: ProgressView,
)
    requires
        placed(l, i),
        k <= before.items.len(),
        i != -1 ==> remembers(state, before.items, k as int, root, links),
        i != -1 ==> counts_for(state.report, before.items, k, links, allow_copy),
        copy_from(l, i, before, k, root, links, allow_copy, state).0 is Ok,
    ensures
        ({
            let (r, j) = copy_from(l, i, before, k, root, links, allow_copy, state);
            &&& after(l, i, j)
            &&& j != -1 ==> counts_for(
                r->Ok_0.report,
                before.items,
                before.items.len(),
                links,
                allow_copy,
            )
            &&& j != -1 ==> r->Ok_0.report.donor_links == state.report.donor_links
            &&& j != -1 ==> forall|n: int|
                k <= n < before.items.len() && taken(links, #[trigger] before.items[n])
                    ==> inherited_item(
                    l,
                    i,
                    j,
                    before.items,
                    n,
                    before.donor,
                    root,
                    links,
                    allow_copy,
                )
        }),
    decreases before.items.len() - k,
{
    if k < before.items.len() {
        let (r, a) = copy_item_at(
            l,
            i,
            before.items[k as int],
            root,
            before.donor,
            links,
            allow_copy,
            state,
        );
        let (_, j) = copy_from(l, i, before, k, root, links, allow_copy, state);
        if i == -1 {
            lemma_lost_item(l, before.items[k as int], root, before.donor, links, allow_copy, state);
        } else {
            lemma_item(
                l,
                i,
                before.items,
                k as int,
                root,
                before.donor,
                links,
                allow_copy,
                state,
            );
        }
        lemma_items(l, a, before, k + 1, root, links, allow_copy, r->Ok_0);
        if j != -1 {
            assert forall|n: int|
                k <= n < before.items.len() && taken(
                    links,
                    #[trigger] before.items[n],
                ) implies inherited_item(
                l,
                i,
                j,
                before.items,
                n,
                before.donor,
                root,
                links,
                allow_copy,
            ) by {
                let b = if n == k {
                    a
                } else {
                    j
                };
                let from = if n == k {
                    i
                } else {
                    a
                };
                lemma_inherited_within(
                    l,
                    i,
                    j,
                    from,
                    b,
                    before.items,
                    n,
                    before.donor,
                    root,
                    links,
                    allow_copy,
                );
            }
        }
    }
}

proof fn lemma_lost_item(
    l: Seq<Event>,
    item: ItemView,
    root: Seq<u8>,
    donor: Seq<u8>,
    links: Seq<Seq<u8>>,
    allow_copy: bool,
    state: ProgressView,
)
    ensures
        copy_item_at(l, -1, item, root, donor, links, allow_copy, state).1 == -1,
{
    reveal(copy_item_at);
    reveal(copy_contents_at);
}

/// Every item of the donor's record that is not left to a link comes to be in
/// the worktree. A regular file is a clone of the donor's, or where that is
/// allowed a copy, and has its permission bits and its times; a further name of
/// a file is a further name of the one that is there. A directory is made. A
/// link has the donor's text and times. And the report counts and lists
/// exactly these.
pub proof fn law_every_item_is_inherited(
    l: Seq<Event>,
    i: int,
    before: SnapshotView,
    destination: Seq<u8>,
    links: Seq<Seq<u8>>,
    allow_copy: bool,
    allow_donor_links: bool,
    linux: bool,
    report: ReportView,
    j: int,
)
    requires
        materialize_at(
            l,
            i,
            before,
            destination,
            links,
            allow_copy,
            allow_donor_links,
            linux,
        ) == (Ok::<ReportView, Seq<char>>(report), j),
        j != -1,
    ensures
        0 <= i < j <= l.len(),
        counts_for(report, before.items, before.items.len(), links, allow_copy),
        exists|root: Seq<u8>|
            {
                &&& l[i] == Event::Canonicalize(destination, Ok(root))
                &&& #[trigger] apart(root, before.donor)
                &&& forall|n: int|
                    0 <= n < before.items.len() && taken(links, #[trigger] before.items[n])
                        ==> inherited_item(
                        l,
                        i,
                        j,
                        before.items,
                        n,
                        before.donor,
                        root,
                        links,
                        allow_copy,
                    )
            },
{
    reveal(materialize_at);
    let (found, a) = canonicalize_at(l, i, destination);
    let root = found->Ok_0;
    let (names, b) = entry_names_at(l, a, root);
    let (into, c) = donor_links_at(
        l,
        b,
        before.items,
        root,
        before.donor,
        links,
        allow_donor_links,
    );
    assert(placed(l, b) && (b == -1 || i < b));
    quiet_donor_links(
        l,
        b,
        before.items,
        0,
        root,
        before.donor,
        links,
        allow_donor_links,
        Seq::empty(),
    );
    crate::add::laws::lemma_quietly(l, b, c);
    let start = ProgressView { report: fresh_report(into->Ok_0), firsts: Map::empty() };
    lemma_items(l, c, before, 0, root, links, allow_copy, start);
    let (copied, d) = copy_items_at(l, c, before, root, links, allow_copy, start);
    quiet_verify_unchanged(l, d, before);
    let (changed, e) = verify_unchanged_at(l, d, before);
    crate::add::laws::lemma_quietly(l, d, e);
    assert(apart(root, before.donor));
    assert forall|n: int|
        0 <= n < before.items.len() && taken(
            links,
            #[trigger] before.items[n],
        ) implies inherited_item(
        l,
        i,
        j,
        before.items,
        n,
        before.donor,
        root,
        links,
        allow_copy,
    ) by {
        lemma_inherited_within(
            l,
            i,
            j,
            c,
            d,
            before.items,
            n,
            before.donor,
            root,
            links,
            allow_copy,
        );
    }
}

/// One item that is copied comes to be in the worktree as the donor has it,
/// whatever was copied before it: a regular file gets the donor's permission
/// bits and times after it got its contents or its name.
pub proof fn law_copied_file_is_like_the_donors(
    l: Seq<Event>,
    i: int,
    item: ItemView,
    destination: Seq<u8>,
    donor: Seq<u8>,
    links: Seq<Seq<u8>>,
    allow_copy: bool,
    state: ProgressView,
)
    requires
        0 <= i <= l.len(),
        copy_item_at(l, i, item, destination, donor, links, allow_copy, state).0 is Ok,
        copy_item_at(l, i, item, destination, donor, links, allow_copy, state).1 != -1,
        regular(item),
        taken(links, item),
    ensures
        ({
            let j = copy_item_at(l, i, item, destination, donor, links, allow_copy, state).1;
            let source = joined(donor, item.path);
            let target = joined(destination, item.path);
            &&& i + 1 < j - 3
            &&& j <= l.len()
            &&& seen_as(l[i], source, item.entry)
            &&& match l[j - 4] {
                Event::HardLink(_, t, None) => t == target,
                _ => got_contents(l[j - 4], source, target, allow_copy),
            }
            &&& took_after(l, j - 3, source, target)
        }),
{
    reveal(copy_item_at);
    reveal(copy_contents_at);
    assert(left_out(links, item.path) == crate::inherit::under_target(links, item.path));
}

/// Between `i` and `j` a directory got the donor's permission bits and times.
pub open spec fn finished(
    l: Seq<Event>,
    i: int,
    j: int,
    item: ItemView,
    donor: Seq<u8>,
    root: Seq<u8>,
) -> bool {
    exists|k: int|
        i <= k && k + 3 <= j && #[trigger] took_after(
            l,
            k,
            joined(donor, item.path),
            joined(root, item.path),
        )
}

proof fn lemma_finishes(
    l: Seq<Event>,
    i: int,
    before: SnapshotView,
    k: nat,
    destination: Seq<u8>,
    links: Seq<Seq<u8>>,
)
    requires
        placed(l, i),
        k <= before.items.len(),
        finalize_from(l, i, before, k, destination, links).0 is None,
    ensures
        ({
            let j = finalize_from(l, i, before, k, destination, links).1;
            &&& after(l, i, j)
            &&& j != -1 ==> forall|n: int|
                0 <= n < k && directory(#[trigger] before.items[n]) && !left_out(
                    links,
                    before.items[n].path,
                ) ==> finished(l, i, j, before.items[n], before.donor, destination)
            &&& j != -1 ==> forall|m: int, n: int|
                0 <= m < n < k && directory(#[trigger] before.items[m]) && directory(
                    #[trigger] before.items[n],
                ) && !left_out(links, before.items[m].path) && !left_out(
                    links,
                    before.items[n].path,
                ) ==> exists|a: int|
                    {
                        &&& i <= a <= j
                        &&& #[trigger] finished(
                            l,
                            i,
                            a,
                            before.items[n],
                            before.donor,
                            destination,
                        )
                        &&& finished(l, a, j, before.items[m], before.donor, destination)
                    }
        }),
    decreases k,
{
    let j = finalize_from(l, i, before, k, destination, links).1;
    if k > 0 {
        let item = before.items[k - 1];
        let source = joined(before.donor, item.path);
        let target = joined(destination, item.path);
        assert(left_out(links, item.path) == crate::inherit::under_target(links, item.path));
        if directory(item) && !left_out(links, item.path) {
            let (r, a) = preserve_from_at(l, i, source, target, false);
            lemma_finishes(l, a, before, (k - 1) as nat, destination, links);
            if j != -1 {
                assert(took_after(l, i, source, target));
                assert(a == i + 3);
                assert(finished(l, i, a, item, before.donor, destination));
                assert(finished(l, i, j, item, before.donor, destination));
                assert forall|n: int|
                    0 <= n < k && directory(#[trigger] before.items[n]) && !left_out(
                        links,
                        before.items[n].path,
                    ) implies finished(l, i, j, before.items[n], before.donor, destination) by {
                    if n < k - 1 {
                        lemma_finished_within(l, i, a, j, j, before.items[n], before.donor, destination);
                    }
                }
                assert forall|m: int, n: int|
                    0 <= m < n < k && directory(#[trigger] before.items[m]) && directory(
                        #[trigger] before.items[n],
                    ) && !left_out(links, before.items[m].path) && !left_out(
                        links,
                        before.items[n].path,
                    ) implies exists|b: int|
                    {
                        &&& i <= b <= j
                        &&& #[trigger] finished(
                            l,
                            i,
                            b,
                            before.items[n],
                            before.donor,
                            destination,
                        )
                        &&& finished(l, b, j, before.items[m], before.donor, destination)
                    } by {
                    if n == k - 1 {
                        assert(finished(l, i, a, before.items[n], before.donor, destination));
                        assert(finished(l, a, j, before.items[m], before.donor, destination));
                    } else {
                        let b = choose|b: int|
                            {
                                &&& a <= b <= j
                                &&& #[trigger] finished(
                                    l,
                                    a,
                                    b,
                                    before.items[n],
                                    before.donor,
                                    destination,
                                )
                                &&& finished(
                                    l,
                                    b,
                                    j,
                                    before.items[m],
                                    before.donor,
                                    destination,
                                )
                            };
                        lemma_finished_within(l, i, a, b, b, before.items[n], before.donor, destination);
                        assert(finished(l, i, b, before.items[n], before.donor, destination));
                    }
                }
            }
        } else {
            lemma_finishes(l, i, before, (k - 1) as nat, destination, links);
        }
    }
}

proof fn lemma_finished_within(
    l: Seq<Event>,
    i: int,
    a: int,
    b: int,
    j: int,
    item: ItemView,
    donor: Seq<u8>,
    root: Seq<u8>,
)
    requires
        i <= a,
        b <= j,
        finished(l, a, b, item, donor, root),
    ensures
        finished(l, i, j, item, donor, root),
{
    let k = choose|k: int|
        a <= k && k + 3 <= b && #[trigger] took_after(
            l,
            k,
            joined(donor, item.path),
            joined(root, item.path),
        );
    assert(took_after(l, k, joined(donor, item.path), joined(root, item.path)));
}

/// Once everything is copied every inherited directory gets the donor's
/// permission bits and times; one that was recorded later, as what lies below a
/// directory is, gets them before one that was recorded earlier.
pub proof fn law_directories_are_finished_from_below(
    l: Seq<Event>,
    i: int,
    before: SnapshotView,
    destination: Seq<u8>,
    links: Seq<Seq<u8>>,
)
    requires
        0 <= i <= l.len(),
        finalize_directories_at(l, i, before, destination, links).0 is None,
        finalize_directories_at(l, i, before, destination, links).1 != -1,
    ensures
        ({
            let j = finalize_directories_at(l, i, before, destination, links).1;
            &&& forall|n: int|
                0 <= n < before.items.len() && directory(#[trigger] before.items[n]) && !left_out(
                    links,
                    before.items[n].path,
                ) ==> finished(l, i, j, before.items[n], before.donor, destination)
            &&& forall|m: int, n: int|
                0 <= m < n < before.items.len() && directory(#[trigger] before.items[m])
                    && directory(#[trigger] before.items[n]) && !left_out(
                    links,
                    before.items[m].path,
                ) && !left_out(links, before.items[n].path) ==> exists|a: int|
                    {
                        &&& i <= a <= j
                        &&& #[trigger] finished(
                            l,
                            i,
                            a,
                            before.items[n],
                            before.donor,
                            destination,
                        )
                        &&& finished(l, a, j, before.items[m], before.donor, destination)
                    }
        }),
{
    lemma_finishes(l, i, before, before.items.len(), destination, links);
}

} // verus!
