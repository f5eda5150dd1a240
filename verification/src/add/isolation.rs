//! A donor is looked at, and nothing else is done to it.
use crate::add::clean::{lineage_at, plan_at, PlanView};
use crate::add::inherited::{ancestry_at, place_at, PlaceView};
use crate::add::laws::{
    group_preflight, lemma_quietly, lemma_still, placed, quiet, quiet_backend, quiet_donor_links,
    quiet_entry, quiet_lineage, quiet_start, quiet_verify_unchanged, quietly,
};
use crate::add::preflight::{common_at, foreign_donor_at};
use crate::cli::AddView;
use crate::error::ErrorView;
use crate::fsclone::clone_file_at;
use crate::host::{canonicalize_at, entry_names_at, Event};
use crate::inherit::{
    copy_contents_at, copy_from, copy_item_at, copy_items_at, donor_links_at, entry_at,
    finalize_directories_at, finalize_from, fresh_report, materialize_at, preserve_from_at,
    verify_unchanged_at, ItemView, ProgressView, SnapshotView,
};
use crate::path::{joined, steps};
use crate::text::begins;
use vstd::prelude::*;

verus! {

// ---------------------------------------------------------------------------
// Places
// ---------------------------------------------------------------------------

/// `path` is the place below `root` of one of `items`.
pub open spec fn item_place(path: Seq<u8>, root: Seq<u8>, items: Seq<ItemView>) -> bool {
    exists|k: int| 0 <= k < items.len() && path == joined(root, (#[trigger] items[k]).path)
}

/// What the event makes or changes is at the places below `root` of `items`. A
/// new name is that of a file at such a place.
pub open spec fn fills(event: Event, root: Seq<u8>, items: Seq<ItemView>) -> bool {
    match event {
        Event::CreateDirectory(path, _) => item_place(path, root, items),
        Event::CloneInto(_, path, _) => item_place(path, root, items),
        Event::CopyNew(_, path, _) => item_place(path, root, items),
        Event::RemoveFile(path, _) => item_place(path, root, items),
        Event::HardLink(first, path, _) => item_place(first, root, items) && item_place(
            path,
            root,
            items,
        ),
        Event::Symlink(_, path, _) => item_place(path, root, items),
        Event::SetMode(path, _, _) => item_place(path, root, items),
        Event::SetTimes(path, _, _, _) => item_place(path, root, items),
        _ => false,
    }
}

/// Between the positions `i` and `j` of a log nothing was made or changed but
/// at the places below `root` of `items`.
pub open spec fn filled(
    l: Seq<Event>,
    i: int,
    j: int,
    root: Seq<u8>,
    items: Seq<ItemView>,
) -> bool {
    j == -1 || (0 <= i <= j <= l.len() && forall|k: int|
        i <= k < j ==> quiet(#[trigger] l[k]) || fills(l[k], root, items))
}

/// Neither of two places lies in the other.
pub open spec fn apart(a: Seq<u8>, b: Seq<u8>) -> bool {
    !begins(steps(a), steps(b)) && !begins(steps(b), steps(a))
}

/// Every first name of a copied file is at the place of an item.
spec fn firsts_placed(state: ProgressView, root: Seq<u8>, items: Seq<ItemView>) -> bool {
    forall|key: u128| #[trigger]
        state.firsts.contains_key(key) ==> item_place(state.firsts[key], root, items)
}

proof fn lemma_quietly_filled(
    l: Seq<Event>,
    i: int,
    j: int,
    root: Seq<u8>,
    items: Seq<ItemView>,
)
    requires
        quietly(l, i, j),
    ensures
        filled(l, i, j, root, items),
        placed(l, j),
{
    lemma_quietly(l, i, j);
}

proof fn lemma_contents_filled(
    l: Seq<Event>,
    i: int,
    item: ItemView,
    source: Seq<u8>,
    target: Seq<u8>,
    allow_copy: bool,
    state: ProgressView,
    root: Seq<u8>,
    items: Seq<ItemView>,
)
    requires
        placed(l, i),
        item_place(target, root, items),
        firsts_placed(state, root, items),
    ensures
        ({
            let (r, j) = copy_contents_at(l, i, item, source, target, allow_copy, state);
            &&& filled(l, i, j, root, items)
            &&& placed(l, j)
            &&& r matches Ok(next) ==> firsts_placed(next, root, items)
        }),
{
    reveal(copy_contents_at);
    let j = clone_file_at(l, i, source, target).1;
    assert(filled(l, i, j, root, items));
}

proof fn lemma_preserved_filled(
    l: Seq<Event>,
    i: int,
    source: Seq<u8>,
    target: Seq<u8>,
    link: bool,
    root: Seq<u8>,
    items: Seq<ItemView>,
)
    requires
        placed(l, i),
        item_place(target, root, items),
    ensures
        filled(l, i, preserve_from_at(l, i, source, target, link).1, root, items),
        placed(l, preserve_from_at(l, i, source, target, link).1),
{
}

proof fn lemma_item_filled(
    l: Seq<Event>,
    i: int,
    items: Seq<ItemView>,
    k: int,
    root: Seq<u8>,
    donor: Seq<u8>,
    links: Seq<Seq<u8>>,
    allow_copy: bool,
    state: ProgressView,
)
    requires
        placed(l, i),
        0 <= k < items.len(),
        firsts_placed(state, root, items),
    ensures
        ({
            let (r, j) = copy_item_at(l, i, items[k], root, donor, links, allow_copy, state);
            &&& filled(l, i, j, root, items)
            &&& placed(l, j)
            &&& r matches Ok(next) ==> firsts_placed(next, root, items)
        }),
{
    reveal(copy_item_at);
    let item = items[k];
    let source = joined(donor, item.path);
    let target = joined(root, item.path);
    assert(item_place(target, root, items));
    quiet_entry(l, i, source);
    let a = entry_at(l, i, source).1;
    lemma_quietly_filled(l, i, a, root, items);
    lemma_contents_filled(l, a, item, source, target, allow_copy, state, root, items);
    let b = copy_contents_at(l, a, item, source, target, allow_copy, state).1;
    lemma_preserved_filled(l, b, source, target, false, root, items);
    let c = crate::host::symlink_at(
        l,
        a,
        crate::inherit::link_text(item.entry.target),
        target,
    ).1;
    lemma_preserved_filled(l, c, source, target, true, root, items);
}

proof fn lemma_items_filled(
    l: Seq<Event>,
    i: int,
    before: SnapshotView,
    k: nat,
    root: Seq<u8>,
    links: Seq<Seq<u8>>,
    allow_copy: bool,
    state: ProgressView,
)
    requires
        placed(l, i),
        firsts_placed(state, root, before.items),
    ensures
        filled(
            l,
            i,
            copy_from(l, i, before, k, root, links, allow_copy, state).1,
            root,
            before.items,
        ),
        placed(l, copy_from(l, i, before, k, root, links, allow_copy, state).1),
    decreases before.items.len() - k,
{
    if k < before.items.len() {
        lemma_item_filled(
            l,
            i,
            before.items,
            k as int,
            root,
            before.donor,
            links,
            allow_copy,
            state,
        );
        let (r, j) = copy_item_at(
            l,
            i,
            before.items[k as int],
            root,
            before.donor,
            links,
            allow_copy,
            state,
        );
        if let Ok(next) = r {
            lemma_items_filled(l, j, before, k + 1, root, links, allow_copy, next);
        }
    }
}

/// What [`law_donor_is_left_alone`] states, also of a position that is lost.
pub proof fn lemma_materialized(
    l: Seq<Event>,
    i: int,
    before: SnapshotView,
    destination: Seq<u8>,
    links: Seq<Seq<u8>>,
    allow_copy: bool,
    allow_donor_links: bool,
    linux: bool,
)
    requires
        placed(l, i),
    ensures
        ({
            let j = materialize_at(
                l,
                i,
                before,
                destination,
                links,
                allow_copy,
                allow_donor_links,
                linux,
            ).1;
            ||| filled(l, i, j, destination, Seq::empty())
            ||| exists|root: Seq<u8>|
                apart(root, before.donor) && #[trigger] filled(l, i, j, root, before.items)
        }),
{
    reveal(materialize_at);
    let (found, a) = canonicalize_at(l, i, destination);
    if let Ok(root) = found {
        let b = entry_names_at(l, a, root).1;
        let state = |into: Seq<Seq<u8>>|
            ProgressView { report: fresh_report(into), firsts: Map::empty() };
        let (into, c) = donor_links_at(
            l,
            b,
            before.items,
            root,
            before.donor,
            links,
            allow_donor_links,
        );
        quiet_donor_links(
            l,
            b,
            before.items,
            0,
            root,
            before.donor,
            links,
            allow_donor_links,
            Seq::empty(),
        );
        lemma_quietly_filled(l, b, c, root, before.items);
        let start = state(into->Ok_0);
        lemma_items_filled(l, c, before, 0, root, links, allow_copy, start);
        let d = copy_items_at(l, c, before, root, links, allow_copy, start).1;
        quiet_verify_unchanged(l, d, before);
        let e = verify_unchanged_at(l, d, before).1;
        lemma_quietly_filled(l, d, e, root, before.items);
        if apart(root, before.donor) {
            assert(filled(
                l,
                i,
                materialize_at(
                    l,
                    i,
                    before,
                    destination,
                    links,
                    allow_copy,
                    allow_donor_links,
                    linux,
                ).1,
                root,
                before.items,
            ));
        }
    }
}

// ---------------------------------------------------------------------------
// Laws
// ---------------------------------------------------------------------------

/// Filling a worktree with a donor's files changes nothing of the donor: what
/// is made or changed is at the places of the donor's items below a directory
/// that lies apart from the donor, and a file that gets another name is one of
/// those. Where no such directory is found nothing is made or changed.
pub proof fn law_donor_is_left_alone(
    l: Seq<Event>,
    i: int,
    before: SnapshotView,
    destination: Seq<u8>,
    links: Seq<Seq<u8>>,
    allow_copy: bool,
    allow_donor_links: bool,
    linux: bool,
)
    requires
        0 <= i <= l.len(),
    ensures
        ({
            let j = materialize_at(
                l,
                i,
                before,
                destination,
                links,
                allow_copy,
                allow_donor_links,
                linux,
            ).1;
            ||| filled(l, i, j, destination, Seq::empty())
            ||| exists|root: Seq<u8>|
                apart(root, before.donor) && #[trigger] filled(l, i, j, root, before.items)
        }),
{
    lemma_materialized(
        l,
        i,
        before,
        destination,
        links,
        allow_copy,
        allow_donor_links,
        linux,
    );
}

pub proof fn lemma_finished(
    l: Seq<Event>,
    i: int,
    before: SnapshotView,
    k: nat,
    destination: Seq<u8>,
    links: Seq<Seq<u8>>,
)
    requires
        placed(l, i),
        k <= before.items.len(),
    ensures
        filled(
            l,
            i,
            finalize_from(l, i, before, k, destination, links).1,
            destination,
            before.items,
        ),
    decreases k,
{
    if k > 0 {
        let item = before.items[k - 1];
        let source = joined(before.donor, item.path);
        let target = joined(destination, item.path);
        assert(item_place(target, destination, before.items));
        lemma_preserved_filled(l, i, source, target, false, destination, before.items);
        let j = preserve_from_at(l, i, source, target, false).1;
        lemma_finished(l, j, before, (k - 1) as nat, destination, links);
        lemma_finished(l, i, before, (k - 1) as nat, destination, links);
    }
}

/// Finishing the directories of a worktree changes nothing of the donor.
pub proof fn law_finishing_leaves_the_donor_alone(
    l: Seq<Event>,
    i: int,
    before: SnapshotView,
    destination: Seq<u8>,
    links: Seq<Seq<u8>>,
)
    requires
        0 <= i <= l.len(),
    ensures
        filled(
            l,
            i,
            finalize_directories_at(l, i, before, destination, links).1,
            destination,
            before.items,
        ),
{
    lemma_finished(l, i, before, before.items.len(), destination, links);
}

/// The donor shares the repository of the directory that the program was
/// started in: both were asked for it, and the two answers are one place.
pub open spec fn shares_repository(
    l: Seq<Event>,
    a: int,
    b: int,
    cwd: Seq<u8>,
    donor: Seq<u8>,
    common: Seq<u8>,
    json: bool,
) -> bool {
    &&& common_at(l, a, cwd, json) == (Ok::<Seq<u8>, ErrorView>(common), b)
    &&& foreign_donor_at(l, b, donor, common, json).0 is None
}

/// A clean worktree has clones only of files of its own repository.
pub proof fn law_clean_donor_is_no_stranger(
    l: Seq<Event>,
    i: int,
    args: AddView,
    cwd: Seq<u8>,
    root: Option<Seq<u8>>,
    plan: PlanView,
    j: int,
)
    requires
        0 <= i <= l.len(),
        plan_at(l, i, args, cwd, root) == (Ok::<PlanView, ErrorView>(plan), j),
        j != -1,
    ensures
        plan.donor matches Some(donor) ==> exists|a: int, b: int, common: Seq<u8>|
            i <= a <= b <= j && #[trigger] shares_repository(
                l,
                a,
                b,
                cwd,
                donor,
                common,
                args.json,
            ),
{
    broadcast use group_preflight;

    reveal(plan_at);
    reveal(lineage_at);
    lemma_still(l, i);
    if let Some(donor) = plan.donor {
        let (found, a) = crate::add::preflight::donor_at(
            l,
            i,
            args.from,
            root,
            "a bare repository cannot be a donor"@,
            args.json,
        );
        let (common, b) = common_at(l, a, cwd, args.json);
        lemma_quietly(l, i, a);
        lemma_quietly(l, a, b);
        quiet_lineage(l, i, args, cwd, root);
        assert(quietly(l, b, j)) by {
            broadcast use quiet_backend;

        }
        lemma_quietly(l, b, j);
        assert(shares_repository(l, a, b, cwd, donor, common->Ok_0, args.json));
    }
}

/// A worktree inherits only from one of its own repository.
pub proof fn law_inherited_donor_is_no_stranger(
    l: Seq<Event>,
    i: int,
    args: AddView,
    place: PlaceView,
    j: int,
)
    requires
        0 <= i <= l.len(),
        place_at(l, i, args) == (Ok::<PlaceView, ErrorView>(place), j),
        j != -1,
    ensures
        exists|a: int, b: int, common: Seq<u8>|
            i <= a <= b <= j && #[trigger] shares_repository(
                l,
                a,
                b,
                place.cwd,
                place.donor,
                common,
                args.json,
            ),
{
    broadcast use {group_preflight, quiet_start};

    reveal(place_at);
    reveal(ancestry_at);
    lemma_still(l, i);
    let (begun, m) = crate::add::clean::start_at(l, i, args.json);
    let root = begun->Ok_0.1;
    let (found, a) = crate::add::preflight::donor_at(
        l,
        m,
        args.from,
        root,
        "a bare repository cannot be an inheritance donor"@,
        args.json,
    );
    let (common, b) = common_at(l, a, place.cwd, args.json);
    lemma_quietly(l, i, a);
    lemma_quietly(l, a, b);
    assert(quietly(l, b, j));
    lemma_quietly(l, b, j);
    assert(shares_repository(l, a, b, place.cwd, place.donor, common->Ok_0, args.json));
}

} // verus!
