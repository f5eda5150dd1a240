//! What an inheriting run does, and in which order.
use crate::add::branch::{branch_oid_at, intended_target_at, prepare_branch_at, target_at};
use crate::add::inherited::{
    differs_at, donor_changed_at, donor_state_at, inherit_carry_out_at, inherit_files_at,
    inherit_backend_at, inherit_into_at, inherit_plan_at, pinned_at, place_at, reread_at,
    run_inherit_at, settle_in_at, target_links_at, unsupported_at, DonorView, InheritView,
    PlaceView,
};
use crate::add::isolation::{lemma_finished, lemma_materialized};
use crate::add::laws::{
    group_preflight, group_questions, lemma_quietly, lemma_still, placed, quiet_branch_oid,
    quiet_donor_state, quiet_inherit_backend, quiet_place, quiet_snapshot, quiet_target,
    quiet_unsupported, quiet_verify_unchanged, quietly,
};
use crate::add::links::{
    ancestors_at, ancestors_from, collect_from, collect_links_at, enter_at, enter_from,
    link_parent, linked, make_from, make_link_at, materialize_target_symlinks_at, validate_from,
    LinkView, LINK_ENTRY,
};
use crate::add::preflight::{opened, register_at, registered};
use crate::add::report::{post_checkout_at, AddedView};
use crate::add::transaction::TransactionView;
use crate::cli::AddView;
use crate::error::ErrorView;
use crate::git::{
    disable_index_caches_at, git_path_at, head_oid_at, install_index_at, logical_index_at,
    read_target_index_at, readonly_status_at, symbolic_head_at, EntryView, GitFailureView,
};
use crate::host::{is_directory_at, on_linux_at, Event};
use crate::inherit::{same_items, snapshot_at, verify_unchanged_at};
use crate::path::{joined, steps, Step};
use vstd::prelude::*;

verus! {

// ---------------------------------------------------------------------------
// Positions
// ---------------------------------------------------------------------------

/// `j` is a position of the log that does not lie before `i`, or lost.
pub open spec fn onward(l: Seq<Event>, i: int, j: int) -> bool {
    j == -1 || 0 <= i <= j <= l.len()
}

proof fn lemma_quiet_onward(l: Seq<Event>, i: int, j: int)
    requires
        quietly(l, i, j),
    ensures
        onward(l, i, j),
{
    lemma_quietly(l, i, j);
}

pub proof fn lemma_prepared_onward(
    l: Seq<Event>,
    i: int,
    cwd: Seq<u8>,
    destination: Seq<u8>,
    args: AddView,
)
    requires
        placed(l, i),
    ensures
        onward(l, i, prepare_branch_at(l, i, cwd, destination, args).1),
{
    reveal(prepare_branch_at);
    quiet_target(l, i, cwd, args);
    lemma_quiet_onward(l, i, target_at(l, i, cwd, args).1);
    assert forall|branch: Seq<char>|
        onward(l, i, (#[trigger] branch_oid_at(l, i, cwd, branch, args.json)).1) && onward(
            l,
            i,
            target_at(l, branch_oid_at(l, i, cwd, branch, args.json).1, cwd, args).1,
        ) by {
        quiet_branch_oid(l, i, cwd, branch, args.json);
        let j = branch_oid_at(l, i, cwd, branch, args.json).1;
        lemma_quiet_onward(l, i, j);
        quiet_target(l, j, cwd, args);
        lemma_quiet_onward(l, j, target_at(l, j, cwd, args).1);
    }
}

pub proof fn lemma_registered_onward(
    l: Seq<Event>,
    i: int,
    args: AddView,
    prepared: crate::add::branch::PreparedView,
    t: TransactionView,
)
    ensures
        register_at(l, i, args, prepared, t) matches (Ok(_), j) ==> onward(l, i, j),
{
    broadcast use group_questions;

    reveal(register_at);
    let (_, a) = crate::add::branch::native_add_at(
        l,
        i,
        t.repository,
        t.destination,
        args,
        prepared.checkout_ref,
    );
    let (_, b) = crate::host::cancelled_at(l, a);
    let (_, c) = head_oid_at(l, b, t.destination);
    assert(placed(l, b));
    lemma_quiet_onward(l, b, c);
}

proof fn lemma_collected_onward(
    l: Seq<Event>,
    i: int,
    entries: Seq<EntryView>,
    k: nat,
    destination: Seq<u8>,
    json: bool,
    t: TransactionView,
    links: Seq<LinkView>,
)
    requires
        placed(l, i),
    ensures
        collect_from(l, i, entries, k, destination, json, t, links) matches (Ok(_), j) ==> onward(
            l,
            i,
            j,
        ),
    decreases entries.len() - k,
{
    if k < entries.len() {
        let entry = entries[k as int];
        if !(entry.stage == 0 && entry.mode == LINK_ENTRY) {
            lemma_collected_onward(l, i, entries, k + 1, destination, json, t, links);
        } else {
            let (data, j) = crate::git::blob_at(l, i, destination, entry.oid);
            if let Ok(data) = data {
                let more = linked(links, LinkView { path: entry.path, data });
                lemma_collected_onward(l, j, entries, k + 1, destination, json, t, more);
            }
        }
    }
}

proof fn lemma_ancestors_onward(
    l: Seq<Event>,
    i: int,
    donor: Seq<u8>,
    path: Seq<u8>,
    way: Seq<Step>,
    k: nat,
    ancestor: Seq<u8>,
)
    requires
        placed(l, i),
    ensures
        onward(l, i, ancestors_from(l, i, donor, path, way, k, ancestor).1),
    decreases way.len() - k,
{
    if k < way.len() {
        if let Step::Normal(name) = way[k as int] {
            let next = joined(ancestor, name);
            let j = crate::host::metadata_at(l, i, joined(donor, next)).1;
            lemma_ancestors_onward(l, j, donor, path, way, k + 1, next);
        }
    }
}

pub proof fn lemma_validated_onward(
    l: Seq<Event>,
    i: int,
    donor: Seq<u8>,
    links: Seq<LinkView>,
    k: nat,
)
    requires
        placed(l, i),
    ensures
        onward(l, i, validate_from(l, i, donor, links, k).1),
    decreases links.len() - k,
{
    if k < links.len() {
        let path = links[k as int].path;
        lemma_ancestors_onward(l, i, donor, path, steps(link_parent(path)), 0, Seq::empty());
        let j = ancestors_at(l, i, donor, path).1;
        lemma_validated_onward(l, j, donor, links, k + 1);
    }
}

pub proof fn lemma_links_onward(
    l: Seq<Event>,
    i: int,
    plan: InheritView,
    target: Seq<char>,
    json: bool,
    t: TransactionView,
)
    requires
        placed(l, i),
    ensures
        target_links_at(l, i, plan, target, json, t) matches (Ok(_), j) ==> onward(l, i, j),
{
    reveal(target_links_at);
    let (entries, a) = read_target_index_at(l, i, plan.place.destination, target);
    if let Ok(entries) = entries {
        lemma_collected_onward(
            l,
            a,
            entries,
            0,
            plan.place.destination,
            json,
            t,
            Seq::empty(),
        );
        let (links, b) = collect_links_at(l, a, entries, plan.place.destination, json, t);
        if let Ok(links) = links {
            lemma_validated_onward(l, b, plan.place.donor, links, 0);
        }
    }
}

pub proof fn lemma_files_onward(
    l: Seq<Event>,
    i: int,
    plan: InheritView,
    links: Seq<LinkView>,
    args: AddView,
    t: TransactionView,
)
    ensures
        inherit_files_at(l, i, plan, links, args, t) matches (Ok(_), j) ==> onward(l, i, j),
{
    reveal(inherit_files_at);
    let (linux, a) = on_linux_at(l, i);
    let paths = crate::add::links::link_paths(links);
    lemma_materialized(
        l,
        a,
        plan.record,
        plan.place.destination,
        paths,
        args.allow_copy,
        args.allow_donor_links,
        linux,
    );
}

pub proof fn lemma_entered_onward(l: Seq<Event>, i: int, path: Seq<u8>, way: Seq<Step>, k: nat)
    requires
        placed(l, i),
    ensures
        onward(l, i, enter_from(l, i, path, way, k).1),
    decreases way.len() - k,
{
    if k < way.len() {
        if let Step::Normal(name) = way[k as int] {
            let j = enter_at(l, i, name).1;
            assert(onward(l, i, j));
            lemma_entered_onward(l, j, path, way, k + 1);
        }
    }
}

pub proof fn lemma_made_onward(
    l: Seq<Event>,
    i: int,
    destination: Seq<u8>,
    links: Seq<LinkView>,
    k: nat,
)
    requires
        placed(l, i),
    ensures
        onward(l, i, make_from(l, i, destination, links, k).1),
    decreases links.len() - k,
{
    if k < links.len() {
        let link = links[k as int];
        let a = crate::host::open_base_at(l, i, destination).1;
        lemma_entered_onward(l, a, link.path, steps(link_parent(link.path)), 0);
        let j = make_link_at(l, i, destination, link).1;
        assert(onward(l, i, j));
        lemma_made_onward(l, j, destination, links, k + 1);
    }
}

pub proof fn lemma_settled_in_onward(
    l: Seq<Event>,
    i: int,
    plan: InheritView,
    links: Seq<LinkView>,
    json: bool,
    t: TransactionView,
)
    requires
        placed(l, i),
    ensures
        settle_in_at(l, i, plan, links, json, t) matches (None, j) ==> onward(l, i, j),
{
    broadcast use group_questions;

    reveal(settle_in_at);
    reveal(install_index_at);
    let destination = plan.place.destination;
    let (index, a) = git_path_at(l, i, destination, "index"@);
    lemma_quiet_onward(l, i, a);
    if let Ok(index) = index {
        let (_, b) = install_index_at(l, a, plan.state.index, index);
        assert(onward(l, a, b));
        let (_, c) = disable_index_caches_at(l, b, destination);
        assert(onward(l, b, c));
        lemma_made_onward(l, c, destination, links, 0);
        let (_, d) = materialize_target_symlinks_at(l, c, destination, links);
        let paths = crate::add::links::link_paths(links);
        lemma_finished(l, d, plan.record, plan.record.items.len(), destination, paths);
    }
}

// ---------------------------------------------------------------------------
// Laws
// ---------------------------------------------------------------------------

/// Where the donor's state was read, the target was found to be its commit.
proof fn lemma_pinned(
    l: Seq<Event>,
    i: int,
    args: AddView,
    place: PlaceView,
    state: DonorView,
) -> (a: int)
    requires
        0 <= i <= l.len(),
        donor_state_at(l, i, args, place).0 == Ok::<DonorView, ErrorView>(state),
        donor_state_at(l, i, args, place).1 != -1,
    ensures
        i <= a <= donor_state_at(l, i, args, place).1,
        intended_target_at(l, a, place.cwd, place.destination, args).0 == Ok::<
            Seq<char>,
            ErrorView,
        >(state.head),
{
    broadcast use group_preflight;

    reveal(donor_state_at);
    reveal(pinned_at);
    lemma_still(l, i);
    let (_, b) = head_oid_at(l, i, place.donor);
    let (_, a) = symbolic_head_at(l, b, place.donor);
    lemma_quietly(l, i, a);
    let j = donor_state_at(l, i, args, place).1;
    assert(quietly(l, a, j));
    lemma_quietly(l, a, j);
    a
}

/// Only the donor's own commit is inherited: before anything was made the
/// worktree was meant for it, and it is what is checked out in the end.
pub proof fn law_only_the_donors_commit_is_inherited(
    l: Seq<Event>,
    i: int,
    args: AddView,
    added: AddedView,
    j: int,
)
    requires
        0 <= i <= l.len(),
        run_inherit_at(l, i, args) == (Ok::<AddedView, ErrorView>(added), j),
        inherit_plan_at(l, i, args).1 != -1,
    ensures
        ({
            let (plan, m) = inherit_plan_at(l, i, args);
            let plan = plan->Ok_0;
            &&& inherit_plan_at(l, i, args).0 is Ok
            &&& exists|a: int|
                i <= a <= m && (#[trigger] intended_target_at(
                    l,
                    a,
                    plan.place.cwd,
                    plan.place.destination,
                    args,
                )).0 == Ok::<Seq<char>, ErrorView>(plan.state.head)
            &&& added.head == Some(plan.state.head)
        }),
{
    broadcast use {
        quiet_place,
        quiet_unsupported,
        quiet_donor_state,
        quiet_snapshot,
        quiet_inherit_backend,
    };

    reveal(run_inherit_at);
    reveal(inherit_carry_out_at);
    reveal(inherit_plan_at);
    let (plan, m) = inherit_plan_at(l, i, args);
    let plan = plan->Ok_0;
    let (place, b) = place_at(l, i, args);
    let (_, c) = unsupported_at(l, b, plan.place.donor, args.json);
    let (state, d) = donor_state_at(l, c, args, plan.place);
    let (record, e) = snapshot_at(l, d, plan.place.donor);
    let (_, f) = inherit_backend_at(l, e, plan.place.destination, args.allow_copy, args.json);
    assert(f == m);
    lemma_quietly(l, i, b);
    lemma_quietly(l, b, c);
    lemma_quietly(l, c, d);
    lemma_quietly(l, d, e);
    lemma_quietly(l, e, f);
    let a = lemma_pinned(l, c, args, plan.place, plan.state);
    assert(i <= a <= m);
}

/// The files of the donor were copied, from position `q` of the log to `p`.
pub open spec fn files_copied(
    l: Seq<Event>,
    q: int,
    p: int,
    plan: InheritView,
    links: Seq<LinkView>,
    args: AddView,
    t: TransactionView,
) -> bool {
    inherit_files_at(l, q, plan, links, args, t).0 is Ok && inherit_files_at(
        l,
        q,
        plan,
        links,
        args,
        t,
    ).1 == p
}

/// The donor was seen again as it was recorded, its files from position `a` of
/// the log on and what Git says of it from `b` on; and Git said the same of
/// the new worktree, from `c` and from `d` on.
pub open spec fn seen_again(
    l: Seq<Event>,
    a: int,
    b: int,
    c: int,
    d: int,
    plan: InheritView,
    json: bool,
) -> bool {
    &&& snapshot_at(l, a, plan.record.donor).0 matches Ok(after) && same_items(
        plan.record.items,
        after.items,
    )
    &&& reread_at(l, b, plan.place.donor, plan.state.index_path, json).0 == Ok::<
        DonorView,
        ErrorView,
    >(plan.state)
    &&& logical_index_at(l, c, plan.place.destination).0 == Ok::<Seq<u8>, GitFailureView>(
        plan.state.logical,
    )
    &&& readonly_status_at(l, d, plan.place.destination).0 == Ok::<Seq<u8>, GitFailureView>(
        plan.state.status,
    )
}

/// An inherited worktree is made only where the donor did not change: once its
/// files were copied they were as they had been recorded, and Git saw the same
/// commit, branch, index and state; and Git saw the same index and state in the
/// new worktree. All of that came after the plan, in this order, and before the
/// run ended.
pub proof fn law_inherited_donor_did_not_change(
    l: Seq<Event>,
    i: int,
    args: AddView,
    added: AddedView,
    j: int,
)
    requires
        0 <= i <= l.len(),
        run_inherit_at(l, i, args) == (Ok::<AddedView, ErrorView>(added), j),
        j != -1,
    ensures
        ({
            let (plan, m) = inherit_plan_at(l, i, args);
            let plan = plan->Ok_0;
            &&& inherit_plan_at(l, i, args).0 is Ok
            &&& exists|
                q: int,
                p: int,
                a: int,
                b: int,
                c: int,
                d: int,
                links: Seq<LinkView>,
                t: TransactionView,
            |
                {
                    &&& i <= m <= q <= p <= a <= b <= c <= d <= j
                    &&& #[trigger] files_copied(l, q, p, plan, links, args, t)
                    &&& #[trigger] seen_again(l, a, b, c, d, plan, args.json)
                }
        }),
{
    reveal(run_inherit_at);
    reveal(inherit_carry_out_at);
    reveal(inherit_into_at);
    crate::add::laws::law_inheritance_settles_first(l, i, args);
    let (plan, m) = inherit_plan_at(l, i, args);
    let plan = plan->Ok_0;
    let place = plan.place;
    assert(onward(l, i, m));
    let (prepared, n) = prepare_branch_at(l, m, place.cwd, place.destination, args);
    lemma_prepared_onward(l, m, place.cwd, place.destination, args);
    let prepared = prepared->Ok_0;
    let (existed_empty, o) = is_directory_at(l, n, place.destination);
    let t = opened(place.cwd, place.destination, existed_empty, prepared);
    let (target, r) = register_at(l, o, args, prepared, t);
    lemma_registered_onward(l, o, args, prepared, t);
    let target = target->Ok_0;
    let t = registered(t);
    let (links, q) = target_links_at(l, r, plan, target, args.json, t);
    lemma_links_onward(l, r, plan, target, args.json, t);
    let links = links->Ok_0;
    let (report, p) = inherit_files_at(l, q, plan, links, args, t);
    lemma_files_onward(l, q, plan, links, args, t);
    let (wrong, a) = settle_in_at(l, p, plan, links, args.json, t);
    lemma_settled_in_onward(l, p, plan, links, args.json, t);
    let (changed, c) = donor_changed_at(l, a, plan, args.json, t);
    let (differs, e) = differs_at(l, c, plan, args.json, t);
    assert(wrong is None && changed is None && differs is None);
    lemma_seen_again(l, a, plan, args.json, t);
    let (same, b) = verify_unchanged_at(l, a, plan.record);
    let (logical, d) = logical_index_at(l, c, place.destination);
    let (hook, f) = post_checkout_at(l, e, place.destination, target, args.json);
    assert(f == j);
    assert(onward(l, e, f));
    assert(files_copied(l, q, p, plan, links, args, t));
    assert(seen_again(l, a, b, c, d, plan, args.json));
}

pub proof fn lemma_seen_again(
    l: Seq<Event>,
    a: int,
    plan: InheritView,
    json: bool,
    t: TransactionView,
)
    requires
        placed(l, a),
        donor_changed_at(l, a, plan, json, t).0 is None,
        differs_at(l, donor_changed_at(l, a, plan, json, t).1, plan, json, t).0 is None,
    ensures
        ({
            let b = verify_unchanged_at(l, a, plan.record).1;
            let c = donor_changed_at(l, a, plan, json, t).1;
            let d = logical_index_at(l, c, plan.place.destination).1;
            let e = differs_at(l, c, plan, json, t).1;
            &&& onward(l, a, b)
            &&& onward(l, b, c)
            &&& onward(l, c, d)
            &&& onward(l, d, e)
            &&& seen_again(l, a, b, c, d, plan, json)
        }),
{
    broadcast use {group_questions, quiet_verify_unchanged};

    reveal(donor_changed_at);
    reveal(differs_at);
    reveal(reread_at);
    lemma_still(l, a);
    let b = verify_unchanged_at(l, a, plan.record).1;
    lemma_quiet_onward(l, a, b);
    let c = donor_changed_at(l, a, plan, json, t).1;
    assert(quietly(l, b, c));
    lemma_quiet_onward(l, b, c);
    let d = logical_index_at(l, c, plan.place.destination).1;
    lemma_quiet_onward(l, c, d);
    let e = readonly_status_at(l, d, plan.place.destination).1;
    lemma_quiet_onward(l, d, e);
}

} // verus!
