//! Until the hook runs, a failure takes back what was made.
use crate::add::branch::{prepare_branch_at, PreparedView};
use crate::add::clean::{carry_out_at, fill_at, moved_at, PlanView};
use crate::add::inherited::{
    differs_at, donor_changed_at, inherit_carry_out_at, inherit_files_at, inherit_into_at,
    settle_in_at, target_links_at, InheritView,
};
use crate::add::links::{collect_from, collect_links_at, LinkView};
use crate::add::materialize::{
    clone_candidates_at, materialize_clean_files_at, proven_at, sort_entry_at, sort_from, Filled,
    Heaps,
};
use crate::add::preflight::{opened, register_at, registered};
use crate::add::report::AddedView;
use crate::add::transaction::{check_cancelled_at, fail_at, TransactionView};
use crate::add::unborn::{unborn_carry_out_at, unborn_check_at, unborn_transaction, UnbornView};
use crate::cli::AddView;
use crate::error::ErrorView;
use crate::fsclone::Backend;
use crate::git::EntryView;
use crate::host::Event;
use vstd::prelude::*;

verus! {

/// The failure came with taking back what `t` says was made.
pub open spec fn taken_back(l: Seq<Event>, t: TransactionView, error: ErrorView, j: int) -> bool {
    exists|m: int, cause: ErrorView| #[trigger] fail_at(l, m, cause, t) == (error, j)
}

proof fn lemma_sorting(
    l: Seq<Event>,
    i: int,
    entries: Seq<EntryView>,
    k: nat,
    donor: Seq<u8>,
    destination: Seq<u8>,
    json: bool,
    t: TransactionView,
    heaps: Heaps,
)
    ensures
        sort_from(l, i, entries, k, donor, destination, json, t, heaps) matches (
            Err(error),
            j,
        ) ==> taken_back(l, t, error, j),
    decreases entries.len() - k,
{
    if k < entries.len() {
        let (stop, a) = check_cancelled_at(l, i, json, t);
        if stop is None {
            let (next, b) = sort_entry_at(l, a, entries[k as int], donor, destination, heaps);
            lemma_sorting(l, b, entries, k + 1, donor, destination, json, t, next);
        }
    }
}

proof fn lemma_filling(
    l: Seq<Event>,
    i: int,
    plan: PlanView,
    target: Seq<char>,
    json: bool,
    t: TransactionView,
)
    ensures
        fill_at(l, i, plan, target, json, t) matches (Err(error), j) ==> taken_back(
            l,
            t,
            error,
            j,
        ),
{
    reveal(fill_at);
    assert forall|a: int, entries: Seq<EntryView>, error: ErrorView, j: int| (
    #[trigger] materialize_clean_files_at(
        l,
        a,
        entries,
        plan.donor,
        plan.destination,
        plan.backend,
        json,
        t,
    )) == (Err::<Filled, ErrorView>(error), j) implies #[trigger] taken_back(l, t, error, j) by {
        lemma_cloning(
            l,
            a,
            entries,
            plan.donor,
            plan.destination,
            plan.backend,
            json,
            t,
        );
    }
}

proof fn lemma_cloning(
    l: Seq<Event>,
    i: int,
    entries: Seq<EntryView>,
    donor: Option<Seq<u8>>,
    destination: Seq<u8>,
    backend: Option<Backend>,
    json: bool,
    t: TransactionView,
)
    ensures
        materialize_clean_files_at(l, i, entries, donor, destination, backend, json, t) matches (
            Err(error),
            j,
        ) ==> taken_back(l, t, error, j),
{
    reveal(materialize_clean_files_at);
    reveal(proven_at);
    reveal(clone_candidates_at);
    if donor is Some && backend is Some {
        lemma_sorting(
            l,
            i,
            entries,
            0,
            donor->0,
            destination,
            json,
            t,
            Heaps { git_paths: Seq::empty(), candidates: Seq::empty() },
        );
    }
}

proof fn lemma_collecting(
    l: Seq<Event>,
    i: int,
    entries: Seq<EntryView>,
    k: nat,
    destination: Seq<u8>,
    json: bool,
    t: TransactionView,
    links: Seq<LinkView>,
)
    ensures
        collect_from(l, i, entries, k, destination, json, t, links) matches (
            Err(error),
            j,
        ) ==> taken_back(l, t, error, j),
    decreases entries.len() - k,
{
    if k < entries.len() {
        let entry = entries[k as int];
        lemma_collecting(l, i, entries, k + 1, destination, json, t, links);
        let (data, a) = crate::git::blob_at(l, i, destination, entry.oid);
        if data is Ok {
            let more = crate::add::links::linked(
                links,
                LinkView { path: entry.path, data: data->Ok_0 },
            );
            lemma_collecting(l, a, entries, k + 1, destination, json, t, more);
        }
    }
}

proof fn lemma_inheriting(
    l: Seq<Event>,
    i: int,
    plan: InheritView,
    target: Seq<char>,
    args: AddView,
    t: TransactionView,
)
    ensures
        inherit_into_at(l, i, plan, target, args, t) matches (Err(error), j) ==> taken_back(
            l,
            t,
            error,
            j,
        ),
{
    reveal(inherit_into_at);
    reveal(target_links_at);
    reveal(inherit_files_at);
    reveal(settle_in_at);
    reveal(donor_changed_at);
    reveal(differs_at);
    assert forall|a: int, entries: Seq<EntryView>, error: ErrorView, j: int| (
    #[trigger] collect_links_at(l, a, entries, plan.place.destination, args.json, t)) == (
        Err::<Seq<LinkView>, ErrorView>(error),
        j,
    ) implies #[trigger] taken_back(l, t, error, j) by {
        lemma_collecting(
            l,
            a,
            entries,
            0,
            plan.place.destination,
            args.json,
            t,
            Seq::empty(),
        );
    }
}

/// A clean worktree that fails is one of three things: its branch could not be
/// settled on, and no worktree was registered; or what was made is taken back;
/// or the hook failed, and the worktree stays.
pub proof fn law_failed_clean_worktree_is_taken_back(
    l: Seq<Event>,
    i: int,
    args: AddView,
    cwd: Seq<u8>,
    plan: PlanView,
    error: ErrorView,
    j: int,
)
    requires
        carry_out_at(l, i, args, cwd, plan) == (Err::<AddedView, ErrorView>(error), j),
    ensures
        ({
            let (prepared, m) = prepare_branch_at(l, i, cwd, plan.destination, args);
            let t = opened(cwd, plan.destination, plan.existed_empty, prepared->Ok_0);
            ||| prepared == Err::<PreparedView, ErrorView>(error) && j == m
            ||| prepared is Ok && taken_back(l, t, error, j)
            ||| prepared is Ok && taken_back(l, registered(t), error, j)
            ||| error.code == "post_checkout_failed"@ && error.worktree_created == Some(true)
        }),
{
    reveal(carry_out_at);
    reveal(register_at);
    let (prepared, m) = prepare_branch_at(l, i, cwd, plan.destination, args);
    if prepared is Ok {
        let prepared = prepared->Ok_0;
        let t = opened(cwd, plan.destination, plan.existed_empty, prepared);
        let (target, a) = register_at(l, m, args, prepared, t);
        if target is Ok {
            let target = target->Ok_0;
            let (moved, b) = moved_at(
                l,
                a,
                prepared.expected_target,
                target,
                args.json,
                registered(t),
            );
            if moved is None {
                lemma_filling(l, b, plan, target, args.json, registered(t));
            }
        }
    }
}

/// An inheriting worktree that fails is one of three things: its branch could
/// not be settled on, and no worktree was registered; or what was made is taken
/// back; or the hook failed, and the worktree stays.
pub proof fn law_failed_inheritance_is_taken_back(
    l: Seq<Event>,
    i: int,
    args: AddView,
    plan: InheritView,
    error: ErrorView,
    j: int,
)
    requires
        inherit_carry_out_at(l, i, args, plan) == (Err::<AddedView, ErrorView>(error), j),
    ensures
        ({
            let place = plan.place;
            let (prepared, m) = prepare_branch_at(l, i, place.cwd, place.destination, args);
            let (existed_empty, _) = crate::host::is_directory_at(l, m, place.destination);
            let t = opened(place.cwd, place.destination, existed_empty, prepared->Ok_0);
            ||| prepared == Err::<PreparedView, ErrorView>(error) && j == m
            ||| prepared is Ok && taken_back(l, t, error, j)
            ||| prepared is Ok && taken_back(l, registered(t), error, j)
            ||| error.code == "post_checkout_failed"@ && error.worktree_created == Some(true)
        }),
{
    reveal(inherit_carry_out_at);
    reveal(register_at);
    let place = plan.place;
    let (prepared, m) = prepare_branch_at(l, i, place.cwd, place.destination, args);
    if prepared is Ok {
        let prepared = prepared->Ok_0;
        let (existed_empty, n) = crate::host::is_directory_at(l, m, place.destination);
        let t = opened(place.cwd, place.destination, existed_empty, prepared);
        let (target, a) = register_at(l, n, args, prepared, t);
        if target is Ok {
            lemma_inheriting(l, a, plan, target->Ok_0, args, registered(t));
        }
    }
}

/// An unborn worktree that fails after Git has made it is taken back.
pub proof fn law_failed_unborn_worktree_is_taken_back(
    l: Seq<Event>,
    i: int,
    args: AddView,
    cwd: Seq<u8>,
    plan: UnbornView,
    error: ErrorView,
    j: int,
)
    requires
        unborn_carry_out_at(l, i, args, cwd, plan) == (Err::<AddedView, ErrorView>(error), j),
    ensures
        error.code == "worktree_add_failed"@ || taken_back(
            l,
            unborn_transaction(cwd, plan),
            error,
            j,
        ),
{
    reveal(unborn_carry_out_at);
    reveal(unborn_check_at);
}

} // verus!
