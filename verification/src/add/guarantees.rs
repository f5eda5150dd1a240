//! What holds of every run that makes a worktree.
use crate::add::branch::{branch_oid_at, branch_ref, prepare_branch_at, target_at, PreparedView};
use crate::add::clean::{backend_at, carry_out_at, plan_at, run_clean_at};
use crate::add::laws::{lemma_reading_words, making};
use crate::add::report::{post_checkout_at, AddedView};
use crate::add::transaction::{
    drop_branch_at, remove_args, restore_empty_at, rollback_at, unregister_at, TransactionView,
};
use crate::add::unborn::{run_unborn_at, unborn_backend_at, unborn_carry_out_at, unborn_plan_at};
use crate::cli::AddView;
use crate::error::{ErrorView, HookView};
use crate::fsclone::{clone_job_at, Backend};
use crate::git::{branch_checked_out_at, create_ref_at, plain_call, GitFailureView};
use crate::host::{CallView, Event, JobView, OutcomeView};
use crate::inherit::{
    copy_contents_at, copy_from, copy_item_at, copy_items_at, donor_links_at, donor_links_from,
    file_key, materialize_at, under_target, ItemView, ProgressView, ReportView, SnapshotView,
};
use crate::host::REGULAR;
use crate::text::utf8;
use vstd::prelude::*;

verus! {

// ---------------------------------------------------------------------------
// Taking back
// ---------------------------------------------------------------------------

/// The run of Git that takes the worktree of `t` away.
pub open spec fn unregistering(t: TransactionView) -> CallView {
    plain_call(t.repository, remove_args(t.destination))
}

/// The run of Git that deletes the branch of `t`, as long as it is at the
/// commit that it was made at.
pub open spec fn unbranching(t: TransactionView) -> CallView {
    plain_call(
        t.repository,
        seq![
            utf8("update-ref"@),
            utf8("-d"@),
            utf8(t.branch_ref->0),
            utf8(t.created_oid->0),
        ],
    )
}

/// The event touches nothing but what `t` says was made.
pub open spec fn takes_back(event: Event, t: TransactionView) -> bool {
    match event {
        Event::Git(call, _) => {
            ||| !making(call)
            ||| t.registered && call == unregistering(t)
            ||| t.branch_ref is Some && t.created_oid is Some && call == unbranching(t)
        },
        Event::PathExists(path, _) => path == t.destination,
        Event::CreateDirectories(path, _) => t.existed_empty && path == t.destination,
        _ => false,
    }
}

/// Taking back touches only what was made: the worktree, if it was registered;
/// the branch, if it was made and still is where it was made; and the empty
/// directory that was there before.
pub proof fn law_only_what_was_made_is_taken_back(l: Seq<Event>, i: int, t: TransactionView)
    requires
        0 <= i <= l.len(),
    ensures
        ({
            let j = rollback_at(l, i, t).1;
            j == -1 || (i <= j <= l.len() && forall|k: int|
                i <= k < j ==> takes_back(#[trigger] l[k], t))
        }),
{
    reveal(rollback_at);
    lemma_reading_words();
    if t.rollback_enabled {
        let ((problems, removed), a) = unregister_at(l, i, t);
        let (problems, b) = restore_empty_at(l, a, t, removed, problems);
        let (problems, c) = drop_branch_at(l, b, t, problems);
        assert(a == -1 || (i <= a <= l.len() && forall|k: int|
            i <= k < a ==> takes_back(#[trigger] l[k], t)));
        assert(b == -1 || (a <= b <= l.len() && a != -1 && forall|k: int|
            a <= k < b ==> takes_back(#[trigger] l[k], t)));
        assert(c == -1 || (b <= c <= l.len() && b != -1 && forall|k: int|
            b <= k < c ==> takes_back(#[trigger] l[k], t)));
    }
}

/// What was taken back is not taken back again.
pub proof fn law_taking_back_happens_once(l: Seq<Event>, i: int, t: TransactionView)
    requires
        !t.rollback_enabled,
    ensures
        rollback_at(l, i, t) == (None::<Seq<char>>, i),
{
    reveal(rollback_at);
}

/// A branch that is checked out somewhere is not deleted, and that is told.
pub proof fn law_branch_in_use_is_kept(
    l: Seq<Event>,
    i: int,
    t: TransactionView,
    problems: Seq<Seq<char>>,
)
    requires
        t.branch_ref is Some,
        t.created_oid is Some,
        branch_checked_out_at(l, i, t.repository, t.branch_ref->0).0 == Ok::<bool, GitFailureView>(
            true,
        ),
    ensures
        drop_branch_at(l, i, t, problems).1 == branch_checked_out_at(
            l,
            i,
            t.repository,
            t.branch_ref->0,
        ).1,
        drop_branch_at(l, i, t, problems).0.len() == problems.len() + 1,
{
}

/// A branch is owned only where it did not exist and was made for the
/// worktree, at the commit that the worktree is meant for.
pub proof fn law_only_new_branches_are_owned(
    l: Seq<Event>,
    i: int,
    cwd: Seq<u8>,
    destination: Seq<u8>,
    args: AddView,
    prepared: PreparedView,
    j: int,
)
    requires
        prepare_branch_at(l, i, cwd, destination, args) == (
            Ok::<PreparedView, ErrorView>(prepared),
            j,
        ),
    ensures
        prepared.owned_ref is Some ==> !args.detach && prepared.owned_oid
            == prepared.expected_target && exists|branch: Seq<char>, m: int|
            {
                &&& prepared.owned_ref == Some(branch_ref(branch))
                &&& branch_oid_at(l, i, cwd, branch, args.json).0 == Ok::<
                    Option<Seq<char>>,
                    ErrorView,
                >(None)
                &&& prepared.owned_oid is Some
                &&& (#[trigger] create_ref_at(
                    l,
                    m,
                    cwd,
                    branch_ref(branch),
                    prepared.owned_oid->0,
                )) == (None::<GitFailureView>, j)
            },
        prepared.owned_ref is None ==> prepared.owned_oid is None,
{
    reveal(prepare_branch_at);
    if prepared.owned_ref is Some {
        let branch = match args.branch {
            Some(branch) => branch,
            None => crate::outside::lossy_text(crate::path::name_of(destination)->0),
        };
        let (oid, a) = branch_oid_at(l, i, cwd, branch, args.json);
        let (target, b) = target_at(l, a, cwd, args);
        assert(!args.detach);
        assert(prepared.owned_ref == Some(branch_ref(branch)));
        assert(oid == Ok::<Option<Seq<char>>, ErrorView>(None));
        assert(prepared.owned_oid == Some(target->Ok_0));
        assert(create_ref_at(l, b, cwd, branch_ref(branch), prepared.owned_oid->0) == (
            None::<GitFailureView>,
            j,
        ));
    }
}

// ---------------------------------------------------------------------------
// The hook
// ---------------------------------------------------------------------------

/// A failing hook leaves the worktree where it is: the failure says that the
/// worktree was created and holds what the hook printed, and nothing is asked
/// of the machine after the hook but to pass that on.
pub proof fn law_failing_hook_keeps_the_worktree(
    l: Seq<Event>,
    i: int,
    destination: Seq<u8>,
    target: Seq<char>,
    json: bool,
    error: ErrorView,
    j: int,
)
    requires
        0 <= i <= l.len(),
        post_checkout_at(l, i, destination, target, json) == (
            Err::<HookView, ErrorView>(error),
            j,
        ),
        j != -1,
    ensures
        error.code == "post_checkout_failed"@,
        error.worktree_created == Some(true),
        error.cleanup is None,
        error.hook_output is Some,
        l[i] is Git,
        json ==> j == i + 1,
        !json ==> j == i + 2 && l[i + 1] is Forward,
{
}

// ---------------------------------------------------------------------------
// Copy-on-write
// ---------------------------------------------------------------------------

/// The name of a mechanism.
pub open spec fn mechanism(label: Seq<char>) -> bool {
    label == Backend::Apfs.label() || label == Backend::LinuxReflink.label()
}

/// Where copy-on-write is demanded, a clean worktree is made with a mechanism
/// for it, or not at all.
pub proof fn law_demanded_cow_is_used(
    l: Seq<Event>,
    i: int,
    args: AddView,
    added: AddedView,
    j: int,
)
    requires
        args.require_cow,
        run_clean_at(l, i, args) == (Ok::<AddedView, ErrorView>(added), j),
    ensures
        mechanism(added.backend),
{
    reveal(run_clean_at);
    reveal(plan_at);
    reveal(backend_at);
    reveal(carry_out_at);
    reveal(run_unborn_at);
    reveal(unborn_plan_at);
    reveal(unborn_backend_at);
    reveal(unborn_carry_out_at);
}

/// A clone that cannot stand for a checked-out file is not left behind.
pub proof fn law_failed_clone_is_removed(
    l: Seq<Event>,
    i: int,
    index: int,
    job: JobView,
    umask: u32,
    j: int,
)
    requires
        clone_job_at(l, i, index, job, umask) == (OutcomeView::Checkout(index), j),
        j != -1,
    ensures
        j > 0,
        l[j - 1] matches Event::RemoveFile(path, _) && path == job.target,
{
    reveal(clone_job_at);
}

// ---------------------------------------------------------------------------
// Inheritance
// ---------------------------------------------------------------------------

proof fn lemma_copies(
    l: Seq<Event>,
    i: int,
    before: SnapshotView,
    k: nat,
    destination: Seq<u8>,
    links: Seq<Seq<u8>>,
    state: ProgressView,
)
    ensures
        copy_from(l, i, before, k, destination, links, false, state) matches (
            Ok(next),
            _,
        ) ==> next.report.copied_files == state.report.copied_files && next.report.donor_links
            == state.report.donor_links,
        copy_from(l, i, before, k, destination, links, true, state) matches (
            Ok(next),
            _,
        ) ==> next.report.donor_links == state.report.donor_links,
    decreases before.items.len() - k,
{
    reveal(copy_item_at);
    reveal(copy_contents_at);
    if k < before.items.len() {
        let item = before.items[k as int];
        let (r, j) = copy_item_at(l, i, item, destination, before.donor, links, false, state);
        if r is Ok {
            lemma_copies(l, j, before, k + 1, destination, links, r->Ok_0);
        }
        let (r, j) = copy_item_at(l, i, item, destination, before.donor, links, true, state);
        if r is Ok {
            lemma_copies(l, j, before, k + 1, destination, links, r->Ok_0);
        }
    }
}

proof fn lemma_no_donor_links(
    l: Seq<Event>,
    i: int,
    items: Seq<ItemView>,
    k: nat,
    destination: Seq<u8>,
    donor: Seq<u8>,
    links: Seq<Seq<u8>>,
    found: Seq<Seq<u8>>,
)
    ensures
        donor_links_from(l, i, items, k, destination, donor, links, false, found) matches (
            Ok(all),
            _,
        ) ==> all == found,
    decreases items.len() - k,
{
    if k < items.len() {
        let item = items[k as int];
        lemma_no_donor_links(l, i, items, k + 1, destination, donor, links, found);
        let path = crate::inherit::link_path(destination, item.path, item.entry.target->0);
        let j = crate::inherit::resolve_link_target_at(l, i, path, destination, donor).1;
        lemma_no_donor_links(l, j, items, k + 1, destination, donor, links, found);
    }
}

/// Without leave, no file is copied physically: what cannot be cloned ends the
/// inheritance.
pub proof fn law_copies_need_leave(
    l: Seq<Event>,
    i: int,
    before: SnapshotView,
    destination: Seq<u8>,
    links: Seq<Seq<u8>>,
    allow_donor_links: bool,
    linux: bool,
    report: ReportView,
    j: int,
)
    requires
        materialize_at(l, i, before, destination, links, false, allow_donor_links, linux) == (
            Ok::<ReportView, Seq<char>>(report),
            j,
        ),
    ensures
        report.copied_files == 0,
{
    reveal(materialize_at);
    assert forall|a: int, root: Seq<u8>, state: ProgressView|
        (#[trigger] copy_items_at(l, a, before, root, links, false, state)).0 is Ok implies (
    copy_items_at(l, a, before, root, links, false, state).0)->Ok_0.report.copied_files
        == state.report.copied_files by {
        lemma_copies(l, a, before, 0, root, links, state);
    }
}

/// Without leave, no link into the donor is inherited.
pub proof fn law_donor_links_need_leave(
    l: Seq<Event>,
    i: int,
    before: SnapshotView,
    destination: Seq<u8>,
    links: Seq<Seq<u8>>,
    allow_copy: bool,
    linux: bool,
    report: ReportView,
    j: int,
)
    requires
        materialize_at(l, i, before, destination, links, allow_copy, false, linux) == (
            Ok::<ReportView, Seq<char>>(report),
            j,
        ),
    ensures
        report.donor_links.len() == 0,
{
    reveal(materialize_at);
    assert forall|a: int, root: Seq<u8>|
        (#[trigger] donor_links_at(l, a, before.items, root, before.donor, links, false)).0
            is Ok implies (donor_links_at(
        l,
        a,
        before.items,
        root,
        before.donor,
        links,
        false,
    ).0)->Ok_0.len() == 0 by {
        lemma_no_donor_links(
            l,
            a,
            before.items,
            0,
            root,
            before.donor,
            links,
            Seq::empty(),
        );
    }
    assert forall|a: int, root: Seq<u8>, state: ProgressView|
        (#[trigger] copy_items_at(l, a, before, root, links, allow_copy, state)).0 is Ok implies (
    copy_items_at(l, a, before, root, links, allow_copy, state).0)->Ok_0.report.donor_links
        == state.report.donor_links by {
        lemma_copies(l, a, before, 0, root, links, state);
    }
}

/// A file with several names is copied once: the first name gets a copy, and a
/// later one is made another name of it.
pub proof fn law_names_of_one_file_stay_together(
    l: Seq<Event>,
    i: int,
    item: ItemView,
    destination: Seq<u8>,
    donor: Seq<u8>,
    links: Seq<Seq<u8>>,
    allow_copy: bool,
    state: ProgressView,
    next: ProgressView,
    j: int,
)
    requires
        copy_item_at(l, i, item, destination, donor, links, allow_copy, state) == (
            Ok::<ProgressView, Seq<char>>(next),
            j,
        ),
        item.entry.kind() == REGULAR,
        item.path.len() > 0,
        !under_target(links, item.path),
    ensures
        next.firsts.contains_key(file_key(item.entry.dev, item.entry.ino)),
        forall|key: u128| #[trigger]
            state.firsts.contains_key(key) ==> next.firsts.contains_key(key) && next.firsts[key]
                == state.firsts[key],
        state.firsts.contains_key(file_key(item.entry.dev, item.entry.ino))
            ==> next.report.hardlinks == state.report.hardlinks + 1 && next.report.cow_files
            == state.report.cow_files && next.report.copied_files == state.report.copied_files,
        !state.firsts.contains_key(file_key(item.entry.dev, item.entry.ino))
            ==> next.report.hardlinks == state.report.hardlinks && next.report.cow_files
            + next.report.copied_files == state.report.cow_files + state.report.copied_files + 1,
{
    reveal(copy_item_at);
    reveal(copy_contents_at);
}

} // verus!
