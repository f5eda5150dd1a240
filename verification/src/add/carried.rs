//! A clean worktree is registered, filled, verified and reported as asked.
use crate::add::branch::{add_args, prepare_branch_at, PreparedView};
use crate::add::clean::{carry_out_at, fill_at, PlanView};
use crate::add::materialize::{materialize_clean_files_at, CandidateView, Filled};
use crate::add::meant::{asked, head_stood, lemma_head_stood, lemma_prepared_after, ran};
use crate::add::preflight::{opened, register_at, registered};
use crate::add::proven::{
    accounts_for, law_files_are_left_to_git_for_a_reason, law_only_proven_clones_stay, left_to_git,
    lemma_accounts_within, lemma_left_within, lemma_materialized_onward,
};
use crate::add::report::{post_checkout_at, AddedView};
use crate::add::transaction::TransactionView;
use crate::cli::AddView;
use crate::error::{ErrorView, HookView};
use crate::fsclone::{clone_job_at, Backend};
use crate::git::{checkout_paths_at, entries_in, read_target_index_at, zero_ended, EntryView};
use crate::host::{CallView, Event, JobView, OutcomeView};
use crate::output::base64_text;
use crate::outside::lossy_text;
use crate::text::{pieces, utf8};
use vstd::prelude::*;

verus! {

// ---------------------------------------------------------------------------
// One clone
// ---------------------------------------------------------------------------

/// A clone that stays is a clone of the donor's file, without its attributes,
/// with the mode that a checkout gives a file that is executable or is not, and
/// with the time of now. One that does not stay is removed.
pub proof fn law_kept_clone_is_as_checked_out(
    l: Seq<Event>,
    i: int,
    index: int,
    job: JobView,
    umask: u32,
)
    requires
        0 <= i <= l.len(),
        clone_job_at(l, i, index, job, umask).1 != -1,
    ensures
        ({
            let (outcome, j) = clone_job_at(l, i, index, job, umask);
            match outcome {
                OutcomeView::Retained(n) => {
                    &&& n == index
                    &&& i <= j - 4
                    &&& j <= l.len()
                    &&& l[j - 4] matches Event::CloneInto(s, t, Ok(_)) && s == job.source && t
                        == job.target
                    &&& l[j - 3] == Event::StripAttributes(job.target, None)
                    &&& l[j - 2] == Event::SetMode(
                        job.target,
                        if job.executable {
                            0o777u32 & !umask
                        } else {
                            0o666u32 & !umask
                        },
                        None,
                    )
                    &&& l[j - 1] == Event::Touch(job.target, None)
                },
                OutcomeView::Checkout(n) => {
                    &&& n == index
                    &&& i < j <= l.len()
                    &&& l[j - 1] matches Event::RemoveFile(p, _) && p == job.target
                    &&& forall|k: int|
                        i <= k < j ==> (#[trigger] l[k]) !is Touch || l[k]->Touch_1 is Some
                },
                OutcomeView::Fatal(n, _) => {
                    &&& n == index
                    &&& j == i + 1
                    &&& l[i] matches Event::CreateDirectories(_, Some(_))
                },
            }
        }),
{
    reveal(clone_job_at);
}

// ---------------------------------------------------------------------------
// A clean worktree
// ---------------------------------------------------------------------------

/// Git is told to make a worktree at `destination`, without files: detached
/// where that was asked for, and of `reference` where there is one, or of the
/// start point.
pub open spec fn registering(
    cwd: Seq<u8>,
    destination: Seq<u8>,
    args: AddView,
    reference: Option<Seq<char>>,
) -> CallView {
    let front = seq![
        utf8("worktree"@),
        utf8("add"@),
        utf8("--no-checkout"@),
        utf8("--no-guess-remote"@),
    ];
    let what = match (reference, args.start_point) {
        (Some(reference), _) => seq![utf8(reference)],
        (None, Some(start)) => seq![utf8(start)],
        (None, None) => seq![],
    };
    asked(
        cwd,
        if args.detach {
            front + seq![utf8("--detach"@), destination] + what
        } else {
            front + seq![destination] + what
        },
    )
}

/// The hook is run for a worktree that is at `commit` and was nowhere before.
pub open spec fn hooking(cwd: Seq<u8>, commit: Seq<char>, zero: Seq<char>) -> CallView {
    asked(
        cwd,
        seq![
            utf8("hook"@),
            utf8("run"@),
            utf8("--ignore-missing"@),
            utf8("post-checkout"@),
            utf8("--"@),
            utf8(zero),
            utf8(commit),
            utf8("1"@),
        ],
    )
}

/// At `h` in the log the hook was run for `commit`, ended well, and printed
/// what `added` holds; without JSON that was passed on, and it was the last
/// thing done.
#[verifier::opaque]
pub open spec fn hooked(
    l: Seq<Event>,
    h: int,
    j: int,
    destination: Seq<u8>,
    commit: Seq<char>,
    json: bool,
    added: AddedView,
) -> bool {
    &&& 0 <= h < l.len()
    &&& match l[h] {
        Event::Git(call, Ok(output)) => {
            &&& output.code == Some(0i32)
            &&& exists|zero: Seq<char>|
                {
                    &&& call == #[trigger] hooking(destination, commit, zero)
                    &&& zero.len() == utf8(commit).len()
                    &&& forall|n: int| 0 <= n < zero.len() ==> #[trigger] zero[n] == '0'
                }
            &&& added.hook_output.encoding == "base64"@
            &&& added.hook_output.stdout == base64_text(output.stdout)
            &&& added.hook_output.stderr == base64_text(output.stderr)
            &&& if json {
                j == h + 1
            } else {
                j == h + 2 && l[h + 1] == Event::Forward(output.stdout, output.stderr)
            }
        },
        _ => false,
    }
}

/// `path` was handed to Git to be checked out at `m`, and nothing else was than
/// the other `paths`.
pub open spec fn checked_out(
    l: Seq<Event>,
    m: int,
    destination: Seq<u8>,
    paths: Seq<Seq<u8>>,
) -> bool {
    exists|stdout: Seq<u8>| #[trigger]
        ran(
            l,
            m,
            CallView {
                cwd: destination,
                args: checkout_words(),
                input: Some(zero_ended(paths)),
                lockless: false,
            },
            stdout,
        )
}

/// The words with which Git is told to check out the paths that it reads, and
/// to refresh their entries.
pub open spec fn checkout_words() -> Seq<Seq<u8>> {
    seq![utf8("checkout-index"@), utf8("-u"@), utf8("-z"@), utf8("--stdin"@)]
}

/// The question what in a worktree is not as its index says.
pub open spec fn status_question(cwd: Seq<u8>) -> CallView {
    asked(
        cwd,
        seq![
            utf8("status"@),
            utf8("--porcelain=v1"@),
            utf8("-z"@),
            utf8("--untracked-files=all"@),
        ],
    )
}

/// How the tracked files of a clean worktree came to be there: by clones that
/// are proven and by Git, each file once, and by Git only for a reason; without
/// a donor or a mechanism by Git alone.
#[verifier::opaque]
pub open spec fn filled_cleanly(
    l: Seq<Event>,
    i: int,
    j: int,
    plan: PlanView,
    entries: Seq<EntryView>,
    done: Filled,
) -> bool {
    if plan.donor is Some && plan.backend is Some {
        &&& exists|kept: Seq<CandidateView>| #[trigger]
            accounts_for(l, i, j, kept, done, entries, plan.donor->0, plan.destination)
        &&& forall|n: int|
            0 <= n < done.git_paths.len() ==> left_to_git(
                l,
                i,
                j,
                #[trigger] done.git_paths[n],
                entries,
                plan.donor->0,
                plan.destination,
            )
    } else {
        &&& done.cow_files == 0
        &&& done.git_paths.len() == entries.len()
        &&& forall|n: int|
            0 <= n < entries.len() ==> #[trigger] done.git_paths[n] == entries[n].path
    }
}

/// What `added` says of a clean worktree.
#[verifier::opaque]
pub open spec fn reports(added: AddedView, plan: PlanView, commit: Seq<char>, done: Filled) -> bool {
    &&& added.path.display == lossy_text(plan.destination)
    &&& added.path.bytes_base64 == base64_text(plan.destination)
    &&& added.head == Some(commit)
    &&& added.backend == match plan.backend {
        Some(Backend::Apfs) => "apfs"@,
        Some(Backend::LinuxReflink) => "linux-reflink"@,
        None => "checkout"@,
    }
    &&& added.cow_files == done.cow_files
    &&& added.git_files == done.git_paths.len()
    &&& added.copied_files == 0
    &&& added.hardlinks == 0
    &&& added.skipped_special.len() == 0
    &&& added.inherited_symlinks.len() == 0
    &&& added.donor_links.len() == 0
    &&& added.warnings == plan.warnings
}

/// From `a` on Git made the worktree and said that `commit` is checked out in
/// it; then its index was filled from that commit, and `entries` are on it.
#[verifier::opaque]
pub open spec fn indexed(
    l: Seq<Event>,
    a: int,
    cwd: Seq<u8>,
    destination: Seq<u8>,
    args: AddView,
    reference: Option<Seq<char>>,
    commit: Seq<char>,
    entries: Seq<EntryView>,
) -> bool {
    &&& exists|stdout: Seq<u8>| #[trigger]
        ran(l, a, registering(cwd, destination, args, reference), stdout)
    &&& l[a + 1] == Event::Cancelled(false)
    &&& head_stood(l, a + 2, destination, commit)
    &&& exists|stdout: Seq<u8>| #[trigger] ran(l, a + 3, emptying(destination, commit), stdout)
    &&& exists|stdout: Seq<u8>| #[trigger]
        ran(l, a + 4, listing(destination), stdout) && entries_in(pieces(stdout, 0)) == Ok::<
            Seq<EntryView>,
            crate::git::GitFailureView,
        >(entries)
}

/// The index of a worktree is to be that of `commit`.
pub open spec fn emptying(cwd: Seq<u8>, commit: Seq<char>) -> CallView {
    asked(cwd, seq![utf8("read-tree"@), utf8("--reset"@), utf8(commit)])
}

/// The question what is on the index.
pub open spec fn listing(cwd: Seq<u8>) -> CallView {
    asked(cwd, seq![utf8("ls-files"@), utf8("--stage"@), utf8("-z"@)])
}

/// At `h` - 1 Git found nothing in the worktree that is not as committed, and
/// before that it was told to check out `paths`, if there are any.
#[verifier::opaque]
pub open spec fn left_clean(
    l: Seq<Event>,
    h: int,
    destination: Seq<u8>,
    paths: Seq<Seq<u8>>,
) -> bool {
    &&& ran(l, h - 1, status_question(destination), Seq::empty())
    &&& l[h - 2] == Event::Cancelled(false)
    &&& paths.len() > 0 ==> checked_out(l, h - 3, destination, paths)
}

/// A clean worktree is made as asked. Git makes it on the branch that was
/// settled on, and it is at the commit that was settled on; its index is that
/// of the commit, and every file on it is a proven clone or checked out by Git;
/// Git then finds nothing changed; at last the hook is run; and all that is
/// what is reported.
pub proof fn law_clean_worktree_is_made_as_asked(
    l: Seq<Event>,
    i: int,
    args: AddView,
    cwd: Seq<u8>,
    plan: PlanView,
    added: AddedView,
    j: int,
)
    requires
        0 <= i <= l.len(),
        carry_out_at(l, i, args, cwd, plan) == (Ok::<AddedView, ErrorView>(added), j),
        j != -1,
    ensures
        ({
            let (prepared, a) = prepare_branch_at(l, i, cwd, plan.destination, args);
            &&& prepared is Ok
            &&& added.head is Some
            &&& prepared->Ok_0.expected_target is None || prepared->Ok_0.expected_target
                == added.head
            &&& exists|entries: Seq<EntryView>, done: Filled, h: int|
                {
                    &&& i <= a
                    &&& a + 7 <= h < j <= l.len()
                    &&& indexed(
                        l,
                        a,
                        cwd,
                        plan.destination,
                        args,
                        prepared->Ok_0.checkout_ref,
                        added.head->0,
                        entries,
                    )
                    &&& #[trigger] filled_cleanly(l, a + 5, h, plan, entries, done)
                    &&& #[trigger] left_clean(l, h, plan.destination, done.git_paths)
                    &&& hooked(l, h, j, plan.destination, added.head->0, args.json, added)
                    &&& reports(added, plan, added.head->0, done)
                }
        }),
{
    let (prepared, a) = prepare_branch_at(l, i, cwd, plan.destination, args);
    let prepared = prepared->Ok_0;
    let (commit, t, done, d) = lemma_steps(l, i, args, cwd, plan, added, j);
    lemma_prepared_after(l, i, cwd, plan.destination, args);
    let entries = lemma_indexed(l, a, args, prepared, t, plan, commit, done, d);
    lemma_hooked(l, d, plan.destination, commit, args.json, added, j);
    assert(filled_cleanly(l, a + 5, d, plan, entries, done));
    assert(left_clean(l, d, plan.destination, done.git_paths));
}

proof fn lemma_indexed(
    l: Seq<Event>,
    a: int,
    args: AddView,
    prepared: PreparedView,
    t: TransactionView,
    plan: PlanView,
    commit: Seq<char>,
    done: Filled,
    d: int,
) -> (entries: Seq<EntryView>)
    requires
        0 <= a,
        t.destination == plan.destination,
        register_at(l, a, args, prepared, t) == (Ok::<Seq<char>, ErrorView>(commit), a + 3),
        fill_at(l, a + 3, plan, commit, args.json, registered(t)) == (
            Ok::<Filled, ErrorView>(done),
            d,
        ),
        d != -1,
    ensures
        a + 7 <= d,
        indexed(
            l,
            a,
            t.repository,
            plan.destination,
            args,
            prepared.checkout_ref,
            commit,
            entries,
        ),
        filled_cleanly(l, a + 5, d, plan, entries, done),
        left_clean(l, d, plan.destination, done.git_paths),
{
    lemma_registered(l, a, args, prepared, t);
    lemma_filled(l, a + 3, plan, commit, args.json, registered(t), done, d);
    let (entries, e) = read_target_index_at(l, a + 3, plan.destination, commit);
    reveal(indexed);
    assert(ran(
        l,
        a + 4,
        listing(plan.destination),
        choose|stdout: Seq<u8>| #[trigger]
            ran(l, a + 3 + 1, listing(plan.destination), stdout) && entries_in(pieces(stdout, 0))
                == entries,
    ));
    entries->Ok_0
}

proof fn lemma_steps(
    l: Seq<Event>,
    i: int,
    args: AddView,
    cwd: Seq<u8>,
    plan: PlanView,
    added: AddedView,
    j: int,
) -> (r: (Seq<char>, TransactionView, Filled, int))
    requires
        carry_out_at(l, i, args, cwd, plan) == (Ok::<AddedView, ErrorView>(added), j),
        j != -1,
    ensures
        ({
            let (commit, t, done, d) = r;
            let (prepared, a) = prepare_branch_at(l, i, cwd, plan.destination, args);
            let (target, b) = register_at(l, a, args, prepared->Ok_0, t);
            &&& prepared is Ok
            &&& a != -1
            &&& t == opened(cwd, plan.destination, plan.existed_empty, prepared->Ok_0)
            &&& target == Ok::<Seq<char>, ErrorView>(commit)
            &&& b == a + 3
            &&& added.head == Some(commit)
            &&& prepared->Ok_0.expected_target is None || prepared->Ok_0.expected_target == Some(
                commit,
            )
            &&& fill_at(l, b, plan, commit, args.json, registered(t)) == (
                Ok::<Filled, ErrorView>(done),
                d,
            )
            &&& d != -1
            &&& post_checkout_at(l, d, plan.destination, commit, args.json) == (
                Ok::<HookView, ErrorView>(added.hook_output),
                j,
            )
            &&& reports(added, plan, commit, done)
        }),
{
    reveal(carry_out_at);
    let (prepared, a) = prepare_branch_at(l, i, cwd, plan.destination, args);
    let prepared = prepared->Ok_0;
    let t0 = opened(cwd, plan.destination, plan.existed_empty, prepared);
    let (target, b) = register_at(l, a, args, prepared, t0);
    let commit = target->Ok_0;
    let t = registered(t0);
    let (filled, d) = fill_at(l, b, plan, commit, args.json, t);
    let done = filled->Ok_0;
    let (hook, h) = post_checkout_at(l, d, plan.destination, commit, args.json);
    assert(h == j && added.head == Some(commit));
    assert(d != -1);
    assert(b != -1) by {
        lemma_filled(l, b, plan, commit, args.json, t, done, d);
    }
    lemma_registered(l, a, args, prepared, t0);
    assert(reports(added, plan, commit, done)) by {
        reveal(reports);
    }
    (commit, t0, done, d)
}

pub proof fn lemma_registered(
    l: Seq<Event>,
    a: int,
    args: AddView,
    prepared: PreparedView,
    t: TransactionView,
)
    requires
        register_at(l, a, args, prepared, t).0 is Ok,
        register_at(l, a, args, prepared, t).1 != -1,
    ensures
        0 <= a,
        a + 3 <= l.len(),
        register_at(l, a, args, prepared, t).1 == a + 3,
        exists|stdout: Seq<u8>| #[trigger]
            ran(l, a, registering(t.repository, t.destination, args, prepared.checkout_ref), stdout),
        l[a + 1] == Event::Cancelled(false),
        head_stood(l, a + 2, t.destination, register_at(l, a, args, prepared, t).0->Ok_0),
{
    reveal(register_at);
    let call = registering(t.repository, t.destination, args, prepared.checkout_ref);
    let words = add_args(t.destination, args.detach, prepared.checkout_ref, args.start_point);
    assert(call.args =~= words);
    assert(call == crate::git::plain_call(t.repository, words));
    lemma_head_stood(l, a + 2, t.destination);
    assert(ran(l, a, call, (l[a]->Git_1)->Ok_0.stdout));
}

proof fn lemma_filled(
    l: Seq<Event>,
    c: int,
    plan: PlanView,
    commit: Seq<char>,
    json: bool,
    t: TransactionView,
    done: Filled,
    d: int,
)
    requires
        fill_at(l, c, plan, commit, json, t) == (Ok::<Filled, ErrorView>(done), d),
        d != -1,
    ensures
        ({
            let (entries, e) = read_target_index_at(l, c, plan.destination, commit);
            &&& entries is Ok
            &&& 0 <= c
            &&& c + 4 <= d <= l.len()
            &&& exists|stdout: Seq<u8>| #[trigger]
                ran(l, c, emptying(plan.destination, commit), stdout)
            &&& exists|stdout: Seq<u8>| #[trigger]
                ran(l, c + 1, listing(plan.destination), stdout) && entries_in(pieces(stdout, 0))
                    == entries
            &&& filled_cleanly(l, c + 2, d, plan, entries->Ok_0, done)
            &&& left_clean(l, d, plan.destination, done.git_paths)
        }),
{
    reveal(fill_at);
    reveal(filled_cleanly);
    reveal(left_clean);
    let (entries, e) = read_target_index_at(l, c, plan.destination, commit);
    let entries = entries->Ok_0;
    lemma_materialized_onward(
        l,
        e,
        entries,
        plan.donor,
        plan.destination,
        plan.backend,
        json,
        t,
    );
    let (r, f) = materialize_clean_files_at(
        l,
        e,
        entries,
        plan.donor,
        plan.destination,
        plan.backend,
        json,
        t,
    );
    let (refused, g) = checkout_paths_at(l, f, plan.destination, done.git_paths);
    assert(e == c + 2 && e <= f && f <= g && g + 2 == d);
    assert(ran(l, c, emptying(plan.destination, commit), (l[c]->Git_1)->Ok_0.stdout));
    assert(ran(l, c + 1, listing(plan.destination), (l[c + 1]->Git_1)->Ok_0.stdout));
    let quiet = (l[d - 1]->Git_1)->Ok_0.stdout;
    assert(quiet =~= Seq::<u8>::empty());
    assert(ran(l, d - 1, status_question(plan.destination), quiet));
    if done.git_paths.len() > 0 {
        let call = CallView {
            cwd: plan.destination,
            args: checkout_words(),
            input: Some(zero_ended(done.git_paths)),
            lockless: false,
        };
        assert(ran(l, f, call, (l[f]->Git_1)->Ok_0.stdout));
        assert(checked_out(l, d - 3, plan.destination, done.git_paths));
    }
    if plan.donor is Some && plan.backend is Some {
        law_only_proven_clones_stay(
            l,
            e,
            entries,
            plan.donor->0,
            plan.destination,
            plan.backend->0,
            json,
            t,
            done,
            f,
        );
        law_files_are_left_to_git_for_a_reason(
            l,
            e,
            entries,
            plan.donor->0,
            plan.destination,
            plan.backend->0,
            json,
            t,
            done,
            f,
        );
        let kept = choose|kept: Seq<CandidateView>| #[trigger]
            accounts_for(l, e, f, kept, done, entries, plan.donor->0, plan.destination);
        lemma_accounts_within(
            l,
            e,
            f,
            d,
            kept,
            done,
            entries,
            plan.donor->0,
            plan.destination,
        );
        assert forall|n: int| 0 <= n < done.git_paths.len() implies left_to_git(
            l,
            e,
            d,
            #[trigger] done.git_paths[n],
            entries,
            plan.donor->0,
            plan.destination,
        ) by {
            lemma_left_within(
                l,
                e,
                f,
                d,
                done.git_paths[n],
                entries,
                plan.donor->0,
                plan.destination,
            );
        }
    } else {
        reveal(materialize_clean_files_at);
    }
}

pub proof fn lemma_hooked(
    l: Seq<Event>,
    d: int,
    destination: Seq<u8>,
    commit: Seq<char>,
    json: bool,
    added: AddedView,
    j: int,
)
    requires
        post_checkout_at(l, d, destination, commit, json) == (
            Ok::<HookView, ErrorView>(added.hook_output),
            j,
        ),
        j != -1,
    ensures
        hooked(l, d, j, destination, commit, json, added),
        0 <= d < j <= l.len(),
{
    reveal(hooked);
    let zero = crate::git::zeros(commit);
    assert((l[d]->Git_0) == hooking(destination, commit, zero));
}

} // verus!
