//! What is settled before a worktree is made is what was asked for.
use crate::add::branch::intended_target_at;
use crate::add::clean::{backend_at, features_at, lineage_at, plan_at, start_at, PlanView};
use crate::add::destination::{
    climb_from, descended, resolve_destination_at, unsafe_at, validate_destination_at,
};
use crate::add::inherited::{
    ancestry_at, donor_state_at, pinned_at, place_at, DonorView, PlaceView,
};
use crate::add::laws::{quiet_ancestry, quiet_intended_target,
    lemma_quietly, placed, quiet_backend, quiet_existing_directory, quiet_is_directory,
    quiet_lineage, quiet_registered, quiet_worktree_registered, quiet_resolve_destination,
    quiet_validate_destination, quietly,
};
use crate::add::meant::{asked, head_stood, lemma_head_stood, printed, ran};
use crate::add::preflight::{donor_at, registered_at};
use crate::add::report::AddedView;
use crate::add::transaction::{
    check_cancelled_at, drop_branch_at, restore_empty_at, rollback_at, unregister_at,
    TransactionView,
};
use crate::add::unborn::{
    unborn_args, unborn_carry_out_at, unborn_check_at, unborn_state_at, unborn_transaction,
    UnbornView,
};
use crate::cli::AddView;
use crate::doctor::{above, cloned_and_gone, lemma_nearest, lemma_probed, nearest_at, probes};
use crate::error::ErrorView;
use crate::fsclone::{existing_directory_at, Backend};
use crate::git::{git_path_at, line_of, worktree_registered_at, GitFailureView};
use crate::host::{canonicalize_at, CallView, Event};
use crate::path::{joined, name_of, parent_of, steps, Step};
use crate::output::base64_text;
use crate::outside::lossy_text;
use crate::add::taken_over::index_question;
use crate::text::{begins, pieces, utf8};
use vstd::prelude::*;

verus! {

// ---------------------------------------------------------------------------
// The destination
// ---------------------------------------------------------------------------

/// The path `path`, of which the place `k` parents above is really at `base`.
pub open spec fn rebuilt(base: Seq<u8>, path: Seq<u8>, k: nat) -> Seq<u8>
    decreases k,
{
    if k == 0 {
        base
    } else {
        joined(rebuilt(base, parent_of(path)->0, (k - 1) as nat), name_of(path)->0)
    }
}

/// From `i` on the log shows that `path` and the `k` - 1 places above it are
/// not there, and that the next one is, and is really at `base`.
pub open spec fn rooted_at(
    l: Seq<Event>,
    i: int,
    path: Seq<u8>,
    k: nat,
    base: Seq<u8>,
) -> bool {
    &&& 0 <= i
    &&& i + k + 1 < l.len()
    &&& forall|n: nat| n < k ==> l[i + n] == Event::PathExists(#[trigger] above(path, n), false)
    &&& l[i + k] == Event::PathExists(above(path, k), true)
    &&& l[i + k + 1] == Event::Canonicalize(above(path, k), Ok(base))
}

proof fn lemma_climbed(
    l: Seq<Event>,
    i: int,
    requested: Seq<u8>,
    existing: Seq<u8>,
    tail: Seq<Seq<u8>>,
) -> (k: nat)
    requires
        climb_from(l, i, requested, existing, tail).0 is Ok,
        climb_from(l, i, requested, existing, tail).1 != -1,
    ensures
        ({
            let (r, j) = climb_from(l, i, requested, existing, tail);
            let (found, more) = r->Ok_0;
            &&& 0 <= i
            &&& j == i + k + 1
            &&& j <= l.len()
            &&& found == above(existing, k)
            &&& forall|n: nat|
                n < k ==> l[i + n] == Event::PathExists(#[trigger] above(existing, n), false)
            &&& l[i + k] == Event::PathExists(found, true)
            &&& forall|base: Seq<u8>|
                #![trigger descended(base, more)]
                descended(base, more) == descended(rebuilt(base, existing, k), tail)
        }),
    decreases existing.len(),
{
    reveal_with_fuel(above, 2);
    reveal_with_fuel(rebuilt, 2);
    let (there, a) = crate::host::path_exists_at(l, i, existing);
    let (r, j) = climb_from(l, i, requested, existing, tail);
    if there {
        if a == -1 {
            assert(j == -1);
        }
        0
    } else {
        let name = name_of(existing)->0;
        let parent = parent_of(existing)->0;
        crate::path::lemma_parent_shorter(existing);
        if a == -1 {
            lemma_lost_climb(l, requested, parent, tail.push(name));
        }
        let m = lemma_climbed(l, a, requested, parent, tail.push(name));
        let k = (m + 1) as nat;
        let more = r->Ok_0.1;
        assert forall|n: nat| n < k implies l[i + n] == Event::PathExists(
            #[trigger] above(existing, n),
            false,
        ) by {
            if n > 0 {
                assert(above(existing, n) == above(parent, (n - 1) as nat));
                assert(l[a + (n - 1) as nat] == Event::PathExists(
                    above(parent, (n - 1) as nat),
                    false,
                ));
            }
        }
        assert forall|base: Seq<u8>|
            #![trigger descended(base, more)]
            descended(base, more) == descended(rebuilt(base, existing, k), tail) by {
            let below = rebuilt(base, parent, m);
            let longer = tail.push(name);
            assert(descended(base, more) == descended(below, longer));
            assert(longer.last() == name);
            assert(longer.drop_last() =~= tail);
            assert(descended(below, longer) == descended(joined(below, name), tail));
        }
        k
    }
}

proof fn lemma_lost_climb(
    l: Seq<Event>,
    requested: Seq<u8>,
    existing: Seq<u8>,
    tail: Seq<Seq<u8>>,
)
    ensures
        climb_from(l, -1, requested, existing, tail).1 == -1,
    decreases existing.len(),
{
    if name_of(existing) is Some && parent_of(existing) is Some {
        crate::path::lemma_parent_shorter(existing);
        lemma_lost_climb(l, requested, parent_of(existing)->0, tail.push(name_of(existing)->0));
    }
}

/// The destination is where the asked-for path leads from the current
/// directory: as far as it is there already it is followed to where it really
/// is, and the names of what is not there yet are kept, in order. It does not
/// go back up.
pub proof fn law_destination_is_the_asked_path(
    l: Seq<Event>,
    i: int,
    cwd: Seq<u8>,
    requested: Seq<u8>,
)
    requires
        resolve_destination_at(l, i, cwd, requested).0 is Ok,
        resolve_destination_at(l, i, cwd, requested).1 != -1,
    ensures
        !steps(resolve_destination_at(l, i, cwd, requested).0->Ok_0).contains(Step::Parent),
        exists|k: nat, base: Seq<u8>|
            {
                &&& #[trigger] rooted_at(l, i, joined(cwd, requested), k, base)
                &&& resolve_destination_at(l, i, cwd, requested).1 == i + k + 2
                &&& resolve_destination_at(l, i, cwd, requested).0->Ok_0 == rebuilt(
                    base,
                    joined(cwd, requested),
                    k,
                )
            },
{
    reveal(resolve_destination_at);
    let path = joined(cwd, requested);
    let none = Seq::<Seq<u8>>::empty();
    let (climbed, a) = climb_from(l, i, requested, path, none);
    let (existing, tail) = climbed->Ok_0;
    let (found, b) = canonicalize_at(l, a, existing);
    let base = found->Ok_0;
    assert(a != -1);
    let k = lemma_climbed(l, i, requested, path, none);
    assert(descended(base, tail) == descended(rebuilt(base, path, k), none));
    assert(rooted_at(l, i, path, k, base));
}

/// Between `i` and `j` the log shows that nothing is at `path`, or that it is a
/// directory with nothing in it.
pub open spec fn seen_free(l: Seq<Event>, i: int, j: int, path: Seq<u8>) -> bool {
    exists|k: int|
        {
            &&& i <= k < j
            &&& match #[trigger] l[k] {
                Event::Metadata(p, Err(_)) => p == path,
                Event::Metadata(p, Ok(m)) => {
                    &&& p == path
                    &&& m.mode & 0o170000u32 == 0o040000u32
                    &&& k + 1 < j
                    &&& l[k + 1] == Event::IsOccupied(path, Ok(false))
                },
                _ => false,
            }
        }
}

/// A worktree is made only where nothing is, or in an empty directory.
pub proof fn law_only_free_places_are_filled(
    l: Seq<Event>,
    i: int,
    destination: Seq<u8>,
    repository: Option<Seq<u8>>,
    donor: Option<Seq<u8>>,
    common: Seq<u8>,
    json: bool,
)
    requires
        placed(l, i),
        validate_destination_at(l, i, destination, repository, donor, common, json).0 is None,
        validate_destination_at(l, i, destination, repository, donor, common, json).1 != -1,
    ensures
        ({
            let j = validate_destination_at(
                l,
                i,
                destination,
                repository,
                donor,
                common,
                json,
            ).1;
            &&& 0 <= i < j <= l.len()
            &&& seen_free(l, i, j, destination)
        }),
{
    reveal(validate_destination_at);
    let (taken, a) = unsafe_at(l, i, destination, repository, donor, common);
    assert(a == -1 || (0 <= i <= a <= l.len()));
    let (metadata, b) = crate::host::metadata_at(l, a, destination);
    assert(l[a] is Metadata);
}

// ---------------------------------------------------------------------------
// The donor
// ---------------------------------------------------------------------------

/// The question which worktree `path` is in.
pub open spec fn worktree_question(path: Seq<u8>) -> CallView {
    asked(path, seq![utf8("rev-parse"@), utf8("--show-toplevel"@)])
}

/// The donor is the worktree that was asked for, as Git names it at `i`; where
/// none was, the one at hand.
pub open spec fn chosen_donor(
    l: Seq<Event>,
    i: int,
    from: Option<Seq<u8>>,
    at_hand: Option<Seq<u8>>,
    donor: Option<Seq<u8>>,
) -> bool {
    match from {
        None => donor == at_hand,
        Some(path) => exists|stdout: Seq<u8>| #[trigger]
            ran(l, i, worktree_question(path), stdout) && donor == Some(line_of(stdout)),
    }
}

/// The donor is the worktree that was asked for, or the one at hand where none
/// was; and a donor that was asked for is one, not a bare repository.
pub proof fn law_asked_donor_is_taken(
    l: Seq<Event>,
    i: int,
    from: Option<Seq<u8>>,
    at_hand: Option<Seq<u8>>,
    message: Seq<char>,
    json: bool,
)
    requires
        donor_at(l, i, from, at_hand, message, json).0 is Ok,
        donor_at(l, i, from, at_hand, message, json).1 != -1,
    ensures
        chosen_donor(l, i, from, at_hand, donor_at(l, i, from, at_hand, message, json).0->Ok_0),
        donor_at(l, i, from, at_hand, message, json).1 == (if from is Some {
            i + 1
        } else {
            i
        }),
{
    if let Some(path) = from {
        assert(ran(l, i, worktree_question(path), (l[i]->Git_1)->Ok_0.stdout));
    }
}

// ---------------------------------------------------------------------------
// The mechanism
// ---------------------------------------------------------------------------

/// At `k` in the log Git said that `cwd` is checked out in part.
pub open spec fn sparse(l: Seq<Event>, k: int, cwd: Seq<u8>) -> bool {
    &&& 0 <= k < l.len()
    &&& match l[k] {
        Event::Git(call, Ok(output)) => {
            &&& call == asked(
                cwd,
                seq![utf8("config"@), utf8("--bool"@), utf8("core.sparseCheckout"@)],
            )
            &&& output.code == Some(0i32)
            &&& printed(output.stdout) == "true"@
        },
        _ => false,
    }
}

/// At `k` in the log Git said that the index of `cwd` is split.
pub open spec fn split(l: Seq<Event>, k: int, cwd: Seq<u8>) -> bool {
    &&& 0 <= k < l.len()
    &&& match l[k] {
        Event::Git(call, Ok(output)) => {
            &&& call == asked(cwd, seq![utf8("rev-parse"@), utf8("--shared-index-path"@)])
            &&& output.code == Some(0i32)
            &&& printed(output.stdout).len() > 0
        },
        _ => false,
    }
}

/// The mechanism that `directory` was found to have between `i` and `j`.
pub open spec fn has_mechanism(
    l: Seq<Event>,
    i: int,
    j: int,
    directory: Seq<u8>,
    backend: Option<Backend>,
) -> bool {
    &&& 0 <= i <= j <= l.len()
    &&& forall|k: int| i <= k < j ==> probes(#[trigger] l[k], directory)
    &&& match backend {
        Some(backend) => cloned_and_gone(l, i, j, backend),
        None => !cloned_and_gone(l, i, j, Backend::Apfs) && !cloned_and_gone(
            l,
            i,
            j,
            Backend::LinuxReflink,
        ),
    }
}

/// A clean worktree is cloned with the mechanism that a probe where it will be
/// has found. There is none without a donor, of a donor that is checked out in
/// part or whose index is split, and where the probe finds none; then there is
/// a warning, or, where copy-on-write is demanded, no worktree.
pub proof fn law_mechanism_is_the_probed_one(
    l: Seq<Event>,
    i: int,
    donor: Option<Seq<u8>>,
    directory: Seq<u8>,
    require_cow: bool,
    json: bool,
)
    requires
        backend_at(l, i, donor, directory, require_cow, json).0 is Ok,
        backend_at(l, i, donor, directory, require_cow, json).1 != -1,
    ensures
        ({
            let (r, j) = backend_at(l, i, donor, directory, require_cow, json);
            let (backend, warnings) = r->Ok_0;
            &&& backend is None ==> !require_cow && warnings.len() == 1
            &&& backend is Some ==> warnings.len() == 0
            &&& match donor {
                None => backend is None && j == i,
                Some(path) => if sparse(l, i, path) || split(l, i + 1, path) {
                    backend is None && j == i + 2
                } else {
                    has_mechanism(l, i + 2, j, directory, backend)
                },
            }
        }),
{
    reveal(backend_at);
    if let Some(path) = donor {
        let (features, a) = features_at(l, i, donor, json);
        if let Ok((first, second)) = features {
            if a != -1 {
                assert(first == sparse(l, i, path));
                assert(second == split(l, i + 1, path));
            }
            if !(first || second) {
                lemma_probed(l, a, directory);
            }
        }
    }
}

/// The plan of a clean worktree is as asked: its donor, its destination, which
/// is free, whether that was there as an empty directory, and the mechanism of
/// the nearest directory that is there.
pub open spec fn planned(
    l: Seq<Event>,
    i: int,
    j: int,
    args: AddView,
    cwd: Seq<u8>,
    root: Option<Seq<u8>>,
    plan: PlanView,
    a: int,
    c: int,
    k: nat,
    directory: Seq<u8>,
) -> bool {
    &&& chosen_donor(l, i, args.from, root, plan.donor)
    &&& resolve_destination_at(l, a, cwd, args.path).0 == Ok::<Seq<u8>, Seq<char>>(
        plan.destination,
    )
    &&& i <= a <= c < j
    &&& seen_free(l, a, c, plan.destination)
    &&& l[c] == Event::IsDirectory(plan.destination, plan.existed_empty)
    &&& nearest_at(l, c + 1, plan.destination, k, directory)
    &&& backend_at(l, c + k + 3, plan.donor, directory, args.require_cow, args.json).0 == Ok::<
        (Option<Backend>, Seq<Seq<char>>),
        ErrorView,
    >((plan.backend, plan.warnings))
}

/// The plan of a clean worktree is what was asked for: the donor is the one
/// that was asked for, or else the worktree at hand; the destination is where
/// the asked-for path leads, and is free; and the mechanism is the one of the
/// directory that it will be in.
pub proof fn law_clean_plan_is_as_asked(
    l: Seq<Event>,
    i: int,
    args: AddView,
    cwd: Seq<u8>,
    root: Option<Seq<u8>>,
    plan: PlanView,
    j: int,
)
    requires
        0 <= i <= l.len(),
        plan_at(l, i, args, cwd, root) == (Ok::<PlanView, ErrorView>(plan), j),
        j != -1,
    ensures
        exists|a: int, c: int, k: nat, directory: Seq<u8>| #[trigger]
            planned(l, i, j, args, cwd, root, plan, a, c, k, directory),
{
    broadcast use {
        quiet_lineage,
        quiet_resolve_destination,
        quiet_validate_destination,
        quiet_backend,
        quiet_registered,
    };

    reveal(plan_at);
    reveal(lineage_at);
    let (lineage, a) = lineage_at(l, i, args, cwd, root);
    let (donor, common) = lineage->Ok_0;
    let (found, b) = resolve_destination_at(l, a, cwd, args.path);
    let destination = found->Ok_0;
    let (invalid, c) = validate_destination_at(
        l,
        b,
        destination,
        root,
        donor,
        common,
        args.json,
    );
    let (existed, d) = crate::host::is_directory_at(l, c, destination);
    let (directory, e) = existing_directory_at(l, d, destination);
    let directory = directory->Ok_0;
    let (backend, f) = backend_at(l, e, donor, directory, args.require_cow, args.json);
    let (known, g) = registered_at(
        l,
        f,
        cwd,
        destination,
        crate::add::preflight::repair_advice(),
        args.json,
    );
    crate::add::laws::lemma_still(l, i);
    lemma_quietly(l, i, a);
    lemma_quietly(l, a, b);
    lemma_quietly(l, b, c);
    assert(g == j);
    quiet_is_directory(l, c, destination);
    lemma_quietly(l, c, d);
    quiet_existing_directory(l, d, destination);
    lemma_quietly(l, d, e);
    quiet_backend(l, e, donor, directory, args.require_cow, args.json);
    lemma_quietly(l, e, f);
    assert(quietly(l, f, g));
    lemma_quietly(l, f, g);
    assert(f != -1);
    assert(quietly(l, e, f));
    lemma_quietly(l, e, f);
    assert(e != -1);
    let k = lemma_nearest(l, d, destination, destination);
    assert(d != -1 && c != -1);
    assert(a != -1);
    let bare = "a bare repository cannot be a donor"@;
    assert(donor_at(l, i, args.from, root, bare, args.json).1 != -1);
    law_asked_donor_is_taken(l, i, args.from, root, bare, args.json);
    law_only_free_places_are_filled(l, b, destination, root, donor, common, args.json);
    assert(seen_free(l, a, c, destination)) by {
        assert(seen_free(l, b, c, destination));
    }
    assert(planned(l, i, j, args, cwd, root, plan, a, c, k, directory));
}

// ---------------------------------------------------------------------------
// Where nothing is committed yet
// ---------------------------------------------------------------------------

/// Git is told to make a worktree where nothing is committed yet, on a new
/// branch where one was asked for.
pub open spec fn unborn_making(
    cwd: Seq<u8>,
    branch: Option<Seq<char>>,
    destination: Seq<u8>,
) -> CallView {
    let front = seq![
        utf8("worktree"@),
        utf8("add"@),
        utf8("--quiet"@),
        utf8("--no-guess-remote"@),
    ];
    asked(
        cwd,
        match branch {
            Some(branch) => front + seq![utf8("-b"@), utf8(branch), destination],
            None => front + seq![destination],
        },
    )
}

/// Where nothing is committed yet the worktree is the one that Git makes of
/// itself, on the branch that was asked for; it was then found to be in order,
/// with nothing in it that is not committed; and no commit, no file and no hook
/// is reported.
pub proof fn law_unborn_worktree_is_made_as_asked(
    l: Seq<Event>,
    i: int,
    args: AddView,
    cwd: Seq<u8>,
    plan: UnbornView,
    added: AddedView,
    j: int,
)
    requires
        0 <= i <= l.len(),
        unborn_carry_out_at(l, i, args, cwd, plan) == (Ok::<AddedView, ErrorView>(added), j),
        j != -1,
    ensures
        exists|stdout: Seq<u8>| #[trigger]
            ran(l, i, unborn_making(cwd, args.branch, plan.destination), stdout),
        l[i + 1] == Event::Cancelled(false),
        i + 3 < j <= l.len(),
        ran(l, j - 2, lockless_status(plan.destination), Seq::empty()),
        l[j - 1] matches Event::IsFile(_, true),
        added.path.display == lossy_text(plan.destination),
        added.path.bytes_base64 == base64_text(plan.destination),
        added.head is None,
        added.cow_files == 0 && added.git_files == 0,
        added.copied_files == 0 && added.hardlinks == 0,
        added.backend == (match plan.backend {
            Some(Backend::Apfs) => "apfs"@,
            Some(Backend::LinuxReflink) => "linux-reflink"@,
            None => "checkout"@,
        }),
        added.hook_output.stdout.len() == 0 && added.hook_output.stderr.len() == 0,
        added.warnings == plan.warnings,
{
    reveal(unborn_carry_out_at);
    let call = unborn_making(cwd, args.branch, plan.destination);
    assert(call.args =~= unborn_args(args.branch, plan.destination));
    assert(call == crate::git::plain_call(
        cwd,
        unborn_args(args.branch, plan.destination),
    ));
    let t = unborn_transaction(cwd, plan);
    let (made, a) = crate::git::checked_at(
        l,
        i,
        cwd,
        "git unborn worktree add"@,
        unborn_args(args.branch, plan.destination),
    );
    assert(a == -1 || a == i + 1);
    lemma_unborn_checked(l, a, cwd, plan.destination, args.json, t);
    assert(ran(l, i, call, (l[i]->Git_1)->Ok_0.stdout));
}

proof fn lemma_unborn_checked(
    l: Seq<Event>,
    i: int,
    cwd: Seq<u8>,
    destination: Seq<u8>,
    json: bool,
    t: TransactionView,
)
    requires
        placed(l, i),
        unborn_check_at(l, i, cwd, destination, json, t).0 is None,
        unborn_check_at(l, i, cwd, destination, json, t).1 != -1,
    ensures
        ({
            let j = unborn_check_at(l, i, cwd, destination, json, t).1;
            &&& 0 <= i
            &&& l[i] == Event::Cancelled(false)
            &&& i + 2 < j <= l.len()
            &&& ran(l, j - 2, lockless_status(destination), Seq::empty())
            &&& l[j - 1] matches Event::IsFile(_, true)
        }),
{
    let (stop, a) = check_cancelled_at(l, i, json, t);
    assert(unborn_state_at(l, a, cwd, destination).0 == Ok::<bool, GitFailureView>(true)
        && unborn_state_at(l, a, cwd, destination).1 == unborn_check_at(
        l,
        i,
        cwd,
        destination,
        json,
        t,
    ).1 && stop is None) by {
        reveal(unborn_check_at);
    }
    lemma_unborn_in_order(l, a, cwd, destination);
}

proof fn lemma_unborn_in_order(l: Seq<Event>, i: int, cwd: Seq<u8>, destination: Seq<u8>)
    requires
        placed(l, i),
        unborn_state_at(l, i, cwd, destination).0 == Ok::<bool, GitFailureView>(true),
        unborn_state_at(l, i, cwd, destination).1 != -1,
    ensures
        ({
            let j = unborn_state_at(l, i, cwd, destination).1;
            &&& 0 <= i
            &&& i + 2 < j <= l.len()
            &&& ran(l, j - 2, lockless_status(destination), Seq::empty())
            &&& l[j - 1] matches Event::IsFile(_, true)
        }),
{
    let (known, a) = worktree_registered_at(l, i, cwd, destination);
    quiet_worktree_registered(l, i, cwd, destination);
    lemma_quietly(l, i, a);
    let (symbolic, b) = crate::git::symbolic_head_at(l, a, destination);
    let (index, c) = crate::git::git_path_at(l, b, destination, "index"@);
    let (status, d) = crate::git::readonly_status_at(l, c, destination);
    assert(unborn_state_at(l, i, cwd, destination).0 == Ok::<bool, GitFailureView>(true) ==> {
        &&& known is Ok && symbolic is Ok && index is Ok && status is Ok
        &&& status->Ok_0.len() == 0
        &&& crate::host::is_file_at(l, d, index->Ok_0) == (
            true,
            unborn_state_at(l, i, cwd, destination).1,
        )
    }) by {
        reveal(unborn_state_at);
    }
    let j = unborn_state_at(l, i, cwd, destination).1;
    assert(d != -1 && c != -1 && b != -1 && a != -1);
    assert(d == c + 1 && c == b + 1 && b == a + 1 && j == d + 1);
    let quiet = (l[j - 2]->Git_1)->Ok_0.stdout;
    assert(quiet =~= Seq::<u8>::empty());
    assert(ran(l, j - 2, lockless_status(destination), quiet));
}

/// The question what is not committed in a worktree, asked without touching its
/// index.
pub open spec fn lockless_status(cwd: Seq<u8>) -> CallView {
    CallView {
        cwd,
        args: seq![
            utf8("status"@),
            utf8("--porcelain=v2"@),
            utf8("-z"@),
            utf8("--untracked-files=all"@),
        ],
        input: None,
        lockless: true,
    }
}

// ---------------------------------------------------------------------------
// Taking back
// ---------------------------------------------------------------------------

/// At `k` the directory that was there before is there, or was made again.
pub open spec fn there_again(l: Seq<Event>, k: int, path: Seq<u8>) -> bool {
    &&& 0 <= k < l.len()
    &&& {
        ||| l[k] == Event::PathExists(path, true)
        ||| {
            &&& l[k] == Event::PathExists(path, false)
            &&& k + 1 < l.len()
            &&& l[k + 1] == Event::CreateDirectories(path, None)
        }
    }
}

/// A worktree that is taken back without a note is taken back whole: Git
/// removed it, an empty directory that was there before is there again, and the
/// branch that was made for it, which nothing uses, is deleted as long as it
/// still is where it was made.
pub proof fn law_taken_back_means_gone(l: Seq<Event>, i: int, t: TransactionView)
    requires
        0 <= i <= l.len(),
        t.rollback_enabled,
        rollback_at(l, i, t).0 is None,
        rollback_at(l, i, t).1 != -1,
    ensures
        t.registered ==> exists|stdout: Seq<u8>| #[trigger]
            ran(l, i, worktree_removal(t.repository, t.destination), stdout),
        t.registered && t.existed_empty ==> there_again(l, i + 1, t.destination),
        t.branch_ref is Some && t.created_oid is Some ==> branch_gone(
            l,
            i,
            rollback_at(l, i, t).1,
            t.repository,
            t.branch_ref->0,
            t.created_oid->0,
        ),
{
    reveal(rollback_at);
    let ((problems, removed), a) = unregister_at(l, i, t);
    let (more, b) = restore_empty_at(l, a, t, removed, problems);
    let (all, j) = drop_branch_at(l, b, t, more);
    assert(all.len() == 0);
    assert(problems.len() <= more.len() && more.len() <= all.len());
    if t.registered {
        let call = worktree_removal(t.repository, t.destination);
        assert(ran(l, i, call, (l[i]->Git_1)->Ok_0.stdout));
    }
    if t.branch_ref is Some && t.created_oid is Some {
        assert(ran(l, j - 2, worktree_list(t.repository), (l[j - 2]->Git_1)->Ok_0.stdout));
        let call = branch_removal(t.repository, t.branch_ref->0, t.created_oid->0);
        assert(ran(l, j - 1, call, (l[j - 1]->Git_1)->Ok_0.stdout));
    }
}

/// The last thing done before `j` was to delete a branch that no worktree has
/// checked out, and that still was at `commit`.
pub open spec fn branch_gone(
    l: Seq<Event>,
    i: int,
    j: int,
    cwd: Seq<u8>,
    reference: Seq<char>,
    commit: Seq<char>,
) -> bool {
    exists|said: Seq<u8>, stdout: Seq<u8>|
        {
            &&& i <= j - 2
            &&& #[trigger] ran(l, j - 2, worktree_list(cwd), said)
            &&& !pieces(said, 0).contains(utf8("branch "@ + reference))
            &&& #[trigger] ran(l, j - 1, branch_removal(cwd, reference, commit), stdout)
        }
}

/// Git is told to remove a worktree, with what is in it.
pub open spec fn worktree_removal(cwd: Seq<u8>, destination: Seq<u8>) -> CallView {
    asked(
        cwd,
        seq![utf8("worktree"@), utf8("remove"@), utf8("--force"@), destination],
    )
}

/// The question which worktrees there are.
pub open spec fn worktree_list(cwd: Seq<u8>) -> CallView {
    asked(
        cwd,
        seq![utf8("worktree"@), utf8("list"@), utf8("--porcelain"@), utf8("-z"@)],
    )
}

/// Git is told to delete a branch that is still at `commit`.
pub open spec fn branch_removal(cwd: Seq<u8>, reference: Seq<char>, commit: Seq<char>) -> CallView {
    asked(cwd, seq![utf8("update-ref"@), utf8("-d"@), utf8(reference), utf8(commit)])
}

// ---------------------------------------------------------------------------
// Inheriting
// ---------------------------------------------------------------------------

/// An inheriting worktree is begun in a worktree, and its donor is the one that
/// was asked for, or else that one; its destination is where the asked-for path
/// leads, is free, and neither in the donor nor around it.
pub open spec fn placed_as_asked(
    l: Seq<Event>,
    i: int,
    p: int,
    args: AddView,
    place: PlaceView,
    a: int,
    c: int,
) -> bool {
    &&& l[i] == Event::CurrentDirectory(Ok(place.cwd))
    &&& exists|stdout: Seq<u8>| #[trigger]
        ran(l, i + 2, worktree_question(place.cwd), stdout) && chosen_donor(
            l,
            i + 3,
            args.from,
            Some(line_of(stdout)),
            Some(place.donor),
        )
    &&& i + 3 <= a <= c <= p
    &&& resolve_destination_at(l, a, place.cwd, args.path).0 == Ok::<Seq<u8>, Seq<char>>(
        place.destination,
    )
    &&& seen_free(l, a, c, place.destination)
    &&& !begins(steps(place.destination), steps(place.donor))
    &&& !begins(steps(place.donor), steps(place.destination))
}

/// The place of an inheriting worktree is what was asked for.
pub proof fn law_inheriting_place_is_as_asked(
    l: Seq<Event>,
    i: int,
    args: AddView,
    place: PlaceView,
    p: int,
)
    requires
        0 <= i <= l.len(),
        place_at(l, i, args) == (Ok::<PlaceView, ErrorView>(place), p),
        p != -1,
    ensures
        exists|a: int, c: int| #[trigger] placed_as_asked(l, i, p, args, place, a, c),
{
    broadcast use {quiet_resolve_destination, quiet_validate_destination, quiet_registered};

    reveal(place_at);
    let (ancestry, a) = ancestry_at(l, i, args);
    let (cwd, root, donor, common) = ancestry->Ok_0;
    quiet_ancestry(l, i, args);
    lemma_quietly(l, i, a);
    let (found, b) = resolve_destination_at(l, a, cwd, args.path);
    lemma_quietly(l, a, b);
    let destination = found->Ok_0;
    let (invalid, c) = validate_destination_at(
        l,
        b,
        destination,
        Some(root),
        Some(donor),
        common,
        args.json,
    );
    lemma_quietly(l, b, c);
    let (known, d) = registered_at(
        l,
        c,
        cwd,
        destination,
        crate::add::preflight::repair_advice(),
        args.json,
    );
    lemma_quietly(l, c, d);
    assert(d == p);
    lemma_ancestry(l, i, args);
    law_only_free_places_are_filled(l, b, destination, Some(root), Some(donor), common, args.json);
    assert(seen_free(l, a, c, destination));
    assert(placed_as_asked(l, i, p, args, place, a, c));
}

proof fn lemma_ancestry(l: Seq<Event>, i: int, args: AddView)
    requires
        0 <= i <= l.len(),
        ancestry_at(l, i, args).0 is Ok,
        ancestry_at(l, i, args).1 != -1,
    ensures
        ({
            let (cwd, root, donor, common) = ancestry_at(l, i, args).0->Ok_0;
            &&& l[i] == Event::CurrentDirectory(Ok(cwd))
            &&& exists|stdout: Seq<u8>| #[trigger]
                ran(l, i + 2, worktree_question(cwd), stdout) && root == line_of(stdout)
            &&& chosen_donor(l, i + 3, args.from, Some(root), Some(donor))
            &&& i + 3 <= ancestry_at(l, i, args).1
        }),
{
    reveal(ancestry_at);
    reveal(start_at);
    let (begun, a) = start_at(l, i, args.json);
    let (cwd, root) = begun->Ok_0;
    let bare = "a bare repository cannot be an inheritance donor"@;
    let (donor, b) = donor_at(l, a, args.from, root, bare, args.json);
    assert(a != -1 && b != -1);
    assert(a == i + 3);
    assert(ran(l, i + 2, worktree_question(cwd), (l[i + 2]->Git_1)->Ok_0.stdout));
    law_asked_donor_is_taken(l, a, args.from, root, bare, args.json);
}

/// From `q` on the log shows what Git says of the donor, as `state` has it: its
/// index, byte for byte, what is not committed, and what is on the index.
pub open spec fn state_shown(l: Seq<Event>, q: int, donor: Seq<u8>, state: DonorView) -> bool {
    &&& exists|stdout: Seq<u8>| #[trigger]
        ran(l, q, index_question(donor), stdout) && state.index_path == line_of(stdout)
    &&& l[q + 1] == Event::ReadFile(state.index_path, Ok(state.index))
    &&& ran(l, q + 2, lockless_status(donor), state.status)
    &&& exists|stages: Seq<u8>, flags: Seq<u8>|
        {
            &&& #[trigger] ran(
                l,
                q + 3,
                asked(donor, stage_words()),
                stages,
            )
            &&& #[trigger] ran(
                l,
                q + 4,
                asked(donor, flag_words()),
                flags,
            )
            &&& state.logical == stages + seq![255u8] + flags
        }
}

/// The words with which Git is asked for the entries of an index.
pub open spec fn stage_words() -> Seq<Seq<u8>> {
    seq![utf8("ls-files"@), utf8("--stage"@), utf8("-z"@)]
}

/// The words with which Git is asked for the flags of the entries of an index.
pub open spec fn flag_words() -> Seq<Seq<u8>> {
    seq![utf8("ls-files"@), utf8("-v"@), utf8("-z"@)]
}

/// The state of a donor is what Git says of it: its commit, which is the one
/// that the worktree is meant for, and its index and what is not committed.
pub proof fn law_donor_state_is_what_git_says(
    l: Seq<Event>,
    i: int,
    args: AddView,
    place: PlaceView,
    state: DonorView,
    j: int,
)
    requires
        0 <= i <= l.len(),
        donor_state_at(l, i, args, place) == (Ok::<DonorView, ErrorView>(state), j),
        j != -1,
    ensures
        head_stood(l, i, place.donor, state.head),
        intended_target_at(l, i + 2, place.cwd, place.destination, args).0 == Ok::<
            Seq<char>,
            ErrorView,
        >(state.head),
        j == intended_target_at(l, i + 2, place.cwd, place.destination, args).1 + 5,
        state_shown(l, j - 5, place.donor, state),
{
    reveal(donor_state_at);
    let (pin, a) = pinned_at(l, i, args, place);
    lemma_head_stood(l, i, place.donor);
    let (path, b) = git_path_at(l, a, place.donor, "index"@);
    let (index, c) = crate::host::read_file_at(l, b, path->Ok_0);
    let (status, d) = crate::git::readonly_status_at(l, c, place.donor);
    let (logical, e) = crate::git::logical_index_at(l, d, place.donor);
    assert(e == j);
    assert(a != -1 && b == a + 1 && c == b + 1 && d == c + 1 && e == d + 2);
    assert(a == intended_target_at(l, i + 2, place.cwd, place.destination, args).1 && {
        &&& head_stood(l, i, place.donor, state.head)
        &&& intended_target_at(l, i + 2, place.cwd, place.destination, args).0 == Ok::<
            Seq<char>,
            ErrorView,
        >(state.head)
    }) by {
        lemma_pinned_positions(l, i, args, place);
    }
    assert(ran(l, a, index_question(place.donor), (l[a]->Git_1)->Ok_0.stdout));
    assert(ran(l, a + 2, lockless_status(place.donor), state.status));
    let stages = (l[a + 3]->Git_1)->Ok_0.stdout;
    let flags = (l[a + 4]->Git_1)->Ok_0.stdout;
    assert(ran(l, a + 3, asked(place.donor, stage_words()), stages));
    assert(ran(l, a + 4, asked(place.donor, flag_words()), flags));
    assert(stages.push(255) + flags =~= stages + seq![255u8] + flags);
}

proof fn lemma_pinned_positions(l: Seq<Event>, i: int, args: AddView, place: PlaceView)
    requires
        0 <= i <= l.len(),
        pinned_at(l, i, args, place).0 is Ok,
        pinned_at(l, i, args, place).1 != -1,
    ensures
        ({
            let (r, a) = pinned_at(l, i, args, place);
            let (intended, b) = intended_target_at(
                l,
                i + 2,
                place.cwd,
                place.destination,
                args,
            );
            &&& a == b
            &&& intended == Ok::<Seq<char>, ErrorView>(r->Ok_0.0)
            &&& head_stood(l, i, place.donor, r->Ok_0.0)
        }),
{
    reveal(pinned_at);
    lemma_head_stood(l, i, place.donor);
    let (head, a) = crate::git::head_oid_at(l, i, place.donor);
    let (symbolic, b) = crate::git::symbolic_head_at(l, a, place.donor);
    assert(placed(l, b));
    quiet_intended_target(l, b, place.cwd, place.destination, args);
    lemma_quietly(l, b, intended_target_at(l, b, place.cwd, place.destination, args).1);
}

} // verus!
