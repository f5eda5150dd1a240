//! What is refused is refused for a reason, and what is not is granted.
use crate::add::branch::{prepare_branch_at, PreparedView};
use crate::add::carried::{checked_out, emptying, hooking, listing, registering, status_question};
use crate::add::clean::{carry_out_at, fill_at, PlanView};
use crate::add::copied::{directory, link, regular, seen_as, taken};
use crate::add::materialize::{materialize_clean_files_at, Filled};
use crate::add::meant::{
    branch_making, branch_question, branch_stood, commit_question, declined, head_question,
    printed, ran, start_of,
};
use crate::add::preflight::{opened, register_at, registered};
use crate::add::report::post_checkout_at;
use crate::cli::AddView;
use crate::error::ErrorView;
use crate::git::{checkout_paths_at, entries_in, read_target_index_at, EntryView, GitFailureView};
use crate::host::{CallView, Event};
use crate::inherit::{copy_contents_at, copy_item_at, file_key, ItemView, ProgressView};
use crate::outside::lossy_text;
use crate::path::{joined, name_of};
use crate::text::{pieces, utf8};
use vstd::prelude::*;

verus! {

// ---------------------------------------------------------------------------
// The branch
// ---------------------------------------------------------------------------

/// At `k` in the log Git could not be run as `call`, or did not end well.
pub open spec fn git_failed(l: Seq<Event>, k: int, call: CallView) -> bool {
    &&& 0 <= k < l.len()
    &&& match l[k] {
        Event::Git(c, Ok(output)) => c == call && output.code != Some(0i32),
        Event::Git(c, Err(_)) => c == call,
        _ => false,
    }
}

/// At `k` in the log Git failed to answer whether there is a branch.
pub open spec fn unanswered(l: Seq<Event>, k: int, call: CallView) -> bool {
    git_failed(l, k, call) && !declined(l, k, call)
}

/// The branch that was asked for, or else that bears the destination's name.
pub open spec fn wanted_branch(destination: Seq<u8>, args: AddView) -> Option<Seq<char>> {
    match args.branch {
        Some(branch) => Some(branch),
        None => match name_of(destination) {
            Some(name) => Some(lossy_text(name)),
            None => None,
        },
    }
}

/// A branch is refused only for a reason: Git did not name the commit; or did
/// not say whether the branch is there; or it is there although a new one was
/// asked for; or it could not be made; or the destination has no name to give
/// it.
pub proof fn law_branch_is_refused_for_a_reason(
    l: Seq<Event>,
    i: int,
    cwd: Seq<u8>,
    destination: Seq<u8>,
    args: AddView,
)
    requires
        0 <= i <= l.len(),
        prepare_branch_at(l, i, cwd, destination, args).0 is Err,
        prepare_branch_at(l, i, cwd, destination, args).1 != -1,
    ensures
        ({
            let error = prepare_branch_at(l, i, cwd, destination, args).0->Err_0;
            let branchless = args.detach || (args.branch is None && args.start_point is Some);
            let wanted = wanted_branch(destination, args);
            ||| {
                &&& error.code == "target_resolution"@
                &&& git_failed(
                    l,
                    if branchless {
                        i
                    } else {
                        i + 1
                    },
                    commit_question(cwd, start_of(args)),
                )
            }
            ||| {
                &&& !branchless
                &&& wanted is Some
                &&& {
                    ||| {
                        &&& error.code == "branch_preflight"@
                        &&& unanswered(l, i, branch_question(cwd, wanted->0))
                    }
                    ||| {
                        &&& error.code == "branch_exists"@
                        &&& args.branch is Some
                        &&& exists|commit: Seq<char>| #[trigger]
                            branch_stood(l, i, cwd, wanted->0, commit)
                    }
                    ||| {
                        &&& error.code == "branch_creation_failed"@
                        &&& declined(l, i, branch_question(cwd, wanted->0))
                        &&& exists|commit: Seq<char>, zero: Seq<char>|
                            git_failed(
                                l,
                                i + 2,
                                #[trigger] branch_making(cwd, wanted->0, commit, zero),
                            )
                    }
                }
            }
            ||| {
                &&& !branchless
                &&& wanted is None
                &&& error.code == "invalid_destination"@
            }
        }),
{
    reveal(prepare_branch_at);
    let branchless = args.detach || (args.branch is None && args.start_point is Some);
    if !branchless && wanted_branch(destination, args) is Some {
        let name = wanted_branch(destination, args)->0;
        let (oid, a) = crate::add::branch::branch_oid_at(l, i, cwd, name, args.json);
        if let Ok(Some(commit)) = oid {
            assert(ran(l, i, branch_question(cwd, name), (l[i]->Git_1)->Ok_0.stdout));
            assert(branch_stood(l, i, cwd, name, commit));
        } else if oid is Ok {
            let (target, b) = crate::add::branch::target_at(l, a, cwd, args);
            if let Ok(commit) = target {
                let zero = crate::git::zeros(commit);
                assert(git_failed(l, i + 2, branch_making(cwd, name, commit, zero)));
            }
        }
    }
}

/// Without a reason against it the branch is granted: where Git says that the
/// branch that was asked for is not there, names the commit and makes the
/// branch, it is the worktree's own.
pub proof fn law_new_branch_is_granted(
    l: Seq<Event>,
    i: int,
    cwd: Seq<u8>,
    destination: Seq<u8>,
    args: AddView,
    said: Seq<u8>,
    stdout: Seq<u8>,
)
    requires
        0 <= i <= l.len(),
        !args.detach,
        args.branch is Some,
        declined(l, i, branch_question(cwd, args.branch->0)),
        ran(l, i + 1, commit_question(cwd, start_of(args)), said),
        ran(
            l,
            i + 2,
            branch_making(
                cwd,
                args.branch->0,
                printed(said),
                Seq::new(utf8(printed(said)).len(), |k: int| '0'),
            ),
            stdout,
        ),
    ensures
        prepare_branch_at(l, i, cwd, destination, args) == (
            Ok::<PreparedView, ErrorView>(
                PreparedView {
                    checkout_ref: args.branch,
                    expected_target: Some(printed(said)),
                    owned_ref: Some("refs/heads/"@ + args.branch->0),
                    owned_oid: Some(printed(said)),
                },
            ),
            i + 3,
        ),
{
    reveal(prepare_branch_at);
    assert(Seq::new(utf8(printed(said)).len(), |k: int| '0') =~= crate::git::zeros(printed(said)));
}

// ---------------------------------------------------------------------------
// Inherited items
// ---------------------------------------------------------------------------

/// An item is inherited where everything on the way to it goes well: a regular
/// file that is the first of its name is cloned and gets its permission bits
/// and times, and counts as a clone; a directory is made; a link is made and
/// gets its times, and is listed.
pub proof fn law_item_is_granted(
    l: Seq<Event>,
    i: int,
    item: ItemView,
    destination: Seq<u8>,
    donor: Seq<u8>,
    links: Seq<Seq<u8>>,
    allow_copy: bool,
    state: ProgressView,
)
    requires
        0 <= i,
        i + 6 <= l.len(),
        taken(links, item),
        seen_as(l[i], joined(donor, item.path), item.entry),
        link(item) ==> item.entry.target is Some && l[i + 1] == Event::ReadLink(
            joined(donor, item.path),
            Ok(item.entry.target->0),
        ),
        !link(item) ==> item.entry.target is None,
        ({
            let source = joined(donor, item.path);
            let target = joined(destination, item.path);
            if regular(item) {
                &&& !state.firsts.contains_key(file_key(item.entry.dev, item.entry.ino))
                &&& l[i + 1] matches Event::CloneInto(s, t, Ok(_)) && s == source && t == target
                &&& l[i + 2] matches Event::Metadata(p, Ok(m)) && p == source && l[i + 3]
                    == Event::SetMode(target, m.mode & 0o1777u32, None) && l[i + 4]
                    == Event::SetTimes(target, m.accessed, m.modified, None)
            } else if directory(item) {
                l[i + 1] == Event::CreateDirectory(target, None)
            } else if link(item) {
                &&& l[i + 2] == Event::Symlink(item.entry.target->0, target, None)
                &&& l[i + 3] matches Event::Metadata(p, Ok(m)) && p == source && l[i + 4]
                    == Event::SetTimes(target, m.accessed, m.modified, None)
            } else {
                true
            }
        }),
    ensures
        ({
            let (r, j) = copy_item_at(l, i, item, destination, donor, links, allow_copy, state);
            &&& r is Ok
            &&& j == (if regular(item) || link(item) {
                i + 5
            } else if directory(item) {
                i + 2
            } else {
                i + 1
            })
            &&& r->Ok_0.report.cow_files == state.report.cow_files + (if regular(item) {
                1int
            } else {
                0int
            })
            &&& link(item) ==> r->Ok_0.report.symlinks == state.report.symlinks.push(item.path)
        }),
{
    reveal(copy_item_at);
    reveal(copy_contents_at);
    assert(crate::add::copied::left_out(links, item.path) == crate::inherit::under_target(
        links,
        item.path,
    ));
    assert(regular(item) ==> !link(item) && !directory(item));
    assert(0o100000u32 != 0o120000u32 && 0o100000u32 != 0o040000u32);
}

// ---------------------------------------------------------------------------
// The worktree
// ---------------------------------------------------------------------------

/// From `a` on everything went well: Git made the worktree, which is at
/// `commit`, and filled its index, on which `entries` are.
pub open spec fn begun_well(
    l: Seq<Event>,
    a: int,
    args: AddView,
    cwd: Seq<u8>,
    plan: PlanView,
    reference: Option<Seq<char>>,
    commit: Seq<char>,
    entries: Seq<EntryView>,
    outputs: Seq<Seq<u8>>,
) -> bool {
    &&& 0 <= a
    &&& ran(l, a, registering(cwd, plan.destination, args, reference), outputs[0])
    &&& l[a + 1] == Event::Cancelled(false)
    &&& ran(l, a + 2, head_question(plan.destination), outputs[1])
    &&& printed(outputs[1]) == commit
    &&& ran(l, a + 3, emptying(plan.destination, commit), outputs[2])
    &&& ran(l, a + 4, listing(plan.destination), outputs[3])
    &&& entries_in(pieces(outputs[3], 0)) == Ok::<Seq<EntryView>, GitFailureView>(entries)
}

/// From `f` on everything went well: Git checked out what was left to it, found
/// nothing changed, and the hook ended well.
pub open spec fn ended_well(
    l: Seq<Event>,
    f: int,
    args: AddView,
    plan: PlanView,
    commit: Seq<char>,
    done: Filled,
) -> bool {
    let g = if done.git_paths.len() > 0 {
        f + 1
    } else {
        f
    };
    &&& 0 <= f
    &&& done.git_paths.len() > 0 ==> checked_out(l, f, plan.destination, done.git_paths)
    &&& l[g] == Event::Cancelled(false)
    &&& ran(l, g + 1, status_question(plan.destination), Seq::empty())
    &&& 0 <= g + 2 < l.len()
    &&& match l[g + 2] {
        Event::Git(call, Ok(output)) => {
            &&& call == hooking(
                plan.destination,
                commit,
                Seq::new(utf8(commit).len(), |k: int| '0'),
            )
            &&& output.code == Some(0i32)
            &&& args.json || (g + 3 < l.len() && l[g + 3] == Event::Forward(
                output.stdout,
                output.stderr,
            ))
        },
        _ => false,
    }
}

/// A clean worktree is granted where nothing goes wrong: the branch is settled
/// on, the worktree is at its commit, its files are filled in and found
/// unchanged, and the hook ends well.
pub proof fn law_clean_worktree_is_granted(
    l: Seq<Event>,
    i: int,
    args: AddView,
    cwd: Seq<u8>,
    plan: PlanView,
    prepared: PreparedView,
    a: int,
    commit: Seq<char>,
    entries: Seq<EntryView>,
    outputs: Seq<Seq<u8>>,
    done: Filled,
    f: int,
)
    requires
        prepare_branch_at(l, i, cwd, plan.destination, args) == (
            Ok::<PreparedView, ErrorView>(prepared),
            a,
        ),
        prepared.expected_target is None || prepared.expected_target == Some(commit),
        begun_well(l, a, args, cwd, plan, prepared.checkout_ref, commit, entries, outputs),
        materialize_clean_files_at(
            l,
            a + 5,
            entries,
            plan.donor,
            plan.destination,
            plan.backend,
            args.json,
            registered(opened(cwd, plan.destination, plan.existed_empty, prepared)),
        ) == (Ok::<Filled, ErrorView>(done), f),
        ended_well(l, f, args, plan, commit, done),
    ensures
        carry_out_at(l, i, args, cwd, plan).0 is Ok,
        carry_out_at(l, i, args, cwd, plan).1 != -1,
{
    let before = opened(cwd, plan.destination, plan.existed_empty, prepared);
    let t = registered(before);
    assert(register_at(l, a, args, prepared, before) == (
        Ok::<Seq<char>, ErrorView>(commit),
        a + 3,
    )) by {
        reveal(register_at);
        let call = registering(cwd, plan.destination, args, prepared.checkout_ref);
        let words = crate::add::branch::add_args(
            plan.destination,
            args.detach,
            prepared.checkout_ref,
            args.start_point,
        );
        assert(call.args =~= words);
        assert(call == crate::git::plain_call(cwd, words));
    }
    let g = if done.git_paths.len() > 0 {
        f + 1
    } else {
        f
    };
    assert(fill_at(l, a + 3, plan, commit, args.json, t) == (
        Ok::<Filled, ErrorView>(done),
        g + 2,
    )) by {
        reveal(fill_at);
        assert(read_target_index_at(l, a + 3, plan.destination, commit) == (
            Ok::<Seq<EntryView>, GitFailureView>(entries),
            a + 5,
        ));
        assert(checkout_paths_at(l, f, plan.destination, done.git_paths) == (
            None::<GitFailureView>,
            g,
        ));
        assert(crate::git::refresh_and_verify_clean_at(l, g + 1, plan.destination) == (
            None::<GitFailureView>,
            g + 2,
        ));
    }
    let (hook, j) = post_checkout_at(l, g + 2, plan.destination, commit, args.json);
    assert(hook is Ok && j != -1) by {
        assert(Seq::new(utf8(commit).len(), |k: int| '0') =~= crate::git::zeros(commit));
    }
    reveal(carry_out_at);
}

} // verus!
