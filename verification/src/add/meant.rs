//! A worktree is at the commit, and on the branch, that was asked for.
//!
//! What Git was asked, and what it answered, is told in the words of the
//! command line that it was run with.
use crate::add::branch::{intended_target_at, prepare_branch_at, PreparedView};
use crate::cli::AddView;
use crate::host::{CallView, Event};
use crate::outside::lossy_text;
use crate::path::name_of;
use crate::text::{stripped, utf8};
use vstd::prelude::*;

verus! {

/// A run of Git in `cwd` with `args`, with nothing to read.
pub open spec fn asked(cwd: Seq<u8>, args: Seq<Seq<u8>>) -> CallView {
    CallView { cwd, args, input: None, lockless: false }
}

/// At `k` in the log Git ran as `call`, ended well and printed `stdout`.
pub open spec fn ran(l: Seq<Event>, k: int, call: CallView, stdout: Seq<u8>) -> bool {
    &&& 0 <= k < l.len()
    &&& match l[k] {
        Event::Git(c, Ok(output)) => c == call && output.code == Some(0i32) && output.stdout
            == stdout,
        _ => false,
    }
}

/// At `k` in the log Git ran as `call` and answered that there is no such
/// thing.
pub open spec fn declined(l: Seq<Event>, k: int, call: CallView) -> bool {
    &&& 0 <= k < l.len()
    &&& match l[k] {
        Event::Git(c, Ok(output)) => c == call && output.code == Some(1i32),
        _ => false,
    }
}

/// The text on the line that Git printed.
pub open spec fn printed(stdout: Seq<u8>) -> Seq<char> {
    stripped(lossy_text(stdout))
}

/// What is to be checked out: the start point, and `HEAD` without one.
pub open spec fn start_of(args: AddView) -> Seq<char> {
    match args.start_point {
        Some(start) => start,
        None => "HEAD"@,
    }
}

/// The question which commit `expression` stands for.
pub open spec fn commit_question(cwd: Seq<u8>, expression: Seq<char>) -> CallView {
    asked(
        cwd,
        seq![utf8("rev-parse"@), utf8("--verify"@), utf8(expression + "^{commit}"@)],
    )
}

/// The question whether there is a branch `name`, and at which commit.
pub open spec fn branch_question(cwd: Seq<u8>, name: Seq<char>) -> CallView {
    asked(
        cwd,
        seq![
            utf8("rev-parse"@),
            utf8("--verify"@),
            utf8("--quiet"@),
            utf8("refs/heads/"@ + name + "^{commit}"@),
        ],
    )
}

/// At `k` in the log Git said that `expression` stands for `commit`.
pub open spec fn resolved(
    l: Seq<Event>,
    k: int,
    cwd: Seq<u8>,
    expression: Seq<char>,
    commit: Seq<char>,
) -> bool {
    exists|stdout: Seq<u8>| #[trigger]
        ran(l, k, commit_question(cwd, expression), stdout) && printed(stdout) == commit
}

/// At `k` in the log Git said that the branch `name` is at `commit`.
pub open spec fn branch_stood(
    l: Seq<Event>,
    k: int,
    cwd: Seq<u8>,
    name: Seq<char>,
    commit: Seq<char>,
) -> bool {
    exists|stdout: Seq<u8>| #[trigger]
        ran(l, k, branch_question(cwd, name), stdout) && printed(stdout) == commit
}

/// At `k` in the log the branch `name`, which must not have been there, was
/// made at `commit`.
pub open spec fn branch_made(
    l: Seq<Event>,
    k: int,
    cwd: Seq<u8>,
    name: Seq<char>,
    commit: Seq<char>,
) -> bool {
    exists|zero: Seq<char>, stdout: Seq<u8>|
        {
            &&& zero.len() == utf8(commit).len()
            &&& forall|n: int| 0 <= n < zero.len() ==> #[trigger] zero[n] == '0'
            &&& #[trigger] ran(l, k, branch_making(cwd, name, commit, zero), stdout)
        }
}

/// The making of the branch `name` at `commit`, as long as it stands at `zero`,
/// which is nowhere.
pub open spec fn branch_making(
    cwd: Seq<u8>,
    name: Seq<char>,
    commit: Seq<char>,
    zero: Seq<char>,
) -> CallView {
    asked(
        cwd,
        seq![
            utf8("update-ref"@),
            utf8("-m"@),
            utf8("branch: Created from ramiz add"@),
            utf8("refs/heads/"@ + name),
            utf8(commit),
            utf8(zero),
        ],
    )
}

/// The worktree gets the branch `name`: one that was there, at the commit it
/// was at; or a new one at the start point, which it owns.
pub open spec fn on_branch(
    l: Seq<Event>,
    i: int,
    j: int,
    cwd: Seq<u8>,
    name: Seq<char>,
    args: AddView,
    p: PreparedView,
) -> bool {
    &&& p.checkout_ref == Some(name)
    &&& p.expected_target is Some
    &&& match p.owned_ref {
        None => {
            &&& args.branch is None
            &&& j == i + 1
            &&& branch_stood(l, i, cwd, name, p.expected_target->0)
            &&& p.owned_oid is None
        },
        Some(reference) => {
            &&& reference == "refs/heads/"@ + name
            &&& j == i + 3
            &&& declined(l, i, branch_question(cwd, name))
            &&& resolved(l, i + 1, cwd, start_of(args), p.expected_target->0)
            &&& branch_made(l, i + 2, cwd, name, p.expected_target->0)
            &&& p.owned_oid == p.expected_target
        },
    }
}

/// The worktree gets no branch of its own making, and is at the start point.
pub open spec fn at_start(
    l: Seq<Event>,
    i: int,
    j: int,
    cwd: Seq<u8>,
    args: AddView,
    p: PreparedView,
) -> bool {
    &&& p.checkout_ref == args.start_point
    &&& p.expected_target is Some
    &&& p.owned_ref is None
    &&& p.owned_oid is None
    &&& j == i + 1
    &&& resolved(l, i, cwd, start_of(args), p.expected_target->0)
}

/// A worktree is settled on the commit that was asked for. Detached, or with a
/// start point and no branch, it is what the start point stands for, and `HEAD`
/// without one; no branch is made. With a branch, that branch is new and
/// stands there. With neither, the branch is named as the destination is: where
/// there is one it is taken as it stands, else it is made at `HEAD`.
pub proof fn law_branch_starts_where_asked(
    l: Seq<Event>,
    i: int,
    cwd: Seq<u8>,
    destination: Seq<u8>,
    args: AddView,
)
    requires
        prepare_branch_at(l, i, cwd, destination, args).0 is Ok,
        prepare_branch_at(l, i, cwd, destination, args).1 != -1,
    ensures
        ({
            let (r, j) = prepare_branch_at(l, i, cwd, destination, args);
            let p = r->Ok_0;
            if args.detach {
                at_start(l, i, j, cwd, args, p)
            } else {
                match (args.branch, args.start_point) {
                    (Some(branch), _) => on_branch(l, i, j, cwd, branch, args, p),
                    (None, Some(_)) => at_start(l, i, j, cwd, args, p),
                    (None, None) => name_of(destination) matches Some(name) && on_branch(
                        l,
                        i,
                        j,
                        cwd,
                        lossy_text(name),
                        args,
                        p,
                    ),
                }
            }
        }),
{
    reveal(prepare_branch_at);
    let (r, j) = prepare_branch_at(l, i, cwd, destination, args);
    let p = r->Ok_0;
    if args.detach || (args.branch is None && args.start_point is Some) {
        lemma_resolved(l, i, cwd, start_of(args));
    } else {
        let name = match args.branch {
            Some(branch) => branch,
            None => lossy_text(name_of(destination)->0),
        };
        lemma_stood(l, i, cwd, name);
        lemma_resolved(l, i + 1, cwd, start_of(args));
        if p.owned_ref is Some {
            let commit = p.expected_target->0;
            let zero = crate::git::zeros(commit);
            assert(ran(
                l,
                i + 2,
                branch_making(cwd, name, commit, zero),
                (l[i + 2]->Git_1)->Ok_0.stdout,
            ));
            assert(branch_made(l, i + 2, cwd, name, commit));
        }
    }
}

proof fn lemma_resolved(l: Seq<Event>, k: int, cwd: Seq<u8>, expression: Seq<char>)
    ensures
        ({
            let (r, j) = crate::git::resolve_commit_at(l, k, cwd, expression);
            r is Ok && j != -1 ==> j == k + 1 && resolved(l, k, cwd, expression, r->Ok_0)
        }),
{
    let (r, j) = crate::git::resolve_commit_at(l, k, cwd, expression);
    if r is Ok && j != -1 {
        assert(ran(l, k, commit_question(cwd, expression), (l[k]->Git_1)->Ok_0.stdout));
    }
}

proof fn lemma_stood(l: Seq<Event>, k: int, cwd: Seq<u8>, name: Seq<char>)
    ensures
        ({
            let (r, j) = crate::git::ref_oid_at(l, k, cwd, "refs/heads/"@ + name);
            j != -1 ==> j == k + 1 && match r {
                Ok(Some(commit)) => branch_stood(l, k, cwd, name, commit),
                Ok(None) => declined(l, k, branch_question(cwd, name)),
                Err(_) => true,
            }
        }),
{
    let (r, j) = crate::git::ref_oid_at(l, k, cwd, "refs/heads/"@ + name);
    if j != -1 && r is Ok && r->Ok_0 is Some {
        assert(ran(l, k, branch_question(cwd, name), (l[k]->Git_1)->Ok_0.stdout));
    }
}

/// The commit that a worktree is meant for is found by asking alone, and is
/// the one that it is then settled on: what the start point stands for, and
/// `HEAD` without one; but with neither branch nor start point, the commit of
/// the branch that is named as the destination is, where there is one. A new
/// branch is one that is not there yet.
pub proof fn law_target_is_the_asked_commit(
    l: Seq<Event>,
    i: int,
    cwd: Seq<u8>,
    destination: Seq<u8>,
    args: AddView,
)
    requires
        intended_target_at(l, i, cwd, destination, args).0 is Ok,
        intended_target_at(l, i, cwd, destination, args).1 != -1,
    ensures
        ({
            let (r, j) = intended_target_at(l, i, cwd, destination, args);
            let commit = r->Ok_0;
            match args.branch {
                Some(branch) => {
                    &&& j == i + 2
                    &&& declined(l, i, branch_question(cwd, branch))
                    &&& resolved(l, i + 1, cwd, start_of(args), commit)
                },
                None => if args.detach || args.start_point is Some {
                    j == i + 1 && resolved(l, i, cwd, start_of(args), commit)
                } else {
                    &&& name_of(destination) is Some
                    &&& {
                        let name = lossy_text(name_of(destination)->0);
                        ||| j == i + 1 && branch_stood(l, i, cwd, name, commit)
                        ||| {
                            &&& j == i + 2
                            &&& declined(l, i, branch_question(cwd, name))
                            &&& head_stood(l, i + 1, cwd, commit)
                        }
                    }
                },
            }
        }),
{
    reveal(intended_target_at);
    let name = match args.branch {
        Some(branch) => branch,
        None => lossy_text(name_of(destination)->0),
    };
    lemma_stood(l, i, cwd, name);
    lemma_resolved(l, i, cwd, start_of(args));
    lemma_resolved(l, i + 1, cwd, start_of(args));
    lemma_head_stood(l, i + 1, cwd);
}

/// The question which commit is checked out in `cwd`.
pub open spec fn head_question(cwd: Seq<u8>) -> CallView {
    asked(cwd, seq![utf8("rev-parse"@), utf8("HEAD^{commit}"@)])
}

/// At `k` in the log Git said that `commit` is checked out in `cwd`.
pub open spec fn head_stood(l: Seq<Event>, k: int, cwd: Seq<u8>, commit: Seq<char>) -> bool {
    exists|stdout: Seq<u8>| #[trigger]
        ran(l, k, head_question(cwd), stdout) && printed(stdout) == commit
}

pub proof fn lemma_head_stood(l: Seq<Event>, k: int, cwd: Seq<u8>)
    ensures
        ({
            let (r, j) = crate::git::head_oid_at(l, k, cwd);
            r is Ok && j != -1 ==> j == k + 1 && head_stood(l, k, cwd, r->Ok_0)
        }),
{
    let (r, j) = crate::git::head_oid_at(l, k, cwd);
    if r is Ok && j != -1 {
        assert(ran(l, k, head_question(cwd), (l[k]->Git_1)->Ok_0.stdout));
    }
}

/// Settling on a branch goes on in the log.
pub proof fn lemma_prepared_after(
    l: Seq<Event>,
    i: int,
    cwd: Seq<u8>,
    destination: Seq<u8>,
    args: AddView,
)
    requires
        prepare_branch_at(l, i, cwd, destination, args).0 is Ok,
        prepare_branch_at(l, i, cwd, destination, args).1 != -1,
    ensures
        0 <= i < prepare_branch_at(l, i, cwd, destination, args).1 <= l.len(),
{
    reveal(prepare_branch_at);
}

} // verus!
