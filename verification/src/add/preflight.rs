//! What has to hold before anything is made, and the registration itself.
use crate::add::branch::{
    git_error, git_problem, native_add, native_add_at, PreparedBranch, PreparedView,
};
use crate::add::destination::objection;
use crate::add::transaction::{
    check_cancelled, check_cancelled_at, fail, fail_at, Transaction, TransactionView,
};
use crate::cli::{AddArgs, AddView};
use crate::doctor::ended;
use crate::add::branch::ended_if;
use crate::error::{problem, ErrorView, RamizError};
use crate::git::{
    common_dir, common_dir_at, head_oid, head_oid_at, repo_root, repo_root_at, same_place,
    same_place_at, worktree_registered, worktree_registered_at,
};
use crate::host::{bytes_if, Event, Host, Session};
use crate::outside::{lossy, lossy_text};
use crate::text::{copy, text3};
use crate::update::io::extends;
use vstd::prelude::*;

verus! {

/// The donor: the worktree that was asked for, or else the one at hand.
pub open spec fn donor_at(
    l: Seq<Event>,
    i: int,
    asked: Option<Seq<u8>>,
    at_hand: Option<Seq<u8>>,
    bare_message: Seq<char>,
    json: bool,
) -> (Result<Option<Seq<u8>>, ErrorView>, int) {
    match asked {
        None => (Ok(at_hand), i),
        Some(path) => {
            let (root, i) = repo_root_at(l, i, path);
            (
                match root {
                    Err(failure) => Err(git_problem("invalid_donor"@, failure, json)),
                    Ok(None) => Err(problem("invalid_donor"@, bare_message, json)),
                    Ok(Some(root)) => Ok(Some(root)),
                },
                i,
            )
        },
    }
}

/// The donor: the worktree that was asked for, or else the one at hand.
pub fn find_donor<H: Host>(
    s: &mut Session<H>,
    asked: &Option<Vec<u8>>,
    at_hand: &Option<Vec<u8>>,
    bare_message: &str,
    json: bool,
) -> (r: Result<Option<Vec<u8>>, RamizError>)
    ensures
        extends(final(s).log(), old(s).log()),
        forall|l: Seq<Event>|
            extends(l, final(s).log()) ==> #[trigger] donor_at(
                l,
                old(s).log().len() as int,
                bytes_if(*asked),
                bytes_if(*at_hand),
                bare_message@,
                json,
            ) == (ended_if(r), final(s).log().len() as int),
{
    match asked {
        None => match at_hand {
            Some(root) => Ok(Some(copy(root.as_slice()))),
            None => Ok(None),
        },
        Some(path) => match repo_root(s, path.as_slice()) {
            Err(failure) => Err(git_error("invalid_donor", failure, json)),
            Ok(None) => Err(RamizError::new("invalid_donor", bare_message.to_owned(), json)),
            Ok(Some(root)) => Ok(Some(root)),
        },
    }
}

/// The directory that the worktrees share.
pub open spec fn common_at(l: Seq<Event>, i: int, cwd: Seq<u8>, json: bool) -> (
    Result<Seq<u8>, ErrorView>,
    int,
) {
    let (r, i) = common_dir_at(l, i, cwd);
    (
        match r {
            Ok(common) => Ok(common),
            Err(failure) => Err(git_problem("repository_discovery"@, failure, json)),
        },
        i,
    )
}

/// The directory that the worktrees share.
pub fn find_common<H: Host>(s: &mut Session<H>, cwd: &[u8], json: bool) -> (r: Result<
    Vec<u8>,
    RamizError,
>)
    ensures
        extends(final(s).log(), old(s).log()),
        forall|l: Seq<Event>|
            extends(l, final(s).log()) ==> #[trigger] common_at(
                l,
                old(s).log().len() as int,
                cwd@,
                json,
            ) == (ended(r), final(s).log().len() as int),
{
    match common_dir(s, cwd) {
        Ok(common) => Ok(common),
        Err(failure) => Err(git_error("repository_discovery", failure, json)),
    }
}

/// What speaks against a donor: it is of another repository.
pub open spec fn foreign_donor_at(
    l: Seq<Event>,
    i: int,
    donor: Seq<u8>,
    common: Seq<u8>,
    json: bool,
) -> (Option<ErrorView>, int) {
    let (r, i) = common_dir_at(l, i, donor);
    match r {
        Err(failure) => (Some(git_problem("invalid_donor"@, failure, json)), i),
        Ok(theirs) => {
            let (same, i) = same_place_at(l, i, common, theirs);
            (
                if same {
                    None
                } else {
                    Some(
                        problem(
                            "different_repository"@,
                            "donor belongs to a different Git common repository"@,
                            json,
                        ),
                    )
                },
                i,
            )
        },
    }
}

/// The donor is of the same repository.
pub fn check_donor<H: Host>(
    s: &mut Session<H>,
    donor: &[u8],
    common: &[u8],
    json: bool,
) -> (r: Result<
    (),
    RamizError,
>)
    ensures
        extends(final(s).log(), old(s).log()),
        forall|l: Seq<Event>|
            extends(l, final(s).log()) ==> #[trigger] foreign_donor_at(
                l,
                old(s).log().len() as int,
                donor@,
                common@,
                json,
            ) == (objection(r), final(s).log().len() as int),
{
    match common_dir(s, donor) {
        Err(failure) => Err(git_error("invalid_donor", failure, json)),
        Ok(theirs) => if same_place(s, common, theirs.as_slice()) {
            Ok(())
        } else {
            Err(
                RamizError::new(
                    "different_repository",
                    "donor belongs to a different Git common repository".to_owned(),
                    json,
                ),
            )
        },
    }
}

/// What speaks against a destination: Git has a worktree there already.
pub open spec fn registered_at(
    l: Seq<Event>,
    i: int,
    cwd: Seq<u8>,
    destination: Seq<u8>,
    advice: Seq<char>,
    json: bool,
) -> (Option<ErrorView>, int) {
    let (r, i) = worktree_registered_at(l, i, cwd, destination);
    (
        match r {
            Err(failure) => Some(git_problem("destination_preflight"@, failure, json)),
            Ok(true) => Some(
                problem(
                    "registered_destination_missing"@,
                    lossy_text(destination) + " is already registered as a Git worktree"@ + advice,
                    json,
                ),
            ),
            Ok(false) => None,
        },
        i,
    )
}

/// Git has no worktree at `destination` yet.
pub fn check_unregistered<H: Host>(
    s: &mut Session<H>,
    cwd: &[u8],
    destination: &[u8],
    advice: &str,
    json: bool,
) -> (r: Result<(), RamizError>)
    ensures
        extends(final(s).log(), old(s).log()),
        forall|l: Seq<Event>|
            extends(l, final(s).log()) ==> #[trigger] registered_at(
                l,
                old(s).log().len() as int,
                cwd@,
                destination@,
                advice@,
                json,
            ) == (objection(r), final(s).log().len() as int),
{
    match worktree_registered(s, cwd, destination) {
        Err(failure) => Err(git_error("destination_preflight", failure, json)),
        Ok(true) => Err(
            RamizError::new(
                "registered_destination_missing",
                text3(
                    lossy(destination).as_str(),
                    " is already registered as a Git worktree",
                    advice,
                ),
                json,
            ),
        ),
        Ok(false) => Ok(()),
    }
}

/// How to go on with a worktree that Git remembers.
pub open spec fn repair_advice() -> Seq<char> {
    "; use `git worktree repair` or `git worktree prune`"@
}

/// What a new worktree can take back before it is registered.
pub open spec fn opened(
    cwd: Seq<u8>,
    destination: Seq<u8>,
    existed_empty: bool,
    prepared: PreparedView,
) -> TransactionView {
    TransactionView {
        repository: cwd,
        destination,
        existed_empty,
        branch_ref: prepared.owned_ref,
        created_oid: prepared.owned_oid,
        registered: false,
        rollback_enabled: true,
    }
}

/// What a new worktree can take back.
pub open spec fn registered(t: TransactionView) -> TransactionView {
    TransactionView { registered: true, ..t }
}

/// Registers a worktree; the result is the commit that it is at.
#[verifier::opaque]
pub open spec fn register_at(
    l: Seq<Event>,
    i: int,
    args: AddView,
    prepared: PreparedView,
    t: TransactionView,
) -> (Result<Seq<char>, ErrorView>, int) {
    let (refused, i) = native_add_at(
        l,
        i,
        t.repository,
        t.destination,
        args,
        prepared.checkout_ref,
    );
    match refused {
        Some(failure) => {
            let (error, i) = fail_at(
                l,
                i,
                git_problem("worktree_add_failed"@, failure, args.json),
                t,
            );
            (Err(error), i)
        },
        None => {
            let t = registered(t);
            let (stop, i) = check_cancelled_at(l, i, args.json, t);
            match stop {
                Some(error) => (Err(error), i),
                None => {
                    let (head, i) = head_oid_at(l, i, t.destination);
                    match head {
                        Ok(target) => (Ok(target), i),
                        Err(failure) => {
                            let (error, i) = fail_at(
                                l,
                                i,
                                git_problem("target_resolution"@, failure, args.json),
                                t,
                            );
                            (Err(error), i)
                        },
                    }
                },
            }
        },
    }
}

/// Registers the worktree that `t` is about.
pub fn register<H: Host>(
    s: &mut Session<H>,
    args: &AddArgs,
    prepared: &PreparedBranch,
    t: &mut Transaction,
) -> (r: Result<String, RamizError>)
    ensures
        extends(final(s).log(), old(s).log()),
        forall|l: Seq<Event>|
            extends(l, final(s).log()) ==> #[trigger] register_at(
                l,
                old(s).log().len() as int,
                args@,
                prepared@,
                old(t)@,
            ) == (ended(r), final(s).log().len() as int),
        r is Ok ==> final(t)@ == registered(old(t)@),
        r is Err ==> final(t)@ == (TransactionView { rollback_enabled: false, ..old(t)@ })
            || final(t)@ == (TransactionView { rollback_enabled: false, ..registered(old(t)@) }),
{
    proof {
        reveal(register_at);
    }
    match native_add(
        s,
        t.repository.as_slice(),
        t.destination.as_slice(),
        args,
        &prepared.checkout_ref,
    ) {
        Ok(_) => {},
        Err(failure) => {
            return Err(fail(s, git_error("worktree_add_failed", failure, args.json), t));
        },
    }
    t.registered = true;
    assert(t@ =~= registered(old(t)@));
    match check_cancelled(s, args.json, t) {
        Ok(_) => {},
        Err(error) => {
            return Err(error);
        },
    }
    match head_oid(s, t.destination.as_slice()) {
        Ok(target) => Ok(target),
        Err(failure) => Err(fail(s, git_error("target_resolution", failure, args.json), t)),
    }
}

} // verus!
