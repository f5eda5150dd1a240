//! Which commit and which branch a new worktree gets.
use crate::cli::{AddArgs, AddView};
use crate::doctor::ended;
use crate::error::{problem, ErrorView, RamizError};
use crate::git::{
    checked, checked_at, create_ref, create_ref_at, failure_said, head_oid, head_oid_at, ref_oid,
    ref_oid_at, refused, resolve_commit, resolve_commit_at, word, words, GitFailure,
    GitFailureView,
};
use crate::host::{Event, Host, Session};
use crate::outside::{lossy, lossy_text};
use crate::path::{file_name, name_of};
use crate::text::{copy, text2, text3, utf8, views};
use crate::update::io::extends;
use crate::update::model::{copy_text, text_option};
use vstd::prelude::*;

verus! {

/// A failure of Git as one of the program.
pub open spec fn git_problem(code: Seq<char>, failure: GitFailureView, json: bool) -> ErrorView {
    problem(code, failure.text(), json)
}

/// The failure of Git as one of the program.
pub fn git_error(code: &'static str, failure: GitFailure, json: bool) -> (r: RamizError)
    ensures
        r@ == git_problem(code@, failure@, json),
{
    RamizError::new(code, failure.message(), json)
}

/// The expression that names the commit: the start point, or `HEAD`.
pub open spec fn expression_of(args: AddView) -> Seq<char> {
    match args.start_point {
        Some(start) => start,
        None => "HEAD"@,
    }
}

fn expression(args: &AddArgs) -> (r: &str)
    ensures
        r@ == expression_of(args@),
{
    match &args.start_point {
        Some(start) => start.as_str(),
        None => "HEAD",
    }
}

/// The full name of a branch.
pub open spec fn branch_ref(branch: Seq<char>) -> Seq<char> {
    "refs/heads/"@ + branch
}

/// A branch of that name is there already.
pub open spec fn branch_exists(branch: Seq<char>, json: bool) -> ErrorView {
    problem("branch_exists"@, "branch '"@ + branch + "' already exists"@, json)
}

fn branch_taken(branch: &str, json: bool) -> (r: RamizError)
    ensures
        r@ == branch_exists(branch@, json),
{
    RamizError::new("branch_exists", text3("branch '", branch, "' already exists"), json)
}

/// The commit that the start point names.
pub open spec fn target_at(l: Seq<Event>, i: int, cwd: Seq<u8>, args: AddView) -> (
    Result<Seq<char>, ErrorView>,
    int,
) {
    let (r, i) = resolve_commit_at(l, i, cwd, expression_of(args));
    (
        match r {
            Ok(oid) => Ok(oid),
            Err(failure) => Err(git_problem("target_resolution"@, failure, args.json)),
        },
        i,
    )
}

fn find_target<H: Host>(s: &mut Session<H>, cwd: &[u8], args: &AddArgs) -> (r: Result<
    String,
    RamizError,
>)
    ensures
        extends(final(s).log(), old(s).log()),
        forall|l: Seq<Event>|
            extends(l, final(s).log()) ==> #[trigger] target_at(
                l,
                old(s).log().len() as int,
                cwd@,
                args@,
            ) == (ended(r), final(s).log().len() as int),
{
    match resolve_commit(s, cwd, expression(args)) {
        Ok(oid) => Ok(oid),
        Err(failure) => Err(git_error("target_resolution", failure, args.json)),
    }
}

/// The commit that a branch is at, if there is such a branch.
pub open spec fn branch_oid_at(
    l: Seq<Event>,
    i: int,
    cwd: Seq<u8>,
    branch: Seq<char>,
    json: bool,
) -> (
    Result<Option<Seq<char>>, ErrorView>,
    int,
) {
    let (r, i) = ref_oid_at(l, i, cwd, branch_ref(branch));
    (
        match r {
            Ok(oid) => Ok(oid),
            Err(failure) => Err(git_problem("branch_preflight"@, failure, json)),
        },
        i,
    )
}

/// The view of a result that may be missing.
pub open spec fn ended_if<T: View>(r: Result<Option<T>, RamizError>) -> Result<
    Option<T::V>,
    ErrorView,
> {
    match r {
        Ok(Some(value)) => Ok(Some(value@)),
        Ok(None) => Ok(None),
        Err(error) => Err(error@),
    }
}

fn branch_oid<H: Host>(s: &mut Session<H>, cwd: &[u8], branch: &str, json: bool) -> (r: Result<
    Option<String>,
    RamizError,
>)
    ensures
        extends(final(s).log(), old(s).log()),
        forall|l: Seq<Event>|
            extends(l, final(s).log()) ==> #[trigger] branch_oid_at(
                l,
                old(s).log().len() as int,
                cwd@,
                branch@,
                json,
            ) == (ended_if(r), final(s).log().len() as int),
{
    let reference = text2("refs/heads/", branch);
    match ref_oid(s, cwd, reference.as_str()) {
        Ok(oid) => Ok(oid),
        Err(failure) => Err(git_error("branch_preflight", failure, json)),
    }
}

/// The commit that a new worktree is meant to be at. Nothing is changed.
#[verifier::opaque]
pub open spec fn intended_target_at(
    l: Seq<Event>,
    i: int,
    cwd: Seq<u8>,
    destination: Seq<u8>,
    args: AddView,
) -> (Result<Seq<char>, ErrorView>, int) {
    match args.branch {
        Some(branch) => {
            let (oid, i) = branch_oid_at(l, i, cwd, branch, args.json);
            match oid {
                Err(error) => (Err(error), i),
                Ok(Some(_)) => (Err(branch_exists(branch, args.json)), i),
                Ok(None) => target_at(l, i, cwd, args),
            }
        },
        None => if args.detach || args.start_point is Some {
            target_at(l, i, cwd, args)
        } else {
            match name_of(destination) {
                None => (
                    Err(
                        problem(
                            "invalid_destination"@,
                            "destination has no basename"@,
                            args.json,
                        ),
                    ),
                    i,
                ),
                Some(name) => {
                    let (oid, i) = branch_oid_at(l, i, cwd, lossy_text(name), args.json);
                    match oid {
                        Err(error) => (Err(error), i),
                        Ok(Some(oid)) => (Ok(oid), i),
                        Ok(None) => {
                            let (r, i) = head_oid_at(l, i, cwd);
                            (
                                match r {
                                    Ok(oid) => Ok(oid),
                                    Err(failure) => Err(
                                        git_problem(
                                            "target_resolution"@,
                                            failure,
                                            args.json,
                                        ),
                                    ),
                                },
                                i,
                            )
                        },
                    }
                },
            }
        },
    }
}

/// The commit that a new worktree at `destination` is meant to be at.
pub fn intended_target<H: Host>(
    s: &mut Session<H>,
    cwd: &[u8],
    destination: &[u8],
    args: &AddArgs,
) -> (r: Result<String, RamizError>)
    ensures
        extends(final(s).log(), old(s).log()),
        forall|l: Seq<Event>|
            extends(l, final(s).log()) ==> #[trigger] intended_target_at(
                l,
                old(s).log().len() as int,
                cwd@,
                destination@,
                args@,
            ) == (ended(r), final(s).log().len() as int),
{
    proof {
        reveal(intended_target_at);
    }
    match &args.branch {
        Some(branch) => match branch_oid(s, cwd, branch.as_str(), args.json) {
            Err(error) => Err(error),
            Ok(Some(_)) => Err(branch_taken(branch.as_str(), args.json)),
            Ok(None) => find_target(s, cwd, args),
        },
        None => {
            if args.detach || args.start_point.is_some() {
                return find_target(s, cwd, args);
            }
            match file_name(destination) {
                None => Err(
                    RamizError::new(
                        "invalid_destination",
                        "destination has no basename".to_owned(),
                        args.json,
                    ),
                ),
                Some(name) => {
                    let branch = lossy(name.as_slice());
                    match branch_oid(s, cwd, branch.as_str(), args.json) {
                        Err(error) => Err(error),
                        Ok(Some(oid)) => Ok(oid),
                        Ok(None) => match head_oid(s, cwd) {
                            Ok(oid) => Ok(oid),
                            Err(failure) => Err(
                                git_error("target_resolution", failure, args.json),
                            ),
                        },
                    }
                },
            }
        },
    }
}

/// The branch of a new worktree, once it is settled.
pub struct PreparedBranch {
    /// What Git is told to check out.
    pub checkout_ref: Option<String>,
    pub expected_target: Option<String>,
    /// The branch, where it was made for this worktree.
    pub owned_ref: Option<String>,
    pub owned_oid: Option<String>,
}

/// The model of a [`PreparedBranch`].
#[verifier::ext_equal]
pub struct PreparedView {
    pub checkout_ref: Option<Seq<char>>,
    pub expected_target: Option<Seq<char>>,
    pub owned_ref: Option<Seq<char>>,
    pub owned_oid: Option<Seq<char>>,
}

impl View for PreparedBranch {
    type V = PreparedView;

    open spec fn view(&self) -> PreparedView {
        PreparedView {
            checkout_ref: text_option(self.checkout_ref),
            expected_target: text_option(self.expected_target),
            owned_ref: text_option(self.owned_ref),
            owned_oid: text_option(self.owned_oid),
        }
    }
}

/// A worktree at a commit that it does not own a branch for.
pub open spec fn borrowed(checkout_ref: Option<Seq<char>>, target: Seq<char>) -> PreparedView {
    PreparedView {
        checkout_ref,
        expected_target: Some(target),
        owned_ref: None,
        owned_oid: None,
    }
}

/// Settles on a named branch: an existing one is taken, unless a new one was
/// asked for; else it is made.
pub open spec fn prepare_named_at(
    l: Seq<Event>,
    i: int,
    cwd: Seq<u8>,
    branch: Seq<char>,
    explicit_new: bool,
    args: AddView,
) -> (Result<PreparedView, ErrorView>, int) {
    let (oid, i) = branch_oid_at(l, i, cwd, branch, args.json);
    match oid {
        Err(error) => (Err(error), i),
        Ok(Some(oid)) => if explicit_new {
            (Err(branch_exists(branch, args.json)), i)
        } else {
            (Ok(borrowed(Some(branch), oid)), i)
        },
        Ok(None) => {
            let (target, i) = target_at(l, i, cwd, args);
            match target {
                Err(error) => (Err(error), i),
                Ok(target) => {
                    let (made, i) = create_ref_at(l, i, cwd, branch_ref(branch), target);
                    match made {
                        Some(failure) => (
                            Err(git_problem("branch_creation_failed"@, failure, args.json)),
                            i,
                        ),
                        None => (
                            Ok(
                                PreparedView {
                                    checkout_ref: Some(branch),
                                    expected_target: Some(target),
                                    owned_ref: Some(branch_ref(branch)),
                                    owned_oid: Some(target),
                                },
                            ),
                            i,
                        ),
                    }
                },
            }
        },
    }
}

/// Settles on the branch of a new worktree.
#[verifier::opaque]
pub open spec fn prepare_branch_at(
    l: Seq<Event>,
    i: int,
    cwd: Seq<u8>,
    destination: Seq<u8>,
    args: AddView,
) -> (Result<PreparedView, ErrorView>, int) {
    if args.detach {
        let (target, i) = target_at(l, i, cwd, args);
        match target {
            Err(error) => (Err(error), i),
            Ok(target) => (Ok(borrowed(args.start_point, target)), i),
        }
    } else {
        match (args.branch, args.start_point) {
            (Some(branch), _) => prepare_named_at(l, i, cwd, branch, true, args),
            (None, Some(start)) => {
                let (target, i) = target_at(l, i, cwd, args);
                match target {
                    Err(error) => (Err(error), i),
                    Ok(target) => (Ok(borrowed(Some(start), target)), i),
                }
            },
            (None, None) => match name_of(destination) {
                None => (
                    Err(
                        problem(
                            "invalid_destination"@,
                            "destination has no branch basename"@,
                            args.json,
                        ),
                    ),
                    i,
                ),
                Some(name) => prepare_named_at(l, i, cwd, lossy_text(name), false, args),
            },
        }
    }
}

fn prepare_named<H: Host>(
    s: &mut Session<H>,
    cwd: &[u8],
    branch: String,
    explicit_new: bool,
    args: &AddArgs,
) -> (r: Result<PreparedBranch, RamizError>)
    ensures
        extends(final(s).log(), old(s).log()),
        forall|l: Seq<Event>|
            extends(l, final(s).log()) ==> #[trigger] prepare_named_at(
                l,
                old(s).log().len() as int,
                cwd@,
                branch@,
                explicit_new,
                args@,
            ) == (ended(r), final(s).log().len() as int),
{
    match branch_oid(s, cwd, branch.as_str(), args.json) {
        Err(error) => Err(error),
        Ok(Some(oid)) => if explicit_new {
            Err(branch_taken(branch.as_str(), args.json))
        } else {
            Ok(
                PreparedBranch {
                    checkout_ref: Some(branch),
                    expected_target: Some(oid),
                    owned_ref: None,
                    owned_oid: None,
                },
            )
        },
        Ok(None) => {
            let target = match find_target(s, cwd, args) {
                Ok(target) => target,
                Err(error) => {
                    return Err(error);
                },
            };
            let reference = text2("refs/heads/", branch.as_str());
            match create_ref(s, cwd, reference.as_str(), target.as_str()) {
                Err(failure) => Err(git_error("branch_creation_failed", failure, args.json)),
                Ok(_) => Ok(
                    PreparedBranch {
                        checkout_ref: Some(branch),
                        expected_target: Some(target.clone()),
                        owned_ref: Some(reference),
                        owned_oid: Some(target),
                    },
                ),
            }
        },
    }
}

/// Settles on the branch of the new worktree at `destination`.
pub fn prepare_branch<H: Host>(
    s: &mut Session<H>,
    cwd: &[u8],
    destination: &[u8],
    args: &AddArgs,
) -> (r: Result<PreparedBranch, RamizError>)
    ensures
        extends(final(s).log(), old(s).log()),
        forall|l: Seq<Event>|
            extends(l, final(s).log()) ==> #[trigger] prepare_branch_at(
                l,
                old(s).log().len() as int,
                cwd@,
                destination@,
                args@,
            ) == (ended(r), final(s).log().len() as int),
{
    proof {
        reveal(prepare_branch_at);
    }
    if args.detach {
        return match find_target(s, cwd, args) {
            Err(error) => Err(error),
            Ok(target) => Ok(
                PreparedBranch {
                    checkout_ref: copy_text(&args.start_point),
                    expected_target: Some(target),
                    owned_ref: None,
                    owned_oid: None,
                },
            ),
        };
    }
    match (&args.branch, &args.start_point) {
        (Some(branch), _) => prepare_named(s, cwd, branch.clone(), true, args),
        (None, Some(start)) => match find_target(s, cwd, args) {
            Err(error) => Err(error),
            Ok(target) => Ok(
                PreparedBranch {
                    checkout_ref: Some(start.clone()),
                    expected_target: Some(target),
                    owned_ref: None,
                    owned_oid: None,
                },
            ),
        },
        (None, None) => match file_name(destination) {
            None => Err(
                RamizError::new(
                    "invalid_destination",
                    "destination has no branch basename".to_owned(),
                    args.json,
                ),
            ),
            Some(name) => prepare_named(s, cwd, lossy(name.as_slice()), false, args),
        },
    }
}

/// The command line that registers a worktree without checking it out.
pub open spec fn add_args(
    destination: Seq<u8>,
    detach: bool,
    checkout_ref: Option<Seq<char>>,
    start_point: Option<Seq<char>>,
) -> Seq<Seq<u8>> {
    let front = seq![
        utf8("worktree"@),
        utf8("add"@),
        utf8("--no-checkout"@),
        utf8("--no-guess-remote"@),
    ];
    let detached = if detach {
        front.push(utf8("--detach"@))
    } else {
        front
    };
    let placed = detached.push(destination);
    match (checkout_ref, start_point) {
        (Some(reference), _) => placed.push(utf8(reference)),
        (None, Some(start)) => placed.push(utf8(start)),
        (None, None) => placed,
    }
}

/// Registers a worktree without checking it out.
pub open spec fn native_add_at(
    l: Seq<Event>,
    i: int,
    cwd: Seq<u8>,
    destination: Seq<u8>,
    args: AddView,
    checkout_ref: Option<Seq<char>>,
) -> (Option<GitFailureView>, int) {
    let (r, i) = checked_at(
        l,
        i,
        cwd,
        "git worktree add"@,
        add_args(destination, args.detach, checkout_ref, args.start_point),
    );
    (failure_said(r), i)
}

/// Registers a worktree at `destination` without checking it out.
pub fn native_add<H: Host>(
    s: &mut Session<H>,
    cwd: &[u8],
    destination: &[u8],
    args: &AddArgs,
    checkout_ref: &Option<String>,
) -> (r: Result<(), GitFailure>)
    ensures
        extends(final(s).log(), old(s).log()),
        forall|l: Seq<Event>|
            extends(l, final(s).log()) ==> #[trigger] native_add_at(
                l,
                old(s).log().len() as int,
                cwd@,
                destination@,
                args@,
                text_option(*checkout_ref),
            ) == (refused(r), final(s).log().len() as int),
{
    let mut line = words(&["worktree", "add", "--no-checkout", "--no-guess-remote"]);
    let ghost front = seq![
        utf8("worktree"@),
        utf8("add"@),
        utf8("--no-checkout"@),
        utf8("--no-guess-remote"@),
    ];
    assert(views(line@) =~= front);
    if args.detach {
        line.push(word("--detach"));
        assert(views(line@) =~= front.push(utf8("--detach"@)));
    }
    let ghost before = views(line@);
    line.push(copy(destination));
    assert(views(line@) =~= before.push(destination@));
    let ghost placed = views(line@);
    match (checkout_ref, &args.start_point) {
        (Some(reference), _) => {
            line.push(word(reference.as_str()));
            assert(views(line@) =~= placed.push(utf8(reference@)));
        },
        (None, Some(start)) => {
            line.push(word(start.as_str()));
            assert(views(line@) =~= placed.push(utf8(start@)));
        },
        (None, None) => {},
    }
    match checked(s, cwd, "git worktree add", line) {
        Ok(_) => Ok(()),
        Err(failure) => Err(failure),
    }
}

} // verus!
