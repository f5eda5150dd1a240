//! A worktree in a repository that has no commit yet.
use crate::add::branch::{git_error, git_problem};
use crate::add::clean::{backend_label, backend_name, chosen, one_warning};
use crate::add::destination::{
    resolve_destination, resolve_destination_at, validate_destination, validate_destination_at,
};
use crate::add::preflight::{
    check_donor, check_unregistered, common_at, donor_at, find_common, find_donor,
    foreign_donor_at, registered_at,
};
use crate::add::report::{plain_added, plain_worktree, Added, AddedView};
use crate::add::transaction::{
    check_cancelled, check_cancelled_at, fail, fail_at, Transaction, TransactionView,
};
use crate::cli::{AddArgs, AddView};
use crate::doctor::ended;
use crate::error::{problem, ErrorView, HookView, RamizError};
use crate::fsclone::{existing_directory, existing_directory_at, probe, probe_at, Backend};
use crate::git::{
    checked, checked_at, git_path, git_path_at, readonly_status, readonly_status_at, symbolic_head,
    symbolic_head_at, word, words, worktree_registered, worktree_registered_at, GitFailure,
    GitFailureView,
};
use crate::host::{bytes_if, is_directory_at, is_file_at, Event, Host, Session};
use crate::text::{copy, text2, text_views, utf8, views};
use crate::update::io::extends;
use crate::update::model::text_option;
use vstd::prelude::*;

verus! {

/// The donor of an unborn worktree, and the directory that all worktrees
/// share. Only a donor that was asked for is looked at.
#[verifier::opaque]
pub open spec fn unborn_lineage_at(
    l: Seq<Event>,
    i: int,
    args: AddView,
    cwd: Seq<u8>,
    root: Option<Seq<u8>>,
) -> (Result<(Option<Seq<u8>>, Seq<u8>), ErrorView>, int) {
    let (common, i) = common_at(l, i, cwd, args.json);
    match common {
        Err(error) => (Err(error), i),
        Ok(common) => {
            let (donor, i) = donor_at(
                l,
                i,
                args.from,
                root,
                "a bare repository cannot be a donor"@,
                args.json,
            );
            match donor {
                Err(error) => (Err(error), i),
                Ok(donor) => if args.from is None || donor is None {
                    (Ok((donor, common)), i)
                } else {
                    let (foreign, i) = foreign_donor_at(l, i, donor->0, common, args.json);
                    match foreign {
                        Some(error) => (Err(error), i),
                        None => (Ok((donor, common)), i),
                    }
                },
            }
        },
    }
}

fn unborn_lineage<H: Host>(
    s: &mut Session<H>,
    args: &AddArgs,
    cwd: &[u8],
    root: &Option<Vec<u8>>,
) -> (r: Result<(Option<Vec<u8>>, Vec<u8>), RamizError>)
    ensures
        extends(final(s).log(), old(s).log()),
        forall|l: Seq<Event>|
            extends(l, final(s).log()) ==> #[trigger] unborn_lineage_at(
                l,
                old(s).log().len() as int,
                args@,
                cwd@,
                bytes_if(*root),
            ) == (crate::add::clean::traced(r), final(s).log().len() as int),
{
    proof {
        reveal(unborn_lineage_at);
    }
    let common = match find_common(s, cwd, args.json) {
        Ok(common) => common,
        Err(error) => {
            return Err(error);
        },
    };
    let donor = match find_donor(
        s,
        &args.from,
        root,
        "a bare repository cannot be a donor",
        args.json,
    ) {
        Ok(donor) => donor,
        Err(error) => {
            return Err(error);
        },
    };
    match (&args.from, &donor) {
        (Some(_), Some(path)) => match check_donor(
            s,
            path.as_slice(),
            common.as_slice(),
            args.json,
        ) {
            Ok(_) => {},
            Err(error) => {
                return Err(error);
            },
        },
        _ => {},
    }
    Ok((donor, common))
}

/// What is said of every unborn worktree.
pub open spec fn unborn_warning() -> Seq<char> {
    "unborn HEAD follows native Git behavior and does not run post-checkout"@
}

/// The mechanism that would clone files, or none with a warning; where one was
/// demanded, having none is the failure.
#[verifier::opaque]
pub open spec fn unborn_backend_at(
    l: Seq<Event>,
    i: int,
    donor: Option<Seq<u8>>,
    destination: Seq<u8>,
    require_cow: bool,
    json: bool,
) -> (Result<(Option<Backend>, Seq<Seq<char>>), ErrorView>, int) {
    if donor is None {
        (
            if require_cow {
                Err(
                    problem(
                        "missing_donor"@,
                        "a bare unborn repository requires --from for --require-cow"@,
                        json,
                    ),
                )
            } else {
                Ok((None, seq![unborn_warning()]))
            },
            i,
        )
    } else {
        let (directory, i) = existing_directory_at(l, i, destination);
        match directory {
            Err(message) => (Err(problem("invalid_destination"@, message, json)), i),
            Ok(directory) => {
                let (found, i) = probe_at(l, i, directory);
                (
                    match found {
                        Ok(backend) => Ok((Some(backend), seq![unborn_warning()])),
                        Err(reason) => if require_cow {
                            Err(problem("cow_unavailable"@, reason, json))
                        } else {
                            Ok(
                                (
                                    None,
                                    seq![
                                        unborn_warning(),
                                        "copy-on-write unavailable: "@ + reason,
                                    ],
                                ),
                            )
                        },
                    },
                    i,
                )
            },
        }
    }
}

fn unborn_backend<H: Host>(
    s: &mut Session<H>,
    donor: &Option<Vec<u8>>,
    destination: &[u8],
    require_cow: bool,
    json: bool,
) -> (r: Result<(Option<Backend>, Vec<String>), RamizError>)
    ensures
        extends(final(s).log(), old(s).log()),
        forall|l: Seq<Event>|
            extends(l, final(s).log()) ==> #[trigger] unborn_backend_at(
                l,
                old(s).log().len() as int,
                bytes_if(*donor),
                destination@,
                require_cow,
                json,
            ) == (chosen(r), final(s).log().len() as int),
{
    proof {
        reveal(unborn_backend_at);
    }
    let mut warnings = one_warning(
        "unborn HEAD follows native Git behavior and does not run post-checkout".to_owned(),
    );
    if donor.is_none() {
        return if require_cow {
            Err(
                RamizError::new(
                    "missing_donor",
                    "a bare unborn repository requires --from for --require-cow".to_owned(),
                    json,
                ),
            )
        } else {
            Ok((None, warnings))
        };
    }
    let directory = match existing_directory(s, destination) {
        Ok(directory) => directory,
        Err(message) => {
            return Err(RamizError::new("invalid_destination", message, json));
        },
    };
    match probe(s, directory.as_slice()) {
        Ok(backend) => Ok((Some(backend), warnings)),
        Err(reason) => if require_cow {
            Err(RamizError::new("cow_unavailable", reason, json))
        } else {
            let more = text2("copy-on-write unavailable: ", reason.as_str());
            let ghost shown = more@;
            let ghost before = text_views(warnings@);
            warnings.push(more);
            assert(text_views(warnings@) =~= before.push(shown));
            assert(text_views(warnings@) =~= seq![unborn_warning(), shown]);
            Ok((None, warnings))
        },
    }
}

/// Where and how an unborn worktree is made.
pub struct UnbornPlan {
    pub destination: Vec<u8>,
    pub existed_empty: bool,
    pub backend: Option<Backend>,
    pub warnings: Vec<String>,
}

/// The model of an [`UnbornPlan`].
#[verifier::ext_equal]
pub struct UnbornView {
    pub destination: Seq<u8>,
    pub existed_empty: bool,
    pub backend: Option<Backend>,
    pub warnings: Seq<Seq<char>>,
}

impl View for UnbornPlan {
    type V = UnbornView;

    open spec fn view(&self) -> UnbornView {
        UnbornView {
            destination: self.destination@,
            existed_empty: self.existed_empty,
            backend: self.backend,
            warnings: text_views(self.warnings@),
        }
    }
}

/// Settles where and how an unborn worktree is made.
#[verifier::opaque]
pub open spec fn unborn_plan_at(
    l: Seq<Event>,
    i: int,
    args: AddView,
    cwd: Seq<u8>,
    root: Option<Seq<u8>>,
) -> (Result<UnbornView, ErrorView>, int) {
    if args.detach || args.start_point is Some {
        (
            Err(
                problem(
                    "invalid_unborn_target"@,
                    "an unborn repository has no commit for --detach or <start-point>"@,
                    args.json,
                ),
            ),
            i,
        )
    } else {
        let (lineage, i) = unborn_lineage_at(l, i, args, cwd, root);
        match lineage {
            Err(error) => (Err(error), i),
            Ok((donor, common)) => {
                let (destination, i) = resolve_destination_at(l, i, cwd, args.path);
                match destination {
                    Err(message) => (
                        Err(problem("invalid_destination"@, message, args.json)),
                        i,
                    ),
                    Ok(destination) => {
                        let (invalid, i) = validate_destination_at(
                            l,
                            i,
                            destination,
                            root,
                            donor,
                            common,
                            args.json,
                        );
                        match invalid {
                            Some(error) => (Err(error), i),
                            None => {
                                let (known, i) = registered_at(
                                    l,
                                    i,
                                    cwd,
                                    destination,
                                    Seq::empty(),
                                    args.json,
                                );
                                match known {
                                    Some(error) => (Err(error), i),
                                    None => {
                                        let (existed_empty, i) = is_directory_at(
                                            l,
                                            i,
                                            destination,
                                        );
                                        let (backend, i) = unborn_backend_at(
                                            l,
                                            i,
                                            donor,
                                            destination,
                                            args.require_cow,
                                            args.json,
                                        );
                                        (
                                            match backend {
                                                Err(error) => Err(error),
                                                Ok((backend, warnings)) => Ok(
                                                    UnbornView {
                                                        destination,
                                                        existed_empty,
                                                        backend,
                                                        warnings,
                                                    },
                                                ),
                                            },
                                            i,
                                        )
                                    },
                                }
                            },
                        }
                    },
                }
            },
        }
    }
}

fn unborn_plan<H: Host>(
    s: &mut Session<H>,
    args: &AddArgs,
    cwd: &[u8],
    root: &Option<Vec<u8>>,
) -> (r:
    Result<UnbornPlan, RamizError>)
    ensures
        extends(final(s).log(), old(s).log()),
        forall|l: Seq<Event>|
            extends(l, final(s).log()) ==> #[trigger] unborn_plan_at(
                l,
                old(s).log().len() as int,
                args@,
                cwd@,
                bytes_if(*root),
            ) == (ended(r), final(s).log().len() as int),
{
    proof {
        reveal(unborn_plan_at);
    }
    if args.detach || args.start_point.is_some() {
        return Err(
            RamizError::new(
                "invalid_unborn_target",
                "an unborn repository has no commit for --detach or <start-point>".to_owned(),
                args.json,
            ),
        );
    }
    let (donor, common) = match unborn_lineage(s, args, cwd, root) {
        Ok(lineage) => lineage,
        Err(error) => {
            return Err(error);
        },
    };
    let destination = match resolve_destination(s, cwd, args.path.as_slice()) {
        Ok(destination) => destination,
        Err(message) => {
            return Err(RamizError::new("invalid_destination", message, args.json));
        },
    };
    match validate_destination(
        s,
        destination.as_slice(),
        root,
        &donor,
        common.as_slice(),
        args.json,
    ) {
        Ok(_) => {},
        Err(error) => {
            return Err(error);
        },
    }
    proof {
        reveal_strlit("");
        assert(""@ =~= Seq::<char>::empty());
    }
    match check_unregistered(s, cwd, destination.as_slice(), "", args.json) {
        Ok(_) => {},
        Err(error) => {
            return Err(error);
        },
    }
    let existed_empty = s.is_directory(destination.as_slice());
    match unborn_backend(s, &donor, destination.as_slice(), args.require_cow, args.json) {
        Err(error) => Err(error),
        Ok((backend, warnings)) => Ok(
            UnbornPlan { destination, existed_empty, backend, warnings },
        ),
    }
}

/// The command line that makes an unborn worktree.
pub open spec fn unborn_args(branch: Option<Seq<char>>, destination: Seq<u8>) -> Seq<Seq<u8>> {
    let front = seq![
        utf8("worktree"@),
        utf8("add"@),
        utf8("--quiet"@),
        utf8("--no-guess-remote"@),
    ];
    match branch {
        Some(branch) => front.push(utf8("-b"@)).push(utf8(branch)).push(destination),
        None => front.push(destination),
    }
}

fn unborn_words(branch: &Option<String>, destination: &[u8]) -> (r: Vec<Vec<u8>>)
    ensures
        views(r@) == unborn_args(text_option(*branch), destination@),
{
    let mut line = words(&["worktree", "add", "--quiet", "--no-guess-remote"]);
    let ghost front = seq![
        utf8("worktree"@),
        utf8("add"@),
        utf8("--quiet"@),
        utf8("--no-guess-remote"@),
    ];
    assert(views(line@) =~= front);
    match branch {
        Some(branch) => {
            line.push(word("-b"));
            assert(views(line@) =~= front.push(utf8("-b"@)));
            line.push(word(branch.as_str()));
            assert(views(line@) =~= front.push(utf8("-b"@)).push(utf8(branch@)));
        },
        None => {},
    }
    let ghost before = views(line@);
    line.push(copy(destination));
    assert(views(line@) =~= before.push(destination@));
    line
}

/// What Git left is an unborn worktree: known, on a branch, with an index, and
/// empty.
#[verifier::opaque]
pub open spec fn unborn_state_at(
    l: Seq<Event>,
    i: int,
    cwd: Seq<u8>,
    destination: Seq<u8>,
) -> (Result<bool, GitFailureView>, int) {
    let (known, i) = worktree_registered_at(l, i, cwd, destination);
    match known {
        Err(failure) => (Err(failure), i),
        Ok(known) => {
            let (symbolic, i) = symbolic_head_at(l, i, destination);
            match symbolic {
                Err(failure) => (Err(failure), i),
                Ok(symbolic) => {
                    let (index, i) = git_path_at(l, i, destination, "index"@);
                    match index {
                        Err(failure) => (Err(failure), i),
                        Ok(index) => {
                            let (status, i) = readonly_status_at(l, i, destination);
                            match status {
                                Err(failure) => (Err(failure), i),
                                Ok(status) => if !known || symbolic is None {
                                    (Ok(false), i)
                                } else {
                                    let (file, i) = is_file_at(l, i, index);
                                    (Ok(file && status.len() == 0), i)
                                },
                            }
                        },
                    }
                },
            }
        },
    }
}

fn unborn_state<H: Host>(s: &mut Session<H>, cwd: &[u8], destination: &[u8]) -> (r: Result<
    bool,
    GitFailure,
>)
    ensures
        extends(final(s).log(), old(s).log()),
        forall|l: Seq<Event>|
            extends(l, final(s).log()) ==> #[trigger] unborn_state_at(
                l,
                old(s).log().len() as int,
                cwd@,
                destination@,
            ) == (crate::git::said(r), final(s).log().len() as int),
{
    proof {
        reveal(unborn_state_at);
    }
    let known = match worktree_registered(s, cwd, destination) {
        Ok(known) => known,
        Err(failure) => {
            return Err(failure);
        },
    };
    let symbolic = match symbolic_head(s, destination) {
        Ok(symbolic) => symbolic,
        Err(failure) => {
            return Err(failure);
        },
    };
    let index = match git_path(s, destination, "index") {
        Ok(index) => index,
        Err(failure) => {
            return Err(failure);
        },
    };
    let status = match readonly_status(s, destination) {
        Ok(status) => status,
        Err(failure) => {
            return Err(failure);
        },
    };
    if !known || symbolic.is_none() {
        return Ok(false);
    }
    Ok(s.is_file(index.as_slice()) && status.len() == 0)
}

/// What an unborn worktree can take back.
pub open spec fn unborn_transaction(cwd: Seq<u8>, plan: UnbornView) -> TransactionView {
    TransactionView {
        repository: cwd,
        destination: plan.destination,
        existed_empty: plan.existed_empty,
        branch_ref: None,
        created_oid: None,
        registered: true,
        rollback_enabled: true,
    }
}

/// Checks what Git left; the failure takes it away again.
#[verifier::opaque]
pub open spec fn unborn_check_at(
    l: Seq<Event>,
    i: int,
    cwd: Seq<u8>,
    destination: Seq<u8>,
    json: bool,
    t: TransactionView,
) -> (Option<ErrorView>, int) {
    let (stop, i) = check_cancelled_at(l, i, json, t);
    match stop {
        Some(error) => (Some(error), i),
        None => {
            let (valid, i) = unborn_state_at(l, i, cwd, destination);
            match valid {
                Err(failure) => {
                    let (error, i) = fail_at(
                        l,
                        i,
                        git_problem("unborn_verification"@, failure, json),
                        t,
                    );
                    (Some(error), i)
                },
                Ok(false) => {
                    let (error, i) = fail_at(
                        l,
                        i,
                        problem(
                            "unborn_verification_failed"@,
                            "native Git did not leave a valid empty unborn worktree"@,
                            json,
                        ),
                        t,
                    );
                    (Some(error), i)
                },
                Ok(true) => (None, i),
            }
        },
    }
}

fn unborn_check<H: Host>(
    s: &mut Session<H>,
    cwd: &[u8],
    destination: &[u8],
    json: bool,
    t: &mut Transaction,
) -> (r: Result<(), RamizError>)
    ensures
        extends(final(s).log(), old(s).log()),
        forall|l: Seq<Event>|
            extends(l, final(s).log()) ==> #[trigger] unborn_check_at(
                l,
                old(s).log().len() as int,
                cwd@,
                destination@,
                json,
                old(t)@,
            ) == (crate::add::destination::objection(r), final(s).log().len() as int),
        r is Ok ==> *final(t) == *old(t),
        r is Err ==> final(t)@ == (TransactionView { rollback_enabled: false, ..old(t)@ }),
{
    proof {
        reveal(unborn_check_at);
    }
    match check_cancelled(s, json, t) {
        Ok(_) => {},
        Err(error) => {
            return Err(error);
        },
    }
    match unborn_state(s, cwd, destination) {
        Err(failure) => Err(fail(s, git_error("unborn_verification", failure, json), t)),
        Ok(false) => {
            let error = RamizError::new(
                "unborn_verification_failed",
                "native Git did not leave a valid empty unborn worktree".to_owned(),
                json,
            );
            Err(fail(s, error, t))
        },
        Ok(true) => Ok(()),
    }
}

/// Makes the planned unborn worktree, the way Git does it.
#[verifier::opaque]
pub open spec fn unborn_carry_out_at(
    l: Seq<Event>,
    i: int,
    args: AddView,
    cwd: Seq<u8>,
    plan: UnbornView,
) -> (Result<AddedView, ErrorView>, int) {
    let (made, i) = checked_at(
        l,
        i,
        cwd,
        "git unborn worktree add"@,
        unborn_args(args.branch, plan.destination),
    );
    match made {
        Err(failure) => {
            let (known, i) = worktree_registered_at(l, i, cwd, plan.destination);
            let error = git_problem("worktree_add_failed"@, failure, args.json);
            (
                if known == Ok::<bool, GitFailureView>(true) {
                    Err(error.created())
                } else {
                    Err(error)
                },
                i,
            )
        },
        Ok(_) => {
            let (wrong, i) = unborn_check_at(
                l,
                i,
                cwd,
                plan.destination,
                args.json,
                unborn_transaction(cwd, plan),
            );
            (
                match wrong {
                    Some(error) => Err(error),
                    None => Ok(
                        plain_worktree(
                            plan.destination,
                            None,
                            backend_label(plan.backend),
                            0,
                            0,
                            HookView {
                                encoding: "base64"@,
                                stdout: Seq::empty(),
                                stderr: Seq::empty(),
                            },
                            plan.warnings,
                        ),
                    ),
                },
                i,
            )
        },
    }
}

/// Makes an unborn worktree.
#[verifier::opaque]
pub open spec fn run_unborn_at(
    l: Seq<Event>,
    i: int,
    args: AddView,
    cwd: Seq<u8>,
    root: Option<Seq<u8>>,
) -> (Result<AddedView, ErrorView>, int) {
    let (plan, i) = unborn_plan_at(l, i, args, cwd, root);
    match plan {
        Err(error) => (Err(error), i),
        Ok(plan) => unborn_carry_out_at(l, i, args, cwd, plan),
    }
}

fn unborn_carry_out<H: Host>(
    s: &mut Session<H>,
    args: &AddArgs,
    cwd: &[u8],
    plan: UnbornPlan,
) -> (r:
    Result<Added, RamizError>)
    ensures
        extends(final(s).log(), old(s).log()),
        forall|l: Seq<Event>|
            extends(l, final(s).log()) ==> #[trigger] unborn_carry_out_at(
                l,
                old(s).log().len() as int,
                args@,
                cwd@,
                plan@,
            ) == (ended(r), final(s).log().len() as int),
{
    proof {
        reveal(unborn_carry_out_at);
    }
    let line = unborn_words(&args.branch, plan.destination.as_slice());
    match checked(s, cwd, "git unborn worktree add", line) {
        Ok(_) => {},
        Err(failure) => {
            let created: bool = match worktree_registered(s, cwd, plan.destination.as_slice()) {
                Ok(known) => known,
                Err(_) => false,
            };
            let error = git_error("worktree_add_failed", failure, args.json);
            return if created {
                Err(error.worktree_created())
            } else {
                Err(error)
            };
        },
    }
    let mut t = Transaction {
        repository: copy(cwd),
        destination: copy(plan.destination.as_slice()),
        existed_empty: plan.existed_empty,
        branch_ref: None,
        created_oid: None,
        registered: true,
        rollback_enabled: true,
    };
    assert(t@ =~= unborn_transaction(cwd@, plan@));
    match unborn_check(s, cwd, plan.destination.as_slice(), args.json, &mut t) {
        Ok(_) => {},
        Err(error) => {
            return Err(error);
        },
    }
    let hook = crate::error::HookOutput {
        encoding: "base64",
        stdout: String::new(),
        stderr: String::new(),
    };
    assert(hook@ =~= (HookView {
        encoding: "base64"@,
        stdout: Seq::empty(),
        stderr: Seq::empty(),
    }));
    Ok(
        plain_added(
            plan.destination.as_slice(),
            None,
            backend_name(plan.backend),
            0,
            0,
            hook,
            plan.warnings,
        ),
    )
}

/// Makes an unborn worktree.
pub fn run_unborn<H: Host>(
    s: &mut Session<H>,
    args: &AddArgs,
    cwd: &[u8],
    root: &Option<Vec<u8>>,
) -> (r:
    Result<Added, RamizError>)
    ensures
        extends(final(s).log(), old(s).log()),
        forall|l: Seq<Event>|
            extends(l, final(s).log()) ==> #[trigger] run_unborn_at(
                l,
                old(s).log().len() as int,
                args@,
                cwd@,
                bytes_if(*root),
            ) == (ended(r), final(s).log().len() as int),
{
    proof {
        reveal(run_unborn_at);
    }
    match unborn_plan(s, args, cwd, root) {
        Err(error) => Err(error),
        Ok(plan) => unborn_carry_out(s, args, cwd, plan),
    }
}

} // verus!
