//! A clean worktree: what is committed, and nothing else.
use crate::add::branch::{git_error, git_problem, prepare_branch, prepare_branch_at, PreparedBranch};
use crate::add::destination::{
    resolve_destination, resolve_destination_at, validate_destination, validate_destination_at,
};
use crate::add::materialize::{filled, materialize_clean_files, materialize_clean_files_at, Filled};
use crate::add::preflight::{
    check_donor, check_unregistered, common_at, donor_at, find_common, find_donor,
    foreign_donor_at, opened, register, register_at, registered, registered_at, repair_advice,
};
use crate::add::report::{
    plain_added, plain_worktree, post_checkout, post_checkout_at, Added, AddedView,
};
use crate::add::transaction::{
    check_cancelled, check_cancelled_at, fail, fail_at, Transaction, TransactionView,
};
use crate::add::unborn::{run_unborn, run_unborn_at};
use crate::cli::{AddArgs, AddView};
use crate::doctor::ended;
use crate::error::{problem, ErrorView, RamizError};
use crate::fsclone::{existing_directory, existing_directory_at, probe, probe_at, Backend};
use crate::git::{
    checkout_paths, checkout_paths_at, has_any_commit, has_any_commit_at, index_features,
    index_features_at, read_target_index, read_target_index_at, ref_oid, ref_oid_at,
    refresh_and_verify_clean, refresh_and_verify_clean_at, repo_root, repo_root_at,
    require_version, require_version_at, target_failure, target_moved,
};
use crate::host::{bytes_if, current_directory_at, is_directory_at, Event, Host, Session};
use crate::text::{copy, same, text2, text_views, views};
use crate::update::io::extends;
use crate::update::model::{copy_text, text_option};
use vstd::prelude::*;

verus! {

/// Where and how a clean worktree is made.
pub struct Plan {
    pub donor: Option<Vec<u8>>,
    pub destination: Vec<u8>,
    /// The destination is an empty directory.
    pub existed_empty: bool,
    pub backend: Option<Backend>,
    pub warnings: Vec<String>,
}

/// The model of a [`Plan`].
#[verifier::ext_equal]
pub struct PlanView {
    pub donor: Option<Seq<u8>>,
    pub destination: Seq<u8>,
    pub existed_empty: bool,
    pub backend: Option<Backend>,
    pub warnings: Seq<Seq<char>>,
}

impl View for Plan {
    type V = PlanView;

    open spec fn view(&self) -> PlanView {
        PlanView {
            donor: bytes_if(self.donor),
            destination: self.destination@,
            existed_empty: self.existed_empty,
            backend: self.backend,
            warnings: text_views(self.warnings@),
        }
    }
}

// ---------------------------------------------------------------------------
// The mechanism
// ---------------------------------------------------------------------------

/// Why an index keeps clones from being made.
pub open spec fn index_reason(sparse: bool, split: bool) -> Seq<char> {
    if sparse && split {
        "sparse checkout and split index are enabled"@
    } else if sparse {
        "sparse checkout is enabled"@
    } else {
        "split index is enabled"@
    }
}

fn index_words(sparse: bool, split: bool) -> (r: &'static str)
    ensures
        r@ == index_reason(sparse, split),
{
    if sparse && split {
        "sparse checkout and split index are enabled"
    } else if sparse {
        "sparse checkout is enabled"
    } else {
        "split index is enabled"
    }
}

/// Whether the index of the donor, if there is one, is sparse, and whether it
/// is split.
pub open spec fn features_at(l: Seq<Event>, i: int, donor: Option<Seq<u8>>, json: bool) -> (
    Result<(bool, bool), ErrorView>,
    int,
) {
    match donor {
        None => (Ok((false, false)), i),
        Some(donor) => {
            let (r, i) = index_features_at(l, i, donor);
            (
                match r {
                    Ok(features) => Ok(features),
                    Err(failure) => Err(git_problem("index_feature_detection"@, failure, json)),
                },
                i,
            )
        },
    }
}

fn find_features<H: Host>(s: &mut Session<H>, donor: &Option<Vec<u8>>, json: bool) -> (r: Result<
    (bool, bool),
    RamizError,
>)
    ensures
        extends(final(s).log(), old(s).log()),
        forall|l: Seq<Event>|
            extends(l, final(s).log()) ==> #[trigger] features_at(
                l,
                old(s).log().len() as int,
                bytes_if(*donor),
                json,
            ) == (ended(r), final(s).log().len() as int),
{
    match donor {
        None => Ok((false, false)),
        Some(donor) => match index_features(s, donor.as_slice()) {
            Ok(features) => Ok(features),
            Err(failure) => Err(git_error("index_feature_detection", failure, json)),
        },
    }
}

/// The mechanism that clones files, or none with a warning; where one was
/// demanded, having none is the failure.
#[verifier::opaque]
pub open spec fn backend_at(
    l: Seq<Event>,
    i: int,
    donor: Option<Seq<u8>>,
    directory: Seq<u8>,
    require_cow: bool,
    json: bool,
) -> (Result<(Option<Backend>, Seq<Seq<char>>), ErrorView>, int) {
    let (features, i) = features_at(l, i, donor, json);
    match features {
        Err(error) => (Err(error), i),
        Ok((sparse, split)) => if sparse || split {
            let reason = index_reason(sparse, split);
            (
                if require_cow {
                    Err(problem("cow_unsupported_index"@, reason, json))
                } else {
                    Ok((None, seq!["copy-on-write skipped: "@ + reason]))
                },
                i,
            )
        } else if donor is None {
            (
                if require_cow {
                    Err(
                        problem(
                            "missing_donor"@,
                            "a bare repository requires --from for copy-on-write creation"@,
                            json,
                        ),
                    )
                } else {
                    Ok((None, seq!["copy-on-write skipped: bare repository has no donor"@]))
                },
                i,
            )
        } else {
            let (found, i) = probe_at(l, i, directory);
            (
                match found {
                    Ok(backend) => Ok((Some(backend), Seq::empty())),
                    Err(reason) => if require_cow {
                        Err(problem("cow_unavailable"@, reason, json))
                    } else {
                        Ok((None, seq!["copy-on-write unavailable: "@ + reason]))
                    },
                },
                i,
            )
        },
    }
}

/// The view of a mechanism with its warnings, or of the failure.
pub open spec fn chosen(r: Result<(Option<Backend>, Vec<String>), RamizError>) -> Result<
    (Option<Backend>, Seq<Seq<char>>),
    ErrorView,
> {
    match r {
        Ok((backend, warnings)) => Ok((backend, text_views(warnings@))),
        Err(error) => Err(error@),
    }
}

/// One warning.
pub fn one_warning(text: String) -> (r: Vec<String>)
    ensures
        text_views(r@) == seq![text@],
{
    let mut out: Vec<String> = Vec::new();
    let ghost shown = text@;
    out.push(text);
    assert(text_views(out@) =~= seq![shown]);
    out
}

/// The mechanism that clones files in `directory`.
pub fn choose_backend<H: Host>(
    s: &mut Session<H>,
    donor: &Option<Vec<u8>>,
    directory: &[u8],
    require_cow: bool,
    json: bool,
) -> (r: Result<(Option<Backend>, Vec<String>), RamizError>)
    ensures
        extends(final(s).log(), old(s).log()),
        forall|l: Seq<Event>|
            extends(l, final(s).log()) ==> #[trigger] backend_at(
                l,
                old(s).log().len() as int,
                bytes_if(*donor),
                directory@,
                require_cow,
                json,
            ) == (chosen(r), final(s).log().len() as int),
{
    proof {
        reveal(backend_at);
    }
    let (sparse, split) = match find_features(s, donor, json) {
        Ok(features) => features,
        Err(error) => {
            return Err(error);
        },
    };
    if sparse || split {
        let reason = index_words(sparse, split);
        return if require_cow {
            Err(RamizError::new("cow_unsupported_index", reason.to_owned(), json))
        } else {
            Ok((None, one_warning(text2("copy-on-write skipped: ", reason))))
        };
    }
    if donor.is_none() {
        return if require_cow {
            Err(
                RamizError::new(
                    "missing_donor",
                    "a bare repository requires --from for copy-on-write creation".to_owned(),
                    json,
                ),
            )
        } else {
            Ok(
                (
                    None,
                    one_warning("copy-on-write skipped: bare repository has no donor".to_owned()),
                ),
            )
        };
    }
    match probe(s, directory) {
        Ok(backend) => {
            let none: Vec<String> = Vec::new();
            assert(text_views(none@) =~= Seq::<Seq<char>>::empty());
            Ok((Some(backend), none))
        },
        Err(reason) => if require_cow {
            Err(RamizError::new("cow_unavailable", reason, json))
        } else {
            Ok((None, one_warning(text2("copy-on-write unavailable: ", reason.as_str()))))
        },
    }
}

// ---------------------------------------------------------------------------
// The plan
// ---------------------------------------------------------------------------

/// The donor of a clean worktree, and the directory that all worktrees share.
#[verifier::opaque]
pub open spec fn lineage_at(
    l: Seq<Event>,
    i: int,
    args: AddView,
    cwd: Seq<u8>,
    root: Option<Seq<u8>>,
) -> (Result<(Option<Seq<u8>>, Seq<u8>), ErrorView>, int) {
    let (donor, i) = donor_at(
        l,
        i,
        args.from,
        root,
        "a bare repository cannot be a donor"@,
        args.json,
    );
    match donor {
        Err(error) => (Err(error), i),
        Ok(donor) => {
            let (common, i) = common_at(l, i, cwd, args.json);
            match common {
                Err(error) => (Err(error), i),
                Ok(common) => match donor {
                    None => (Ok((donor, common)), i),
                    Some(path) => {
                        let (foreign, i) = foreign_donor_at(l, i, path, common, args.json);
                        match foreign {
                            Some(error) => (Err(error), i),
                            None => (Ok((donor, common)), i),
                        }
                    },
                },
            }
        },
    }
}

/// The view of a lineage, or of the failure.
pub open spec fn traced(r: Result<(Option<Vec<u8>>, Vec<u8>), RamizError>) -> Result<
    (Option<Seq<u8>>, Seq<u8>),
    ErrorView,
> {
    match r {
        Ok((donor, common)) => Ok((bytes_if(donor), common@)),
        Err(error) => Err(error@),
    }
}

fn trace_lineage<H: Host>(
    s: &mut Session<H>,
    args: &AddArgs,
    cwd: &[u8],
    root: &Option<Vec<u8>>,
) -> (r: Result<(Option<Vec<u8>>, Vec<u8>), RamizError>)
    ensures
        extends(final(s).log(), old(s).log()),
        forall|l: Seq<Event>|
            extends(l, final(s).log()) ==> #[trigger] lineage_at(
                l,
                old(s).log().len() as int,
                args@,
                cwd@,
                bytes_if(*root),
            ) == (traced(r), final(s).log().len() as int),
{
    proof {
        reveal(lineage_at);
    }
    let donor = match find_donor(
        s,
        &args.from,
        root,
        "a bare repository cannot be a donor",
        args.json,
    ) {
        Ok(donor) => donor,
        Err(error) => {
            return Err(error);
        },
    };
    let common = match find_common(s, cwd, args.json) {
        Ok(common) => common,
        Err(error) => {
            return Err(error);
        },
    };
    match &donor {
        None => {},
        Some(path) => match check_donor(s, path.as_slice(), common.as_slice(), args.json) {
            Ok(_) => {},
            Err(error) => {
                return Err(error);
            },
        },
    }
    Ok((donor, common))
}

/// Settles where and how a clean worktree is made. Nothing is made yet, but
/// for what a probe makes and removes.
#[verifier::opaque]
pub open spec fn plan_at(
    l: Seq<Event>,
    i: int,
    args: AddView,
    cwd: Seq<u8>,
    root: Option<Seq<u8>>,
) -> (Result<PlanView, ErrorView>, int) {
    let (lineage, i) = lineage_at(l, i, args, cwd, root);
    match lineage {
        Err(error) => (Err(error), i),
        Ok((donor, common)) => {
            let (destination, i) = resolve_destination_at(l, i, cwd, args.path);
            match destination {
                Err(message) => (
                    Err(problem("invalid_destination"@, message, args.json)),
                    i,
                ),
                Ok(destination) => {
                    let (invalid, i) = validate_destination_at(
                        l,
                        i,
                        destination,
                        root,
                        donor,
                        common,
                        args.json,
                    );
                    match invalid {
                        Some(error) => (Err(error), i),
                        None => {
                            let (existed_empty, i) = is_directory_at(l, i, destination);
                            let (directory, i) = existing_directory_at(l, i, destination);
                            match directory {
                                Err(message) => (
                                    Err(problem("invalid_destination"@, message, args.json)),
                                    i,
                                ),
                                Ok(directory) => {
                                    let (backend, i) = backend_at(
                                        l,
                                        i,
                                        donor,
                                        directory,
                                        args.require_cow,
                                        args.json,
                                    );
                                    match backend {
                                        Err(error) => (Err(error), i),
                                        Ok((backend, warnings)) => {
                                            let (known, i) = registered_at(
                                                l,
                                                i,
                                                cwd,
                                                destination,
                                                repair_advice(),
                                                args.json,
                                            );
                                            match known {
                                                Some(error) => (Err(error), i),
                                                None => (
                                                    Ok(
                                                        PlanView {
                                                            donor,
                                                            destination,
                                                            existed_empty,
                                                            backend,
                                                            warnings,
                                                        },
                                                    ),
                                                    i,
                                                ),
                                            }
                                        },
                                    }
                                },
                            }
                        },
                    }
                },
            }
        },
    }
}

fn make_plan<H: Host>(s: &mut Session<H>, args: &AddArgs, cwd: &[u8], root: &Option<Vec<u8>>) -> (r:
    Result<Plan, RamizError>)
    ensures
        extends(final(s).log(), old(s).log()),
        forall|l: Seq<Event>|
            extends(l, final(s).log()) ==> #[trigger] plan_at(
                l,
                old(s).log().len() as int,
                args@,
                cwd@,
                bytes_if(*root),
            ) == (ended(r), final(s).log().len() as int),
{
    proof {
        reveal(plan_at);
    }
    let (donor, common) = match trace_lineage(s, args, cwd, root) {
        Ok(lineage) => lineage,
        Err(error) => {
            return Err(error);
        },
    };
    let destination = match resolve_destination(s, cwd, args.path.as_slice()) {
        Ok(destination) => destination,
        Err(message) => {
            return Err(RamizError::new("invalid_destination", message, args.json));
        },
    };
    match validate_destination(
        s,
        destination.as_slice(),
        root,
        &donor,
        common.as_slice(),
        args.json,
    ) {
        Ok(_) => {},
        Err(error) => {
            return Err(error);
        },
    }
    let existed_empty = s.is_directory(destination.as_slice());
    let directory = match existing_directory(s, destination.as_slice()) {
        Ok(directory) => directory,
        Err(message) => {
            return Err(RamizError::new("invalid_destination", message, args.json));
        },
    };
    let (backend, warnings) = match choose_backend(
        s,
        &donor,
        directory.as_slice(),
        args.require_cow,
        args.json,
    ) {
        Ok(choice) => choice,
        Err(error) => {
            return Err(error);
        },
    };
    match check_unregistered(
        s,
        cwd,
        destination.as_slice(),
        "; use `git worktree repair` or `git worktree prune`",
        args.json,
    ) {
        Ok(_) => {},
        Err(error) => {
            return Err(error);
        },
    }
    Ok(Plan { donor, destination, existed_empty, backend, warnings })
}

// ---------------------------------------------------------------------------
// The worktree
// ---------------------------------------------------------------------------

/// What speaks against the commit of a registered worktree: it is not the
/// expected one.
pub open spec fn moved_at(
    l: Seq<Event>,
    i: int,
    expected: Option<Seq<char>>,
    target: Seq<char>,
    json: bool,
    t: TransactionView,
) -> (Option<ErrorView>, int) {
    match expected {
        None => (None, i),
        Some(expected) => if expected == target {
            (None, i)
        } else {
            let (error, i) = fail_at(
                l,
                i,
                git_problem("target_changed"@, target_moved(expected, target), json),
                t,
            );
            (Some(error), i)
        },
    }
}

fn check_target<H: Host>(
    s: &mut Session<H>,
    expected: &Option<String>,
    target: &str,
    json: bool,
    t: &mut Transaction,
) -> (r: Result<(), RamizError>)
    ensures
        extends(final(s).log(), old(s).log()),
        forall|l: Seq<Event>|
            extends(l, final(s).log()) ==> #[trigger] moved_at(
                l,
                old(s).log().len() as int,
                text_option(*expected),
                target@,
                json,
                old(t)@,
            ) == (crate::add::destination::objection(r), final(s).log().len() as int),
        r is Ok ==> *final(t) == *old(t),
        r is Err ==> final(t)@ == (TransactionView { rollback_enabled: false, ..old(t)@ }),
{
    match expected {
        None => Ok(()),
        Some(expected) => if same(expected.as_str(), target) {
            Ok(())
        } else {
            let failure = target_failure(expected.as_str(), target);
            Err(fail(s, git_error("target_changed", failure, json), t))
        },
    }
}

/// Fills a registered worktree: with clones, and through Git.
#[verifier::opaque]
pub open spec fn fill_at(
    l: Seq<Event>,
    i: int,
    plan: PlanView,
    target: Seq<char>,
    json: bool,
    t: TransactionView,
) -> (Result<Filled, ErrorView>, int) {
    let (entries, i) = read_target_index_at(l, i, plan.destination, target);
    match entries {
        Err(failure) => {
            let (error, i) = fail_at(
                l,
                i,
                git_problem("index_materialization"@, failure, json),
                t,
            );
            (Err(error), i)
        },
        Ok(entries) => {
            let (done, i) = materialize_clean_files_at(
                l,
                i,
                entries,
                plan.donor,
                plan.destination,
                plan.backend,
                json,
                t,
            );
            match done {
                Err(error) => (Err(error), i),
                Ok(done) => {
                    let (refused, i) = checkout_paths_at(l, i, plan.destination, done.git_paths);
                    match refused {
                        Some(failure) => {
                            let (error, i) = fail_at(
                                l,
                                i,
                                git_problem("checkout_failed"@, failure, json),
                                t,
                            );
                            (Err(error), i)
                        },
                        None => {
                            let (stop, i) = check_cancelled_at(l, i, json, t);
                            match stop {
                                Some(error) => (Err(error), i),
                                None => {
                                    let (dirty, i) = refresh_and_verify_clean_at(
                                        l,
                                        i,
                                        plan.destination,
                                    );
                                    match dirty {
                                        Some(failure) => {
                                            let (error, i) = fail_at(
                                                l,
                                                i,
                                                git_problem(
                                                    "verification_failed"@,
                                                    failure,
                                                    json,
                                                ),
                                                t,
                                            );
                                            (Err(error), i)
                                        },
                                        None => (Ok(done), i),
                                    }
                                },
                            }
                        },
                    }
                },
            }
        },
    }
}

fn fill<H: Host>(
    s: &mut Session<H>,
    plan: &Plan,
    target: &str,
    json: bool,
    t: &mut Transaction,
) -> (r:
    Result<(usize, Vec<Vec<u8>>), RamizError>)
    ensures
        extends(final(s).log(), old(s).log()),
        forall|l: Seq<Event>|
            extends(l, final(s).log()) ==> #[trigger] fill_at(
                l,
                old(s).log().len() as int,
                plan@,
                target@,
                json,
                old(t)@,
            ) == (filled(r), final(s).log().len() as int),
        r is Ok ==> *final(t) == *old(t),
        r is Err ==> final(t)@ == (TransactionView { rollback_enabled: false, ..old(t)@ }),
{
    proof {
        reveal(fill_at);
    }
    let destination = plan.destination.as_slice();
    let entries = match read_target_index(s, destination, target) {
        Ok(entries) => entries,
        Err(failure) => {
            return Err(fail(s, git_error("index_materialization", failure, json), t));
        },
    };
    let (cow_files, git_paths) = match materialize_clean_files(
        s,
        &entries,
        &plan.donor,
        destination,
        plan.backend,
        json,
        t,
    ) {
        Ok(done) => done,
        Err(error) => {
            return Err(error);
        },
    };
    match checkout_paths(s, destination, &git_paths) {
        Ok(_) => {},
        Err(failure) => {
            return Err(fail(s, git_error("checkout_failed", failure, json), t));
        },
    }
    match check_cancelled(s, json, t) {
        Ok(_) => {},
        Err(error) => {
            return Err(error);
        },
    }
    match refresh_and_verify_clean(s, destination) {
        Ok(_) => Ok((cow_files, git_paths)),
        Err(failure) => Err(fail(s, git_error("verification_failed", failure, json), t)),
    }
}

/// The name of a mechanism, or of having none.
pub open spec fn backend_label(backend: Option<Backend>) -> Seq<char> {
    match backend {
        Some(backend) => backend.label(),
        None => "checkout"@,
    }
}

/// The name of a mechanism, or of having none.
pub fn backend_name(backend: Option<Backend>) -> (r: &'static str)
    ensures
        r@ == backend_label(backend),
{
    match backend {
        Some(backend) => backend.as_str(),
        None => "checkout",
    }
}

/// Makes the planned worktree.
#[verifier::opaque]
pub open spec fn carry_out_at(
    l: Seq<Event>,
    i: int,
    args: AddView,
    cwd: Seq<u8>,
    plan: PlanView,
) -> (
    Result<AddedView, ErrorView>,
    int,
) {
    let (prepared, i) = prepare_branch_at(l, i, cwd, plan.destination, args);
    match prepared {
        Err(error) => (Err(error), i),
        Ok(prepared) => {
            let t = opened(cwd, plan.destination, plan.existed_empty, prepared);
            let (target, i) = register_at(l, i, args, prepared, t);
            match target {
                Err(error) => (Err(error), i),
                Ok(target) => {
                    let t = registered(t);
                    let (moved, i) = moved_at(
                        l,
                        i,
                        prepared.expected_target,
                        target,
                        args.json,
                        t,
                    );
                    match moved {
                        Some(error) => (Err(error), i),
                        None => {
                            let (done, i) = fill_at(l, i, plan, target, args.json, t);
                            match done {
                                Err(error) => (Err(error), i),
                                Ok(done) => {
                                    let (hook, i) = post_checkout_at(
                                        l,
                                        i,
                                        plan.destination,
                                        target,
                                        args.json,
                                    );
                                    (
                                        match hook {
                                            Err(error) => Err(error),
                                            Ok(hook) => Ok(
                                                plain_worktree(
                                                    plan.destination,
                                                    Some(target),
                                                    backend_label(plan.backend),
                                                    done.cow_files,
                                                    done.git_paths.len() as int,
                                                    hook,
                                                    plan.warnings,
                                                ),
                                            ),
                                        },
                                        i,
                                    )
                                },
                            }
                        },
                    }
                },
            }
        },
    }
}

/// What the new worktree can take back before it is registered.
pub fn open_transaction(
    cwd: &[u8],
    destination: &[u8],
    existed_empty: bool,
    prepared: &PreparedBranch,
) -> (r: Transaction)
    ensures
        r@ == opened(cwd@, destination@, existed_empty, prepared@),
{
    Transaction {
        repository: copy(cwd),
        destination: copy(destination),
        existed_empty,
        branch_ref: copy_text(&prepared.owned_ref),
        created_oid: copy_text(&prepared.owned_oid),
        registered: false,
        rollback_enabled: true,
    }
}

fn carry_out<H: Host>(s: &mut Session<H>, args: &AddArgs, cwd: &[u8], plan: Plan) -> (r: Result<
    Added,
    RamizError,
>)
    ensures
        extends(final(s).log(), old(s).log()),
        forall|l: Seq<Event>|
            extends(l, final(s).log()) ==> #[trigger] carry_out_at(
                l,
                old(s).log().len() as int,
                args@,
                cwd@,
                plan@,
            ) == (ended(r), final(s).log().len() as int),
{
    proof {
        reveal(carry_out_at);
    }
    let prepared = match prepare_branch(s, cwd, plan.destination.as_slice(), args) {
        Ok(prepared) => prepared,
        Err(error) => {
            return Err(error);
        },
    };
    let mut t = open_transaction(
        cwd,
        plan.destination.as_slice(),
        plan.existed_empty,
        &prepared,
    );
    let target = match register(s, args, &prepared, &mut t) {
        Ok(target) => target,
        Err(error) => {
            return Err(error);
        },
    };
    match check_target(s, &prepared.expected_target, target.as_str(), args.json, &mut t) {
        Ok(_) => {},
        Err(error) => {
            return Err(error);
        },
    }
    let (cow_files, git_paths) = match fill(s, &plan, target.as_str(), args.json, &mut t) {
        Ok(done) => done,
        Err(error) => {
            return Err(error);
        },
    };
    let hook = match post_checkout(s, plan.destination.as_slice(), target.as_str(), args.json) {
        Ok(hook) => hook,
        Err(error) => {
            return Err(error);
        },
    };
    assert(views(git_paths@).len() == git_paths@.len());
    Ok(
        plain_added(
            plan.destination.as_slice(),
            Some(target),
            backend_name(plan.backend),
            cow_files,
            git_paths.len(),
            hook,
            plan.warnings,
        ),
    )
}

/// The current directory, in which Git is recent enough, and the root of its
/// working tree.
#[verifier::opaque]
pub open spec fn start_at(l: Seq<Event>, i: int, json: bool) -> (
    Result<(Seq<u8>, Option<Seq<u8>>), ErrorView>,
    int,
) {
    let (cwd, i) = current_directory_at(l, i);
    match cwd {
        Err(error) => (Err(problem("current_directory"@, error, json)), i),
        Ok(cwd) => {
            let (version, i) = require_version_at(l, i, cwd);
            match version {
                Err(failure) => (Err(git_problem("git_version"@, failure, json)), i),
                Ok(_) => {
                    let (root, i) = repo_root_at(l, i, cwd);
                    (
                        match root {
                            Err(failure) => Err(
                                git_problem("not_a_repository"@, failure, json),
                            ),
                            Ok(root) => Ok((cwd, root)),
                        },
                        i,
                    )
                },
            }
        },
    }
}

/// The view of a start, or of the failure.
pub open spec fn started(r: Result<(Vec<u8>, Option<Vec<u8>>), RamizError>) -> Result<
    (Seq<u8>, Option<Seq<u8>>),
    ErrorView,
> {
    match r {
        Ok((cwd, root)) => Ok((cwd@, bytes_if(root))),
        Err(error) => Err(error@),
    }
}

/// The current directory and the root of its working tree.
pub fn start<H: Host>(s: &mut Session<H>, json: bool) -> (r: Result<
    (Vec<u8>, Option<Vec<u8>>),
    RamizError,
>)
    ensures
        extends(final(s).log(), old(s).log()),
        forall|l: Seq<Event>|
            extends(l, final(s).log()) ==> #[trigger] start_at(
                l,
                old(s).log().len() as int,
                json,
            ) == (started(r), final(s).log().len() as int),
{
    proof {
        reveal(start_at);
    }
    let cwd = match s.current_directory() {
        Ok(cwd) => cwd,
        Err(error) => {
            return Err(RamizError::new("current_directory", error, json));
        },
    };
    match require_version(s, cwd.as_slice()) {
        Ok(_) => {},
        Err(failure) => {
            return Err(git_error("git_version", failure, json));
        },
    }
    match repo_root(s, cwd.as_slice()) {
        Ok(root) => Ok((cwd, root)),
        Err(failure) => Err(git_error("not_a_repository", failure, json)),
    }
}

/// Makes a clean worktree; in a repository without a commit, an unborn one.
#[verifier::opaque]
pub open spec fn run_clean_at(l: Seq<Event>, i: int, args: AddView) -> (
    Result<AddedView, ErrorView>,
    int,
) {
    let (begun, i) = start_at(l, i, args.json);
    match begun {
        Err(error) => (Err(error), i),
        Ok((cwd, root)) => {
            let (head, i) = ref_oid_at(l, i, cwd, "HEAD"@);
            match head {
                Err(failure) => (Err(git_problem("head_preflight"@, failure, args.json)), i),
                Ok(None) => {
                    let (any, i) = has_any_commit_at(l, i, cwd);
                    match any {
                        Err(failure) => (
                            Err(git_problem("head_preflight"@, failure, args.json)),
                            i,
                        ),
                        Ok(true) => (
                            Err(
                                problem(
                                    "invalid_head"@,
                                    "HEAD does not resolve although the repository contains commits"@,
                                    args.json,
                                ),
                            ),
                            i,
                        ),
                        Ok(false) => run_unborn_at(l, i, args, cwd, root),
                    }
                },
                Ok(Some(_)) => {
                    let (plan, i) = plan_at(l, i, args, cwd, root);
                    match plan {
                        Err(error) => (Err(error), i),
                        Ok(plan) => carry_out_at(l, i, args, cwd, plan),
                    }
                },
            }
        },
    }
}

/// Makes a clean worktree; in a repository without a commit, an unborn one.
pub fn run_clean<H: Host>(s: &mut Session<H>, args: &AddArgs) -> (r: Result<Added, RamizError>)
    ensures
        extends(final(s).log(), old(s).log()),
        forall|l: Seq<Event>|
            extends(l, final(s).log()) ==> #[trigger] run_clean_at(
                l,
                old(s).log().len() as int,
                args@,
            ) == (ended(r), final(s).log().len() as int),
{
    proof {
        reveal(run_clean_at);
    }
    let (cwd, root) = match start(s, args.json) {
        Ok(begun) => begun,
        Err(error) => {
            return Err(error);
        },
    };
    match ref_oid(s, cwd.as_slice(), "HEAD") {
        Err(failure) => Err(git_error("head_preflight", failure, args.json)),
        Ok(None) => match has_any_commit(s, cwd.as_slice()) {
            Err(failure) => Err(git_error("head_preflight", failure, args.json)),
            Ok(true) => Err(
                RamizError::new(
                    "invalid_head",
                    "HEAD does not resolve although the repository contains commits".to_owned(),
                    args.json,
                ),
            ),
            Ok(false) => run_unborn(s, args, cwd.as_slice(), &root),
        },
        Ok(Some(_)) => match make_plan(s, args, cwd.as_slice(), &root) {
            Err(error) => Err(error),
            Ok(plan) => carry_out(s, args, cwd.as_slice(), plan),
        },
    }
}

} // verus!
