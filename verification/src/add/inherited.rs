//! A worktree that inherits the complete state of its donor.
use crate::add::branch::{
    git_error, git_problem, intended_target, intended_target_at, prepare_branch, prepare_branch_at,
};
use crate::add::clean::{one_warning, open_transaction, start, start_at};
use crate::add::destination::{
    objection, resolve_destination, resolve_destination_at, validate_destination,
    validate_destination_at,
};
use crate::add::links::{
    collect_links, collect_links_at, link_paths, link_views, materialize_target_symlinks,
    materialize_target_symlinks_at, paths_of, validate_target_symlink_ancestors,
    validate_target_symlink_ancestors_at, LinkView, TargetLink,
};
use crate::add::preflight::{
    check_donor, check_unregistered, common_at, donor_at, find_common, find_donor,
    foreign_donor_at, opened, register, register_at, registered, registered_at, repair_advice,
};
use crate::add::report::{post_checkout, post_checkout_at, AddData, Added, AddedView};
use crate::add::transaction::{
    check_cancelled, check_cancelled_at, fail, fail_at, Transaction, TransactionView,
};
use crate::cli::{AddArgs, AddView};
use crate::doctor::ended;
use crate::error::{problem, ErrorView, HookOutput, HookView, RamizError};
use crate::fsclone::{existing_directory, existing_directory_at, probe, probe_at, Backend};
use crate::git::{
    disable_index_caches, disable_index_caches_at, git_path, git_path_at, head_oid, head_oid_at,
    index_features, index_features_at, install_index, install_index_at, logical_index,
    logical_index_at, read_target_index, read_target_index_at, readonly_status, readonly_status_at,
    symbolic_head, symbolic_head_at,
};
use crate::host::{is_directory_at, on_linux_at, read_file_at, Event, Host, Session};
use crate::inherit::{
    finalize_directories, finalize_directories_at, materialize, materialize_at, snapshot,
    snapshot_at, verify_unchanged, verify_unchanged_at, Report, ReportView, Snapshot, SnapshotView,
};
use crate::output::{encode_all, encoded, EncodedPath};
use crate::path::{path_starts_with, steps};
use crate::text::{append_texts, begins, copy, same, same_bytes, text2, text4, text_views};
use crate::update::io::extends;
use crate::update::model::text_option;
use vstd::prelude::*;

verus! {

// ---------------------------------------------------------------------------
// The place
// ---------------------------------------------------------------------------

/// Where a worktree inherits from, and where it goes.
pub struct Place {
    pub cwd: Vec<u8>,
    pub donor: Vec<u8>,
    pub destination: Vec<u8>,
}

/// The model of a [`Place`].
#[verifier::ext_equal]
pub struct PlaceView {
    pub cwd: Seq<u8>,
    pub donor: Seq<u8>,
    pub destination: Seq<u8>,
}

impl View for Place {
    type V = PlaceView;

    open spec fn view(&self) -> PlaceView {
        PlaceView { cwd: self.cwd@, donor: self.donor@, destination: self.destination@ }
    }
}

/// The current directory, the root of its working tree, and the donor.
#[verifier::opaque]
pub open spec fn ancestry_at(l: Seq<Event>, i: int, args: AddView) -> (
    Result<(Seq<u8>, Seq<u8>, Seq<u8>, Seq<u8>), ErrorView>,
    int,
) {
    let (begun, i) = start_at(l, i, args.json);
    match begun {
        Err(error) => (Err(error), i),
        Ok((cwd, None)) => (
            Err(
                problem(
                    "inheritance_requires_worktree"@,
                    "complete inheritance requires a non-bare invoking worktree"@,
                    args.json,
                ),
            ),
            i,
        ),
        Ok((cwd, Some(root))) => {
            let (donor, i) = donor_at(
                l,
                i,
                args.from,
                Some(root),
                "a bare repository cannot be an inheritance donor"@,
                args.json,
            );
            match donor {
                Err(error) => (Err(error), i),
                Ok(donor) => {
                    let donor = match donor {
                        Some(donor) => donor,
                        None => root,
                    };
                    let (common, i) = common_at(l, i, cwd, args.json);
                    match common {
                        Err(error) => (Err(error), i),
                        Ok(common) => {
                            let (foreign, i) = foreign_donor_at(
                                l,
                                i,
                                donor,
                                common,
                                args.json,
                            );
                            match foreign {
                                Some(error) => (Err(error), i),
                                None => (Ok((cwd, root, donor, common)), i),
                            }
                        },
                    }
                },
            }
        },
    }
}

/// The view of an ancestry, or of the failure.
pub open spec fn ancestry(r: Result<(Vec<u8>, Vec<u8>, Vec<u8>, Vec<u8>), RamizError>) -> Result<
    (Seq<u8>, Seq<u8>, Seq<u8>, Seq<u8>),
    ErrorView,
> {
    match r {
        Ok((cwd, root, donor, common)) => Ok((cwd@, root@, donor@, common@)),
        Err(error) => Err(error@),
    }
}

fn find_ancestry<H: Host>(s: &mut Session<H>, args: &AddArgs) -> (r: Result<
    (Vec<u8>, Vec<u8>, Vec<u8>, Vec<u8>),
    RamizError,
>)
    ensures
        extends(final(s).log(), old(s).log()),
        forall|l: Seq<Event>|
            extends(l, final(s).log()) ==> #[trigger] ancestry_at(
                l,
                old(s).log().len() as int,
                args@,
            ) == (ancestry(r), final(s).log().len() as int),
{
    proof {
        reveal(ancestry_at);
    }
    let (cwd, root) = match start(s, args.json) {
        Ok(begun) => begun,
        Err(error) => {
            return Err(error);
        },
    };
    let root = match root {
        Some(root) => root,
        None => {
            return Err(
                RamizError::new(
                    "inheritance_requires_worktree",
                    "complete inheritance requires a non-bare invoking worktree".to_owned(),
                    args.json,
                ),
            );
        },
    };
    let at_hand: Option<Vec<u8>> = Some(copy(root.as_slice()));
    let donor = match find_donor(
        s,
        &args.from,
        &at_hand,
        "a bare repository cannot be an inheritance donor",
        args.json,
    ) {
        Ok(Some(donor)) => donor,
        Ok(None) => copy(root.as_slice()),
        Err(error) => {
            return Err(error);
        },
    };
    let common = match find_common(s, cwd.as_slice(), args.json) {
        Ok(common) => common,
        Err(error) => {
            return Err(error);
        },
    };
    match check_donor(s, donor.as_slice(), common.as_slice(), args.json) {
        Ok(_) => Ok((cwd, root, donor, common)),
        Err(error) => Err(error),
    }
}

/// Settles where a worktree inherits from and where it goes: outside of the
/// donor, where Git has none yet.
#[verifier::opaque]
pub open spec fn place_at(l: Seq<Event>, i: int, args: AddView) -> (
    Result<PlaceView, ErrorView>,
    int,
) {
    let (found, i) = ancestry_at(l, i, args);
    match found {
        Err(error) => (Err(error), i),
        Ok((cwd, root, donor, common)) => {
            let (destination, i) = resolve_destination_at(l, i, cwd, args.path);
            match destination {
                Err(message) => (
                    Err(problem("invalid_destination"@, message, args.json)),
                    i,
                ),
                Ok(destination) => {
                    let (invalid, i) = validate_destination_at(
                        l,
                        i,
                        destination,
                        Some(root),
                        Some(donor),
                        common,
                        args.json,
                    );
                    match invalid {
                        Some(error) => (Err(error), i),
                        None => if begins(steps(destination), steps(donor)) || begins(
                            steps(donor),
                            steps(destination),
                        ) {
                            (
                                Err(
                                    problem(
                                        "inheritance_destination_overlap"@,
                                        "complete inheritance requires a destination outside the donor tree"@,
                                        args.json,
                                    ),
                                ),
                                i,
                            )
                        } else {
                            let (known, i) = registered_at(
                                l,
                                i,
                                cwd,
                                destination,
                                repair_advice(),
                                args.json,
                            );
                            match known {
                                Some(error) => (Err(error), i),
                                None => (Ok(PlaceView { cwd, donor, destination }), i),
                            }
                        },
                    }
                },
            }
        },
    }
}

fn find_place<H: Host>(s: &mut Session<H>, args: &AddArgs) -> (r: Result<Place, RamizError>)
    ensures
        extends(final(s).log(), old(s).log()),
        forall|l: Seq<Event>|
            extends(l, final(s).log()) ==> #[trigger] place_at(
                l,
                old(s).log().len() as int,
                args@,
            ) == (ended(r), final(s).log().len() as int),
{
    proof {
        reveal(place_at);
    }
    let (cwd, root, donor, common) = match find_ancestry(s, args) {
        Ok(found) => found,
        Err(error) => {
            return Err(error);
        },
    };
    let destination = match resolve_destination(s, cwd.as_slice(), args.path.as_slice()) {
        Ok(destination) => destination,
        Err(message) => {
            return Err(RamizError::new("invalid_destination", message, args.json));
        },
    };
    let its_root: Option<Vec<u8>> = Some(root);
    let its_donor: Option<Vec<u8>> = Some(copy(donor.as_slice()));
    match validate_destination(
        s,
        destination.as_slice(),
        &its_root,
        &its_donor,
        common.as_slice(),
        args.json,
    ) {
        Ok(_) => {},
        Err(error) => {
            return Err(error);
        },
    }
    if path_starts_with(destination.as_slice(), donor.as_slice()) || path_starts_with(
        donor.as_slice(),
        destination.as_slice(),
    ) {
        return Err(
            RamizError::new(
                "inheritance_destination_overlap",
                "complete inheritance requires a destination outside the donor tree".to_owned(),
                args.json,
            ),
        );
    }
    match check_unregistered(
        s,
        cwd.as_slice(),
        destination.as_slice(),
        "; use `git worktree repair` or `git worktree prune`",
        args.json,
    ) {
        Ok(_) => Ok(Place { cwd, donor, destination }),
        Err(error) => Err(error),
    }
}

// ---------------------------------------------------------------------------
// The donor
// ---------------------------------------------------------------------------

/// The state of a donor as Git sees it.
pub struct DonorState {
    pub head: String,
    pub symbolic: Option<String>,
    pub index_path: Vec<u8>,
    pub index: Vec<u8>,
    pub status: Vec<u8>,
    pub logical: Vec<u8>,
}

/// The model of a [`DonorState`].
#[verifier::ext_equal]
pub struct DonorView {
    pub head: Seq<char>,
    pub symbolic: Option<Seq<char>>,
    pub index_path: Seq<u8>,
    pub index: Seq<u8>,
    pub status: Seq<u8>,
    pub logical: Seq<u8>,
}

impl View for DonorState {
    type V = DonorView;

    open spec fn view(&self) -> DonorView {
        DonorView {
            head: self.head@,
            symbolic: text_option(self.symbolic),
            index_path: self.index_path@,
            index: self.index@,
            status: self.status@,
            logical: self.logical@,
        }
    }
}

/// What speaks against the index of a donor: it is sparse, or split.
pub open spec fn unsupported_at(l: Seq<Event>, i: int, donor: Seq<u8>, json: bool) -> (
    Option<ErrorView>,
    int,
) {
    let (r, i) = index_features_at(l, i, donor);
    (
        match r {
            Err(failure) => Some(git_problem("index_feature_detection"@, failure, json)),
            Ok((sparse, split)) => if sparse || split {
                Some(
                    problem(
                        "inheritance_unsupported_index"@,
                        "complete inheritance does not support sparse checkout or split index"@,
                        json,
                    ),
                )
            } else {
                None
            },
        },
        i,
    )
}

fn check_supported<H: Host>(s: &mut Session<H>, donor: &[u8], json: bool) -> (r: Result<
    (),
    RamizError,
>)
    ensures
        extends(final(s).log(), old(s).log()),
        forall|l: Seq<Event>|
            extends(l, final(s).log()) ==> #[trigger] unsupported_at(
                l,
                old(s).log().len() as int,
                donor@,
                json,
            ) == (objection(r), final(s).log().len() as int),
{
    match index_features(s, donor) {
        Err(failure) => Err(git_error("index_feature_detection", failure, json)),
        Ok((sparse, split)) => if sparse || split {
            Err(
                RamizError::new(
                    "inheritance_unsupported_index",
                    "complete inheritance does not support sparse checkout or split index".to_owned(),
                    json,
                ),
            )
        } else {
            Ok(())
        },
    }
}

/// The commit and the branch of the donor; the new worktree has to be meant to
/// be at that commit.
#[verifier::opaque]
pub open spec fn pinned_at(l: Seq<Event>, i: int, args: AddView, place: PlaceView) -> (
    Result<(Seq<char>, Option<Seq<char>>), ErrorView>,
    int,
) {
    let (head, i) = head_oid_at(l, i, place.donor);
    match head {
        Err(failure) => (Err(git_problem("inheritance_unborn_donor"@, failure, args.json)), i),
        Ok(head) => {
            let (symbolic, i) = symbolic_head_at(l, i, place.donor);
            match symbolic {
                Err(failure) => (Err(git_problem("donor_head"@, failure, args.json)), i),
                Ok(symbolic) => {
                    let (intended, i) = intended_target_at(
                        l,
                        i,
                        place.cwd,
                        place.destination,
                        args,
                    );
                    match intended {
                        Err(error) => (Err(error), i),
                        Ok(intended) => if intended == head {
                            (Ok((head, symbolic)), i)
                        } else {
                            (
                                Err(
                                    problem(
                                        "inheritance_target_mismatch"@,
                                        "inheritance target "@ + intended
                                            + " does not equal donor HEAD "@ + head,
                                        args.json,
                                    ),
                                ),
                                i,
                            )
                        },
                    }
                },
            }
        },
    }
}

/// The view of a pinned donor, or of the failure.
pub open spec fn pinned(r: Result<(String, Option<String>), RamizError>) -> Result<
    (Seq<char>, Option<Seq<char>>),
    ErrorView,
> {
    match r {
        Ok((head, symbolic)) => Ok((head@, text_option(symbolic))),
        Err(error) => Err(error@),
    }
}

fn pin<H: Host>(s: &mut Session<H>, args: &AddArgs, place: &Place) -> (r: Result<
    (String, Option<String>),
    RamizError,
>)
    ensures
        extends(final(s).log(), old(s).log()),
        forall|l: Seq<Event>|
            extends(l, final(s).log()) ==> #[trigger] pinned_at(
                l,
                old(s).log().len() as int,
                args@,
                place@,
            ) == (pinned(r), final(s).log().len() as int),
{
    proof {
        reveal(pinned_at);
    }
    let head = match head_oid(s, place.donor.as_slice()) {
        Ok(head) => head,
        Err(failure) => {
            return Err(git_error("inheritance_unborn_donor", failure, args.json));
        },
    };
    let symbolic = match symbolic_head(s, place.donor.as_slice()) {
        Ok(symbolic) => symbolic,
        Err(failure) => {
            return Err(git_error("donor_head", failure, args.json));
        },
    };
    let intended = match intended_target(
        s,
        place.cwd.as_slice(),
        place.destination.as_slice(),
        args,
    ) {
        Ok(intended) => intended,
        Err(error) => {
            return Err(error);
        },
    };
    if same(intended.as_str(), head.as_str()) {
        Ok((head, symbolic))
    } else {
        Err(
            RamizError::new(
                "inheritance_target_mismatch",
                text4(
                    "inheritance target ",
                    intended.as_str(),
                    " does not equal donor HEAD ",
                    head.as_str(),
                ),
                args.json,
            ),
        )
    }
}

/// Reads the state of a donor as Git sees it.
#[verifier::opaque]
pub open spec fn donor_state_at(l: Seq<Event>, i: int, args: AddView, place: PlaceView) -> (
    Result<DonorView, ErrorView>,
    int,
) {
    let (pin, i) = pinned_at(l, i, args, place);
    match pin {
        Err(error) => (Err(error), i),
        Ok((head, symbolic)) => {
            let (path, i) = git_path_at(l, i, place.donor, "index"@);
            match path {
                Err(failure) => (Err(git_problem("donor_index"@, failure, args.json)), i),
                Ok(index_path) => {
                    let (index, i) = read_file_at(l, i, index_path);
                    match index {
                        Err(error) => (Err(problem("donor_index"@, error, args.json)), i),
                        Ok(index) => {
                            let (status, i) = readonly_status_at(l, i, place.donor);
                            match status {
                                Err(failure) => (
                                    Err(git_problem("donor_status"@, failure, args.json)),
                                    i,
                                ),
                                Ok(status) => {
                                    let (logical, i) = logical_index_at(l, i, place.donor);
                                    (
                                        match logical {
                                            Err(failure) => Err(
                                                git_problem("donor_index"@, failure, args.json),
                                            ),
                                            Ok(logical) => Ok(
                                                DonorView {
                                                    head,
                                                    symbolic,
                                                    index_path,
                                                    index,
                                                    status,
                                                    logical,
                                                },
                                            ),
                                        },
                                        i,
                                    )
                                },
                            }
                        },
                    }
                },
            }
        },
    }
}

fn read_donor<H: Host>(s: &mut Session<H>, args: &AddArgs, place: &Place) -> (r: Result<
    DonorState,
    RamizError,
>)
    ensures
        extends(final(s).log(), old(s).log()),
        forall|l: Seq<Event>|
            extends(l, final(s).log()) ==> #[trigger] donor_state_at(
                l,
                old(s).log().len() as int,
                args@,
                place@,
            ) == (ended(r), final(s).log().len() as int),
{
    proof {
        reveal(donor_state_at);
    }
    let (head, symbolic) = match pin(s, args, place) {
        Ok(pin) => pin,
        Err(error) => {
            return Err(error);
        },
    };
    let index_path = match git_path(s, place.donor.as_slice(), "index") {
        Ok(path) => path,
        Err(failure) => {
            return Err(git_error("donor_index", failure, args.json));
        },
    };
    let index = match s.read_file(index_path.as_slice()) {
        Ok(index) => index,
        Err(error) => {
            return Err(RamizError::new("donor_index", error, args.json));
        },
    };
    let status = match readonly_status(s, place.donor.as_slice()) {
        Ok(status) => status,
        Err(failure) => {
            return Err(git_error("donor_status", failure, args.json));
        },
    };
    match logical_index(s, place.donor.as_slice()) {
        Ok(logical) => Ok(DonorState { head, symbolic, index_path, index, status, logical }),
        Err(failure) => Err(git_error("donor_index", failure, args.json)),
    }
}

// ---------------------------------------------------------------------------
// The plan
// ---------------------------------------------------------------------------

/// All that is settled before anything is made.
pub struct InheritPlan {
    pub place: Place,
    pub state: DonorState,
    pub record: Snapshot,
    pub backend: Option<Backend>,
    pub warnings: Vec<String>,
}

/// The model of an [`InheritPlan`].
#[verifier::ext_equal]
pub struct InheritView {
    pub place: PlaceView,
    pub state: DonorView,
    pub record: SnapshotView,
    pub backend: Option<Backend>,
    pub warnings: Seq<Seq<char>>,
}

impl View for InheritPlan {
    type V = InheritView;

    open spec fn view(&self) -> InheritView {
        InheritView {
            place: self.place@,
            state: self.state@,
            record: self.record@,
            backend: self.backend,
            warnings: text_views(self.warnings@),
        }
    }
}

/// The mechanism that clones files at the destination, or with leave none.
#[verifier::opaque]
pub open spec fn inherit_backend_at(
    l: Seq<Event>,
    i: int,
    destination: Seq<u8>,
    allow_copy: bool,
    json: bool,
) -> (Result<(Option<Backend>, Seq<Seq<char>>), ErrorView>, int) {
    let (directory, i) = existing_directory_at(l, i, destination);
    match directory {
        Err(message) => (Err(problem("invalid_destination"@, message, json)), i),
        Ok(directory) => {
            let (found, i) = probe_at(l, i, directory);
            (
                match found {
                    Ok(backend) => Ok((Some(backend), Seq::empty())),
                    Err(reason) => if allow_copy {
                        Ok(
                            (
                                None,
                                seq![
                                    "copy-on-write unavailable; physical copy authorized: "@
                                        + reason,
                                ],
                            ),
                        )
                    } else {
                        Err(problem("cow_unavailable"@, reason, json))
                    },
                },
                i,
            )
        },
    }
}

fn inherit_backend<H: Host>(
    s: &mut Session<H>,
    destination: &[u8],
    allow_copy: bool,
    json: bool,
) -> (r: Result<(Option<Backend>, Vec<String>), RamizError>)
    ensures
        extends(final(s).log(), old(s).log()),
        forall|l: Seq<Event>|
            extends(l, final(s).log()) ==> #[trigger] inherit_backend_at(
                l,
                old(s).log().len() as int,
                destination@,
                allow_copy,
                json,
            ) == (crate::add::clean::chosen(r), final(s).log().len() as int),
{
    proof {
        reveal(inherit_backend_at);
    }
    let directory = match existing_directory(s, destination) {
        Ok(directory) => directory,
        Err(message) => {
            return Err(RamizError::new("invalid_destination", message, json));
        },
    };
    match probe(s, directory.as_slice()) {
        Ok(backend) => {
            let none: Vec<String> = Vec::new();
            assert(text_views(none@) =~= Seq::<Seq<char>>::empty());
            Ok((Some(backend), none))
        },
        Err(reason) => if allow_copy {
            Ok(
                (
                    None,
                    one_warning(
                        text2(
                            "copy-on-write unavailable; physical copy authorized: ",
                            reason.as_str(),
                        ),
                    ),
                ),
            )
        } else {
            Err(RamizError::new("cow_unavailable", reason, json))
        },
    }
}

/// Settles all that can be settled before anything is made.
#[verifier::opaque]
pub open spec fn inherit_plan_at(l: Seq<Event>, i: int, args: AddView) -> (
    Result<InheritView, ErrorView>,
    int,
) {
    let (place, i) = place_at(l, i, args);
    match place {
        Err(error) => (Err(error), i),
        Ok(place) => {
            let (unsupported, i) = unsupported_at(l, i, place.donor, args.json);
            match unsupported {
                Some(error) => (Err(error), i),
                None => {
                    let (state, i) = donor_state_at(l, i, args, place);
                    match state {
                        Err(error) => (Err(error), i),
                        Ok(state) => {
                            let (record, i) = snapshot_at(l, i, place.donor);
                            match record {
                                Err(message) => (
                                    Err(problem("inheritance_preflight"@, message, args.json)),
                                    i,
                                ),
                                Ok(record) => {
                                    let (backend, i) = inherit_backend_at(
                                        l,
                                        i,
                                        place.destination,
                                        args.allow_copy,
                                        args.json,
                                    );
                                    (
                                        match backend {
                                            Err(error) => Err(error),
                                            Ok((backend, warnings)) => Ok(
                                                InheritView {
                                                    place,
                                                    state,
                                                    record,
                                                    backend,
                                                    warnings,
                                                },
                                            ),
                                        },
                                        i,
                                    )
                                },
                            }
                        },
                    }
                },
            }
        },
    }
}

fn inherit_plan<H: Host>(s: &mut Session<H>, args: &AddArgs) -> (r: Result<InheritPlan, RamizError>)
    ensures
        extends(final(s).log(), old(s).log()),
        forall|l: Seq<Event>|
            extends(l, final(s).log()) ==> #[trigger] inherit_plan_at(
                l,
                old(s).log().len() as int,
                args@,
            ) == (ended(r), final(s).log().len() as int),
{
    proof {
        reveal(inherit_plan_at);
    }
    let place = match find_place(s, args) {
        Ok(place) => place,
        Err(error) => {
            return Err(error);
        },
    };
    match check_supported(s, place.donor.as_slice(), args.json) {
        Ok(_) => {},
        Err(error) => {
            return Err(error);
        },
    }
    let state = match read_donor(s, args, &place) {
        Ok(state) => state,
        Err(error) => {
            return Err(error);
        },
    };
    let record = match snapshot(s, place.donor.as_slice()) {
        Ok(record) => record,
        Err(message) => {
            return Err(RamizError::new("inheritance_preflight", message, args.json));
        },
    };
    match inherit_backend(s, place.destination.as_slice(), args.allow_copy, args.json) {
        Err(error) => Err(error),
        Ok((backend, warnings)) => Ok(InheritPlan { place, state, record, backend, warnings }),
    }
}

// ---------------------------------------------------------------------------
// The copy
// ---------------------------------------------------------------------------

/// The links that the commit tracks, all of them below directories.
#[verifier::opaque]
pub open spec fn target_links_at(
    l: Seq<Event>,
    i: int,
    plan: InheritView,
    target: Seq<char>,
    json: bool,
    t: TransactionView,
) -> (Result<Seq<LinkView>, ErrorView>, int) {
    let (entries, i) = read_target_index_at(l, i, plan.place.destination, target);
    match entries {
        Err(failure) => {
            let (error, i) = fail_at(
                l,
                i,
                git_problem("index_materialization"@, failure, json),
                t,
            );
            (Err(error), i)
        },
        Ok(entries) => {
            let (links, i) = collect_links_at(l, i, entries, plan.place.destination, json, t);
            match links {
                Err(error) => (Err(error), i),
                Ok(links) => {
                    let (wrong, i) = validate_target_symlink_ancestors_at(
                        l,
                        i,
                        plan.place.donor,
                        links,
                    );
                    match wrong {
                        Some(message) => {
                            let (error, i) = fail_at(
                                l,
                                i,
                                problem("target_symlink_ancestor"@, message, json),
                                t,
                            );
                            (Err(error), i)
                        },
                        None => (Ok(links), i),
                    }
                },
            }
        },
    }
}

fn target_links<H: Host>(
    s: &mut Session<H>,
    plan: &InheritPlan,
    target: &str,
    json: bool,
    t: &mut Transaction,
) -> (r: Result<Vec<TargetLink>, RamizError>)
    ensures
        extends(final(s).log(), old(s).log()),
        forall|l: Seq<Event>|
            extends(l, final(s).log()) ==> #[trigger] target_links_at(
                l,
                old(s).log().len() as int,
                plan@,
                target@,
                json,
                old(t)@,
            ) == (crate::add::links::collected(r), final(s).log().len() as int),
        r is Ok ==> *final(t) == *old(t),
        r is Err ==> final(t)@ == (TransactionView { rollback_enabled: false, ..old(t)@ }),
{
    proof {
        reveal(target_links_at);
    }
    let destination = plan.place.destination.as_slice();
    let entries = match read_target_index(s, destination, target) {
        Ok(entries) => entries,
        Err(failure) => {
            return Err(fail(s, git_error("index_materialization", failure, json), t));
        },
    };
    let links = match collect_links(s, &entries, destination, json, t) {
        Ok(links) => links,
        Err(error) => {
            return Err(error);
        },
    };
    match validate_target_symlink_ancestors(s, plan.place.donor.as_slice(), &links) {
        Ok(_) => Ok(links),
        Err(message) => Err(
            fail(s, RamizError::new("target_symlink_ancestor", message, json), t),
        ),
    }
}

/// Copies the recorded donor.
#[verifier::opaque]
pub open spec fn inherit_files_at(
    l: Seq<Event>,
    i: int,
    plan: InheritView,
    links: Seq<LinkView>,
    args: AddView,
    t: TransactionView,
) -> (Result<ReportView, ErrorView>, int) {
    let (linux, i) = on_linux_at(l, i);
    let (report, i) = materialize_at(
        l,
        i,
        plan.record,
        plan.place.destination,
        link_paths(links),
        args.allow_copy,
        args.allow_donor_links,
        linux,
    );
    match report {
        Err(message) => {
            let (error, i) = fail_at(
                l,
                i,
                problem("inheritance_materialization_failed"@, message, args.json),
                t,
            );
            (Err(error), i)
        },
        Ok(report) => {
            let (stop, i) = check_cancelled_at(l, i, args.json, t);
            match stop {
                Some(error) => (Err(error), i),
                None => (Ok(report), i),
            }
        },
    }
}

fn inherit_files<H: Host>(
    s: &mut Session<H>,
    plan: &InheritPlan,
    links: &Vec<TargetLink>,
    args: &AddArgs,
    t: &mut Transaction,
) -> (r: Result<Report, RamizError>)
    ensures
        extends(final(s).log(), old(s).log()),
        forall|l: Seq<Event>|
            extends(l, final(s).log()) ==> #[trigger] inherit_files_at(
                l,
                old(s).log().len() as int,
                plan@,
                link_views(links@),
                args@,
                old(t)@,
            ) == (ended(r), final(s).log().len() as int),
        r is Ok ==> *final(t) == *old(t),
        r is Err ==> final(t)@ == (TransactionView { rollback_enabled: false, ..old(t)@ }),
{
    proof {
        reveal(inherit_files_at);
    }
    let linux = s.on_linux();
    let paths = paths_of(links);
    let report = match materialize(
        s,
        &plan.record,
        plan.place.destination.as_slice(),
        &paths,
        args.allow_copy,
        args.allow_donor_links,
        linux,
    ) {
        Ok(report) => report,
        Err(message) => {
            let error = RamizError::new(
                "inheritance_materialization_failed",
                message,
                args.json,
            );
            return Err(fail(s, error, t));
        },
    };
    match check_cancelled(s, args.json, t) {
        Ok(_) => Ok(report),
        Err(error) => Err(error),
    }
}

/// Gives the new worktree the donor's index, the tracked links, and what its
/// directories have.
#[verifier::opaque]
pub open spec fn settle_in_at(
    l: Seq<Event>,
    i: int,
    plan: InheritView,
    links: Seq<LinkView>,
    json: bool,
    t: TransactionView,
) -> (Option<ErrorView>, int) {
    let destination = plan.place.destination;
    let (index, i) = git_path_at(l, i, destination, "index"@);
    match index {
        Err(failure) => {
            let (error, i) = fail_at(
                l,
                i,
                git_problem("destination_index"@, failure, json),
                t,
            );
            (Some(error), i)
        },
        Ok(index) => {
            let (installed, i) = install_index_at(l, i, plan.state.index, index);
            match installed {
                Some(message) => {
                    let (error, i) = fail_at(
                        l,
                        i,
                        problem("inheritance_index_install"@, message, json),
                        t,
                    );
                    (Some(error), i)
                },
                None => {
                    let (caches, i) = disable_index_caches_at(l, i, destination);
                    match caches {
                        Some(failure) => {
                            let (error, i) = fail_at(
                                l,
                                i,
                                git_problem("inheritance_index_normalization"@, failure, json),
                                t,
                            );
                            (Some(error), i)
                        },
                        None => {
                            let (linked, i) = materialize_target_symlinks_at(
                                l,
                                i,
                                destination,
                                links,
                            );
                            match linked {
                                Some(message) => {
                                    let (error, i) = fail_at(
                                        l,
                                        i,
                                        problem(
                                            "target_symlink_materialization"@,
                                            message,
                                            json,
                                        ),
                                        t,
                                    );
                                    (Some(error), i)
                                },
                                None => {
                                    let (finished, i) = finalize_directories_at(
                                        l,
                                        i,
                                        plan.record,
                                        destination,
                                        link_paths(links),
                                    );
                                    match finished {
                                        Some(message) => {
                                            let (error, i) = fail_at(
                                                l,
                                                i,
                                                problem(
                                                    "inheritance_metadata_failed"@,
                                                    message,
                                                    json,
                                                ),
                                                t,
                                            );
                                            (Some(error), i)
                                        },
                                        None => (None, i),
                                    }
                                },
                            }
                        },
                    }
                },
            }
        },
    }
}

fn settle_in<H: Host>(
    s: &mut Session<H>,
    plan: &InheritPlan,
    links: &Vec<TargetLink>,
    json: bool,
    t: &mut Transaction,
) -> (r: Result<(), RamizError>)
    ensures
        extends(final(s).log(), old(s).log()),
        forall|l: Seq<Event>|
            extends(l, final(s).log()) ==> #[trigger] settle_in_at(
                l,
                old(s).log().len() as int,
                plan@,
                link_views(links@),
                json,
                old(t)@,
            ) == (objection(r), final(s).log().len() as int),
        r is Ok ==> *final(t) == *old(t),
        r is Err ==> final(t)@ == (TransactionView { rollback_enabled: false, ..old(t)@ }),
{
    proof {
        reveal(settle_in_at);
    }
    let destination = plan.place.destination.as_slice();
    let index = match git_path(s, destination, "index") {
        Ok(index) => index,
        Err(failure) => {
            return Err(fail(s, git_error("destination_index", failure, json), t));
        },
    };
    match install_index(s, plan.state.index.as_slice(), index.as_slice()) {
        Ok(_) => {},
        Err(message) => {
            let error = RamizError::new("inheritance_index_install", message, json);
            return Err(fail(s, error, t));
        },
    }
    match disable_index_caches(s, destination) {
        Ok(_) => {},
        Err(failure) => {
            let error = git_error("inheritance_index_normalization", failure, json);
            return Err(fail(s, error, t));
        },
    }
    match materialize_target_symlinks(s, destination, links) {
        Ok(_) => {},
        Err(message) => {
            let error = RamizError::new("target_symlink_materialization", message, json);
            return Err(fail(s, error, t));
        },
    }
    let paths = paths_of(links);
    match finalize_directories(s, &plan.record, destination, &paths) {
        Ok(_) => Ok(()),
        Err(message) => {
            let error = RamizError::new("inheritance_metadata_failed", message, json);
            Err(fail(s, error, t))
        },
    }
}

// ---------------------------------------------------------------------------
// The comparison
// ---------------------------------------------------------------------------

/// Reads the state of a donor again.
#[verifier::opaque]
pub open spec fn reread_at(
    l: Seq<Event>,
    i: int,
    donor: Seq<u8>,
    index_path: Seq<u8>,
    json: bool,
) -> (Result<DonorView, ErrorView>, int) {
    let code = "donor_verification"@;
    let (index, i) = read_file_at(l, i, index_path);
    match index {
        Err(error) => (Err(problem(code, error, json)), i),
        Ok(index) => {
            let (status, i) = readonly_status_at(l, i, donor);
            match status {
                Err(failure) => (Err(git_problem(code, failure, json)), i),
                Ok(status) => {
                    let (logical, i) = logical_index_at(l, i, donor);
                    match logical {
                        Err(failure) => (Err(git_problem(code, failure, json)), i),
                        Ok(logical) => {
                            let (head, i) = head_oid_at(l, i, donor);
                            match head {
                                Err(failure) => (Err(git_problem(code, failure, json)), i),
                                Ok(head) => {
                                    let (symbolic, i) = symbolic_head_at(l, i, donor);
                                    (
                                        match symbolic {
                                            Err(failure) => Err(git_problem(code, failure, json)),
                                            Ok(symbolic) => Ok(
                                                DonorView {
                                                    head,
                                                    symbolic,
                                                    index_path,
                                                    index,
                                                    status,
                                                    logical,
                                                },
                                            ),
                                        },
                                        i,
                                    )
                                },
                            }
                        },
                    }
                },
            }
        },
    }
}

fn reread<H: Host>(s: &mut Session<H>, donor: &[u8], index_path: &[u8], json: bool) -> (r: Result<
    DonorState,
    RamizError,
>)
    ensures
        extends(final(s).log(), old(s).log()),
        forall|l: Seq<Event>|
            extends(l, final(s).log()) ==> #[trigger] reread_at(
                l,
                old(s).log().len() as int,
                donor@,
                index_path@,
                json,
            ) == (ended(r), final(s).log().len() as int),
        r matches Ok(state) ==> state@.index_path == index_path@,
{
    proof {
        reveal(reread_at);
    }
    let index = match s.read_file(index_path) {
        Ok(index) => index,
        Err(error) => {
            return Err(RamizError::new("donor_verification", error, json));
        },
    };
    let status = match readonly_status(s, donor) {
        Ok(status) => status,
        Err(failure) => {
            return Err(git_error("donor_verification", failure, json));
        },
    };
    let logical = match logical_index(s, donor) {
        Ok(logical) => logical,
        Err(failure) => {
            return Err(git_error("donor_verification", failure, json));
        },
    };
    let head = match head_oid(s, donor) {
        Ok(head) => head,
        Err(failure) => {
            return Err(git_error("donor_verification", failure, json));
        },
    };
    match symbolic_head(s, donor) {
        Ok(symbolic) => Ok(
            DonorState { head, symbolic, index_path: copy(index_path), index, status, logical },
        ),
        Err(failure) => Err(git_error("donor_verification", failure, json)),
    }
}

fn same_if(a: &Option<String>, b: &Option<String>) -> (r: bool)
    ensures
        r == (text_option(*a) == text_option(*b)),
{
    match (a, b) {
        (Some(x), Some(y)) => same(x.as_str(), y.as_str()),
        (None, None) => true,
        _ => false,
    }
}

fn same_state(a: &DonorState, b: &DonorState) -> (r: bool)
    requires
        a@.index_path == b@.index_path,
    ensures
        r == (a@ == b@),
{
    let r = same_bytes(a.index.as_slice(), b.index.as_slice()) && same_bytes(
        a.status.as_slice(),
        b.status.as_slice(),
    ) && same_bytes(a.logical.as_slice(), b.logical.as_slice()) && same(
        a.head.as_str(),
        b.head.as_str(),
    ) && same_if(&a.symbolic, &b.symbolic);
    assert(r ==> a@ =~= b@);
    r
}

/// What speaks against the donor: its files or its state changed.
#[verifier::opaque]
pub open spec fn donor_changed_at(
    l: Seq<Event>,
    i: int,
    plan: InheritView,
    json: bool,
    t: TransactionView,
) -> (Option<ErrorView>, int) {
    let (changed, i) = verify_unchanged_at(l, i, plan.record);
    match changed {
        Some(message) => {
            let (error, i) = fail_at(l, i, problem("donor_changed"@, message, json), t);
            (Some(error), i)
        },
        None => {
            let (again, i) = reread_at(
                l,
                i,
                plan.place.donor,
                plan.state.index_path,
                json,
            );
            match again {
                Err(error) => {
                    let (error, i) = fail_at(l, i, error, t);
                    (Some(error), i)
                },
                Ok(again) => if again == plan.state {
                    (None, i)
                } else {
                    let (error, i) = fail_at(
                        l,
                        i,
                        problem(
                            "donor_changed"@,
                            "donor Git/index state changed during inheritance"@,
                            json,
                        ),
                        t,
                    );
                    (Some(error), i)
                },
            }
        },
    }
}

fn check_unchanged<H: Host>(
    s: &mut Session<H>,
    plan: &InheritPlan,
    json: bool,
    t: &mut Transaction,
) -> (r:
    Result<(), RamizError>)
    ensures
        extends(final(s).log(), old(s).log()),
        forall|l: Seq<Event>|
            extends(l, final(s).log()) ==> #[trigger] donor_changed_at(
                l,
                old(s).log().len() as int,
                plan@,
                json,
                old(t)@,
            ) == (objection(r), final(s).log().len() as int),
        r is Ok ==> *final(t) == *old(t),
        r is Err ==> final(t)@ == (TransactionView { rollback_enabled: false, ..old(t)@ }),
{
    proof {
        reveal(donor_changed_at);
    }
    match verify_unchanged(s, &plan.record) {
        Ok(_) => {},
        Err(message) => {
            let error = RamizError::new("donor_changed", message, json);
            return Err(fail(s, error, t));
        },
    }
    let again = match reread(
        s,
        plan.place.donor.as_slice(),
        plan.state.index_path.as_slice(),
        json,
    ) {
        Ok(again) => again,
        Err(error) => {
            return Err(fail(s, error, t));
        },
    };
    if same_state(&again, &plan.state) {
        Ok(())
    } else {
        let error = RamizError::new(
            "donor_changed",
            "donor Git/index state changed during inheritance".to_owned(),
            json,
        );
        Err(fail(s, error, t))
    }
}

/// What speaks against the new worktree: its index or its state is not the
/// donor's.
#[verifier::opaque]
pub open spec fn differs_at(
    l: Seq<Event>,
    i: int,
    plan: InheritView,
    json: bool,
    t: TransactionView,
) -> (Option<ErrorView>, int) {
    let (logical, i) = logical_index_at(l, i, plan.place.destination);
    match logical {
        Err(failure) => {
            let (error, i) = fail_at(
                l,
                i,
                git_problem("inheritance_verification"@, failure, json),
                t,
            );
            (Some(error), i)
        },
        Ok(logical) => {
            let (status, i) = readonly_status_at(l, i, plan.place.destination);
            match status {
                Err(failure) => {
                    let (error, i) = fail_at(
                        l,
                        i,
                        git_problem("inheritance_verification"@, failure, json),
                        t,
                    );
                    (Some(error), i)
                },
                Ok(status) => if logical == plan.state.logical && status == plan.state.status {
                    check_cancelled_at(l, i, json, t)
                } else {
                    let (error, i) = fail_at(
                        l,
                        i,
                        problem(
                            "inheritance_verification_failed"@,
                            "inherited index or working state differs from the donor"@,
                            json,
                        ),
                        t,
                    );
                    (Some(error), i)
                },
            }
        },
    }
}

fn check_same<H: Host>(
    s: &mut Session<H>,
    plan: &InheritPlan,
    json: bool,
    t: &mut Transaction,
) -> (r:
    Result<(), RamizError>)
    ensures
        extends(final(s).log(), old(s).log()),
        forall|l: Seq<Event>|
            extends(l, final(s).log()) ==> #[trigger] differs_at(
                l,
                old(s).log().len() as int,
                plan@,
                json,
                old(t)@,
            ) == (objection(r), final(s).log().len() as int),
        r is Ok ==> *final(t) == *old(t),
        r is Err ==> final(t)@ == (TransactionView { rollback_enabled: false, ..old(t)@ }),
{
    proof {
        reveal(differs_at);
    }
    let destination = plan.place.destination.as_slice();
    let logical = match logical_index(s, destination) {
        Ok(logical) => logical,
        Err(failure) => {
            return Err(fail(s, git_error("inheritance_verification", failure, json), t));
        },
    };
    let status = match readonly_status(s, destination) {
        Ok(status) => status,
        Err(failure) => {
            return Err(fail(s, git_error("inheritance_verification", failure, json), t));
        },
    };
    if same_bytes(logical.as_slice(), plan.state.logical.as_slice()) && same_bytes(
        status.as_slice(),
        plan.state.status.as_slice(),
    ) {
        return check_cancelled(s, json, t);
    }
    let error = RamizError::new(
        "inheritance_verification_failed",
        "inherited index or working state differs from the donor".to_owned(),
        json,
    );
    Err(fail(s, error, t))
}

// ---------------------------------------------------------------------------
// The worktree
// ---------------------------------------------------------------------------

/// Fills the registered worktree and compares it with the donor.
#[verifier::opaque]
pub open spec fn inherit_into_at(
    l: Seq<Event>,
    i: int,
    plan: InheritView,
    target: Seq<char>,
    args: AddView,
    t: TransactionView,
) -> (Result<(ReportView, Seq<LinkView>), ErrorView>, int) {
    let (links, i) = target_links_at(l, i, plan, target, args.json, t);
    match links {
        Err(error) => (Err(error), i),
        Ok(links) => {
            let (report, i) = inherit_files_at(l, i, plan, links, args, t);
            match report {
                Err(error) => (Err(error), i),
                Ok(report) => {
                    let (wrong, i) = settle_in_at(l, i, plan, links, args.json, t);
                    match wrong {
                        Some(error) => (Err(error), i),
                        None => {
                            let (changed, i) = donor_changed_at(l, i, plan, args.json, t);
                            match changed {
                                Some(error) => (Err(error), i),
                                None => {
                                    let (differs, i) = differs_at(l, i, plan, args.json, t);
                                    match differs {
                                        Some(error) => (Err(error), i),
                                        None => (Ok((report, links)), i),
                                    }
                                },
                            }
                        },
                    }
                },
            }
        },
    }
}

/// The view of an inheritance, or of the failure.
pub open spec fn inherited(r: Result<(Report, Vec<TargetLink>), RamizError>) -> Result<
    (ReportView, Seq<LinkView>),
    ErrorView,
> {
    match r {
        Ok((report, links)) => Ok((report@, link_views(links@))),
        Err(error) => Err(error@),
    }
}

fn inherit_into<H: Host>(
    s: &mut Session<H>,
    plan: &InheritPlan,
    target: &str,
    args: &AddArgs,
    t: &mut Transaction,
) -> (r: Result<(Report, Vec<TargetLink>), RamizError>)
    ensures
        extends(final(s).log(), old(s).log()),
        forall|l: Seq<Event>|
            extends(l, final(s).log()) ==> #[trigger] inherit_into_at(
                l,
                old(s).log().len() as int,
                plan@,
                target@,
                args@,
                old(t)@,
            ) == (inherited(r), final(s).log().len() as int),
        r is Ok ==> *final(t) == *old(t),
        r is Err ==> final(t)@ == (TransactionView { rollback_enabled: false, ..old(t)@ }),
{
    proof {
        reveal(inherit_into_at);
    }
    let links = match target_links(s, plan, target, args.json, t) {
        Ok(links) => links,
        Err(error) => {
            return Err(error);
        },
    };
    let report = match inherit_files(s, plan, &links, args, t) {
        Ok(report) => report,
        Err(error) => {
            return Err(error);
        },
    };
    match settle_in(s, plan, &links, args.json, t) {
        Ok(_) => {},
        Err(error) => {
            return Err(error);
        },
    }
    match check_unchanged(s, plan, args.json, t) {
        Ok(_) => {},
        Err(error) => {
            return Err(error);
        },
    }
    match check_same(s, plan, args.json, t) {
        Ok(_) => Ok((report, links)),
        Err(error) => Err(error),
    }
}

/// What the worktree was made with.
pub open spec fn inherit_label(report: ReportView, backend: Option<Backend>) -> Seq<char> {
    if report.copied_files > 0 && report.cow_files == 0 {
        "copy"@
    } else {
        match backend {
            Some(backend) => backend.label(),
            None => "copy"@,
        }
    }
}

fn inherit_name(report: &Report, backend: Option<Backend>) -> (r: &'static str)
    ensures
        r@ == inherit_label(report@, backend),
{
    if report.copied_files > 0 && report.cow_files == 0 {
        "copy"
    } else {
        match backend {
            Some(backend) => backend.as_str(),
            None => "copy",
        }
    }
}

/// The new worktree.
pub open spec fn inherited_worktree(
    plan: InheritView,
    target: Seq<char>,
    report: ReportView,
    links: Seq<LinkView>,
    hook: HookView,
) -> AddedView {
    AddedView {
        path: encoded(plan.place.destination),
        head: Some(target),
        backend: inherit_label(report, plan.backend),
        cow_files: report.cow_files,
        git_files: links.len() as int,
        copied_files: report.copied_files,
        hardlinks: report.hardlinks,
        skipped_special: report.skipped_special.map_values(|p: Seq<u8>| encoded(p)),
        inherited_symlinks: report.symlinks.map_values(|p: Seq<u8>| encoded(p)),
        donor_links: report.donor_links.map_values(|p: Seq<u8>| encoded(p)),
        hook_output: hook,
        warnings: plan.warnings + report.warnings,
    }
}

fn inherited_added(
    plan: InheritPlan,
    target: String,
    report: Report,
    git_files: usize,
    hook: HookOutput,
) -> (r: Added)
    ensures
        forall|links: Seq<LinkView>|
            links.len() == git_files ==> r@ == #[trigger] inherited_worktree(
                plan@,
                target@,
                report@,
                links,
                hook@,
            ),
{
    let backend = inherit_name(&report, plan.backend);
    let mut warnings = plan.warnings;
    append_texts(&mut warnings, &report.warnings);
    Added {
        data: AddData {
            path: EncodedPath::new(plan.place.destination.as_slice()),
            head: Some(target),
            backend,
            cow_files: report.cow_files,
            git_files,
            copied_files: report.copied_files,
            hardlinks: report.hardlinks,
            skipped_special: encode_all(&report.skipped_special),
            inherited_symlinks: encode_all(&report.symlinks),
            donor_links: encode_all(&report.donor_links),
            hook_output: hook,
        },
        warnings,
    }
}

/// Makes the planned worktree.
#[verifier::opaque]
pub open spec fn inherit_carry_out_at(l: Seq<Event>, i: int, args: AddView, plan: InheritView) -> (
    Result<AddedView, ErrorView>,
    int,
) {
    let place = plan.place;
    let (prepared, i) = prepare_branch_at(l, i, place.cwd, place.destination, args);
    match prepared {
        Err(error) => (Err(error), i),
        Ok(prepared) => {
            let (existed_empty, i) = is_directory_at(l, i, place.destination);
            let t = opened(place.cwd, place.destination, existed_empty, prepared);
            let (target, i) = register_at(l, i, args, prepared, t);
            match target {
                Err(error) => (Err(error), i),
                Ok(target) => {
                    let t = registered(t);
                    if target != plan.state.head {
                        let (error, i) = fail_at(
                            l,
                            i,
                            problem(
                                "inheritance_target_changed"@,
                                "inheritance target moved from "@ + plan.state.head + " to "@
                                    + target,
                                args.json,
                            ),
                            t,
                        );
                        (Err(error), i)
                    } else {
                        let (done, i) = inherit_into_at(l, i, plan, target, args, t);
                        match done {
                            Err(error) => (Err(error), i),
                            Ok((report, links)) => {
                                let (hook, i) = post_checkout_at(
                                    l,
                                    i,
                                    place.destination,
                                    target,
                                    args.json,
                                );
                                (
                                    match hook {
                                        Err(error) => Err(error),
                                        Ok(hook) => Ok(
                                            inherited_worktree(
                                                plan,
                                                target,
                                                report,
                                                links,
                                                hook,
                                            ),
                                        ),
                                    },
                                    i,
                                )
                            },
                        }
                    }
                },
            }
        },
    }
}

fn inherit_carry_out<H: Host>(s: &mut Session<H>, args: &AddArgs, plan: InheritPlan) -> (r: Result<
    Added,
    RamizError,
>)
    ensures
        extends(final(s).log(), old(s).log()),
        forall|l: Seq<Event>|
            extends(l, final(s).log()) ==> #[trigger] inherit_carry_out_at(
                l,
                old(s).log().len() as int,
                args@,
                plan@,
            ) == (ended(r), final(s).log().len() as int),
{
    proof {
        reveal(inherit_carry_out_at);
    }
    let cwd = plan.place.cwd.as_slice();
    let destination = plan.place.destination.as_slice();
    let prepared = match prepare_branch(s, cwd, destination, args) {
        Ok(prepared) => prepared,
        Err(error) => {
            return Err(error);
        },
    };
    let existed_empty = s.is_directory(destination);
    let mut t = open_transaction(cwd, destination, existed_empty, &prepared);
    let target = match register(s, args, &prepared, &mut t) {
        Ok(target) => target,
        Err(error) => {
            return Err(error);
        },
    };
    if !same(target.as_str(), plan.state.head.as_str()) {
        let error = RamizError::new(
            "inheritance_target_changed",
            text4(
                "inheritance target moved from ",
                plan.state.head.as_str(),
                " to ",
                target.as_str(),
            ),
            args.json,
        );
        return Err(fail(s, error, &mut t));
    }
    let (report, links) = match inherit_into(s, &plan, target.as_str(), args, &mut t) {
        Ok(done) => done,
        Err(error) => {
            return Err(error);
        },
    };
    let hook = match post_checkout(s, destination, target.as_str(), args.json) {
        Ok(hook) => hook,
        Err(error) => {
            return Err(error);
        },
    };
    assert(link_views(links@).len() == links@.len());
    Ok(inherited_added(plan, target, report, links.len(), hook))
}

/// Makes a worktree that inherits the complete state of its donor.
#[verifier::opaque]
pub open spec fn run_inherit_at(l: Seq<Event>, i: int, args: AddView) -> (
    Result<AddedView, ErrorView>,
    int,
) {
    let (plan, i) = inherit_plan_at(l, i, args);
    match plan {
        Err(error) => (Err(error), i),
        Ok(plan) => inherit_carry_out_at(l, i, args, plan),
    }
}

/// Makes a worktree that inherits the complete state of its donor.
pub fn run_inherit<H: Host>(s: &mut Session<H>, args: &AddArgs) -> (r: Result<Added, RamizError>)
    ensures
        extends(final(s).log(), old(s).log()),
        forall|l: Seq<Event>|
            extends(l, final(s).log()) ==> #[trigger] run_inherit_at(
                l,
                old(s).log().len() as int,
                args@,
            ) == (ended(r), final(s).log().len() as int),
{
    proof {
        reveal(run_inherit_at);
    }
    match inherit_plan(s, args) {
        Err(error) => Err(error),
        Ok(plan) => inherit_carry_out(s, args, plan),
    }
}

} // verus!
