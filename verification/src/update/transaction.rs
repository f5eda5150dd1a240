//! Replacing the executable pair and the files beside it, and undoing that.
use crate::outside::{lossy, lossy_text};
use crate::path::{extended, with_extension};
use crate::text::{
    copy, join_text, joined_text, same, same_bytes, stripped, text2, text3, text_views, trim, utf8,
    utf8_of,
};
use crate::update::io::{
    done, extends, outcome, path_exists_at, read_file_at, remove_file_at, rename_at, run_at,
    IoEvent, UpdateIo,
};
use crate::update::model::{
    bytes_option, failure, text_result, BinaryPair, FailureView, IoError, IoErrorKind, IoErrorView,
    PairView, UpdateFailure,
};
use vstd::prelude::*;

verus! {

// ---------------------------------------------------------------------------
// Collecting what went wrong
// ---------------------------------------------------------------------------

/// The problems so far and, where `r` failed, one more about `path`.
pub open spec fn noted(
    problems: Seq<Seq<char>>,
    r: Result<(), IoErrorView>,
    path: Seq<u8>,
    what: Seq<char>,
) -> Seq<Seq<char>> {
    match r {
        Ok(_) => problems,
        Err(error) => problems.push(lossy_text(path) + what + error.message),
    }
}

/// Success without problems, else all of them in one text.
pub open spec fn settled(problems: Seq<Seq<char>>) -> Result<(), Seq<char>> {
    if problems.len() == 0 {
        Ok(())
    } else {
        Err(joined_text(problems, "; "@))
    }
}

fn push_problem(problems: &mut Vec<String>, text: String)
    ensures
        text_views(final(problems)@) == text_views(old(problems)@).push(text@),
{
    let ghost before = problems@;
    problems.push(text);
    assert(text_views(problems@) =~= text_views(before).push(text@));
}

pub fn note(problems: &mut Vec<String>, r: Result<(), IoError>, path: &[u8], what: &str)
    ensures
        text_views(final(problems)@) == noted(text_views(old(problems)@), done(r), path@, what@),
{
    if let Err(error) = r {
        push_problem(problems, text3(lossy(path).as_str(), what, error.message.as_str()));
    }
}

pub fn settle(problems: Vec<String>) -> (r: Result<(), String>)
    ensures
        text_result(r) == settled(text_views(problems@)),
{
    assert(text_views(problems@).len() == problems@.len());
    if problems.len() == 0 {
        Ok(())
    } else {
        Err(join_text(&problems, "; "))
    }
}

pub fn no_problems() -> (r: Vec<String>)
    ensures
        text_views(r@) == Seq::<Seq<char>>::empty(),
{
    let r: Vec<String> = Vec::new();
    assert(text_views(r@) =~= Seq::<Seq<char>>::empty());
    r
}

// ---------------------------------------------------------------------------
// Smoke checks
// ---------------------------------------------------------------------------

/// An executable reports `version` and shows its help.
pub open spec fn verify_binary_at(
    l: Seq<IoEvent>,
    i: int,
    binary: Seq<u8>,
    version: Seq<char>,
) -> (Result<(), FailureView>, int) {
    let (shown, i) = run_at(l, i, binary, seq!["--version"@]);
    match shown {
        Err(error) => (Err(failure("verification_failed"@, error.message, binary)), i),
        Ok(output) => if !output.success || stripped(lossy_text(output.stdout)) != "ramiz "@
            + version {
            (
                Err(
                    failure(
                        "verification_failed"@,
                        lossy_text(binary) + " did not report version "@ + version,
                        binary,
                    ),
                ),
                i,
            )
        } else {
            let (help, i) = run_at(l, i, binary, seq!["--help"@]);
            match help {
                Err(error) => (Err(failure("verification_failed"@, error.message, binary)), i),
                Ok(output) => if !output.success {
                    (
                        Err(
                            failure(
                                "verification_failed"@,
                                lossy_text(binary) + " failed its help smoke check"@,
                                binary,
                            ),
                        ),
                        i,
                    )
                } else {
                    (Ok(()), i)
                },
            }
        },
    }
}

/// Both executables report `version` and show their help.
pub open spec fn verify_binaries_at(
    l: Seq<IoEvent>,
    i: int,
    paths: PairView,
    version: Seq<char>,
) -> (Result<(), FailureView>, int) {
    let (r, i) = verify_binary_at(l, i, paths.primary, version);
    match r {
        Err(failure) => (Err(failure), i),
        Ok(_) => verify_binary_at(l, i, paths.secondary, version),
    }
}

fn one_argument(argument: &str) -> (r: Vec<String>)
    ensures
        text_views(r@) == seq![argument@],
{
    let mut r: Vec<String> = Vec::new();
    r.push(argument.to_owned());
    assert(text_views(r@) =~= seq![argument@]);
    r
}

fn verify_binary<I: UpdateIo>(io: &mut I, binary: &[u8], version: &str) -> (r: Result<
    (),
    UpdateFailure,
>)
    ensures
        extends(final(io).log(), old(io).log()),
        forall|l: Seq<IoEvent>|
            extends(l, final(io).log()) ==> #[trigger] verify_binary_at(
                l,
                old(io).log().len() as int,
                binary@,
                version@,
            ) == (outcome(r), final(io).log().len() as int),
{
    let arguments = one_argument("--version");
    let output = match io.run(binary, &arguments) {
        Ok(output) => output,
        Err(error) => {
            return Err(UpdateFailure::new("verification_failed", error.message, binary));
        },
    };
    let expected = text2("ramiz ", version);
    let shown = trim(lossy(output.stdout.as_slice()).as_str());
    if !output.success || !same(shown.as_str(), expected.as_str()) {
        let message = text3(lossy(binary).as_str(), " did not report version ", version);
        return Err(UpdateFailure::new("verification_failed", message, binary));
    }
    let arguments = one_argument("--help");
    let output = match io.run(binary, &arguments) {
        Ok(output) => output,
        Err(error) => {
            return Err(UpdateFailure::new("verification_failed", error.message, binary));
        },
    };
    if !output.success {
        let message = text2(lossy(binary).as_str(), " failed its help smoke check");
        return Err(UpdateFailure::new("verification_failed", message, binary));
    }
    Ok(())
}

/// Both executables of `paths` report `version` and show their help.
pub fn verify_binaries<I: UpdateIo>(io: &mut I, paths: &BinaryPair, version: &str) -> (r: Result<
    (),
    UpdateFailure,
>)
    ensures
        extends(final(io).log(), old(io).log()),
        forall|l: Seq<IoEvent>|
            extends(l, final(io).log()) ==> #[trigger] verify_binaries_at(
                l,
                old(io).log().len() as int,
                paths@,
                version@,
            ) == (outcome(r), final(io).log().len() as int),
{
    if let Err(failure) = verify_binary(io, paths.primary.as_slice(), version) {
        return Err(failure);
    }
    verify_binary(io, paths.secondary.as_slice(), version)
}

// ---------------------------------------------------------------------------
// Snapshots
// ---------------------------------------------------------------------------

/// The contents of a file, or nothing where there is no such file.
pub open spec fn snapshot_at(l: Seq<IoEvent>, i: int, path: Seq<u8>) -> (
    Result<Option<Seq<u8>>, IoErrorView>,
    int,
) {
    let (r, i) = read_file_at(l, i, path);
    match r {
        Ok(bytes) => (Ok(Some(bytes)), i),
        Err(error) => if error.kind == IoErrorKind::NotFound {
            (Ok(None), i)
        } else {
            (Err(error), i)
        },
    }
}

/// The view of a snapshot.
pub open spec fn snapshot_answer(r: Result<Option<Vec<u8>>, IoError>) -> Result<
    Option<Seq<u8>>,
    IoErrorView,
> {
    match r {
        Ok(bytes) => Ok(bytes_option(bytes)),
        Err(error) => Err(error@),
    }
}

/// The contents of the file at `path`, or nothing where there is none.
pub fn snapshot_optional<I: UpdateIo>(io: &mut I, path: &[u8]) -> (r: Result<
    Option<Vec<u8>>,
    IoError,
>)
    ensures
        extends(final(io).log(), old(io).log()),
        forall|l: Seq<IoEvent>|
            extends(l, final(io).log()) ==> #[trigger] snapshot_at(
                l,
                old(io).log().len() as int,
                path@,
            ) == (snapshot_answer(r), final(io).log().len() as int),
{
    match io.read_file(path) {
        Ok(bytes) => Ok(Some(bytes)),
        Err(error) => {
            if error.kind == IoErrorKind::NotFound {
                Ok(None)
            } else {
                Err(error)
            }
        },
    }
}

// ---------------------------------------------------------------------------
// The executable pair
// ---------------------------------------------------------------------------

/// The replacement of an executable pair: where the new ones are staged, where
/// the old ones are kept, and how far it has come.
pub struct PairTransaction {
    pub paths: BinaryPair,
    pub version: String,
    pub stage_primary: Vec<u8>,
    pub stage_secondary: Vec<u8>,
    pub backup_primary: Vec<u8>,
    pub backup_secondary: Vec<u8>,
    pub primary_backed_up: bool,
    pub secondary_backed_up: bool,
    pub primary_activated: bool,
    pub secondary_activated: bool,
    pub old_primary: Vec<u8>,
    pub old_secondary: Vec<u8>,
}

/// The model of a [`PairTransaction`].
#[verifier::ext_equal]
pub struct PairState {
    pub paths: PairView,
    pub version: Seq<char>,
    pub stage: PairView,
    pub backup: PairView,
    pub primary_backed_up: bool,
    pub secondary_backed_up: bool,
    pub primary_activated: bool,
    pub secondary_activated: bool,
    pub old_primary: Seq<u8>,
    pub old_secondary: Seq<u8>,
}

impl View for PairTransaction {
    type V = PairState;

    open spec fn view(&self) -> PairState {
        PairState {
            paths: self.paths@,
            version: self.version@,
            stage: PairView { primary: self.stage_primary@, secondary: self.stage_secondary@ },
            backup: PairView { primary: self.backup_primary@, secondary: self.backup_secondary@ },
            primary_backed_up: self.primary_backed_up,
            secondary_backed_up: self.secondary_backed_up,
            primary_activated: self.primary_activated,
            secondary_activated: self.secondary_activated,
            old_primary: self.old_primary@,
            old_secondary: self.old_secondary@,
        }
    }
}

/// The extension of a staged file.
pub open spec fn stage_extension(version: Seq<char>) -> Seq<u8> {
    utf8("stage.ramiz-update-"@ + version)
}

/// The extension of a kept file.
pub open spec fn backup_extension(version: Seq<char>) -> Seq<u8> {
    utf8("previous.ramiz-update-"@ + version)
}

/// A replacement that has not begun.
pub open spec fn fresh_pair(
    paths: PairView,
    version: Seq<char>,
    old_primary: Seq<u8>,
    old_secondary: Seq<u8>,
) -> PairState {
    PairState {
        paths,
        version,
        stage: PairView {
            primary: extended(paths.primary, stage_extension(version)),
            secondary: extended(paths.secondary, stage_extension(version)),
        },
        backup: PairView {
            primary: extended(paths.primary, backup_extension(version)),
            secondary: extended(paths.secondary, backup_extension(version)),
        },
        primary_backed_up: false,
        secondary_backed_up: false,
        primary_activated: false,
        secondary_activated: false,
        old_primary,
        old_secondary,
    }
}

/// Reads both executables and prepares their replacement.
pub open spec fn capture_pair_at(
    l: Seq<IoEvent>,
    i: int,
    paths: PairView,
    version: Seq<char>,
) -> (Result<PairState, FailureView>, int) {
    let (old_primary, i) = read_file_at(l, i, paths.primary);
    match old_primary {
        Err(error) => (
            Err(failure("staging_snapshot_failed"@, error.message, paths.primary)),
            i,
        ),
        Ok(old_primary) => {
            let (old_secondary, i) = read_file_at(l, i, paths.secondary);
            match old_secondary {
                Err(error) => (
                    Err(failure("staging_snapshot_failed"@, error.message, paths.secondary)),
                    i,
                ),
                Ok(old_secondary) => (
                    Ok(fresh_pair(paths, version, old_primary, old_secondary)),
                    i,
                ),
            }
        },
    }
}

/// Moves both executables aside. Nothing moves where a backup is in the way.
pub open spec fn move_aside_at(l: Seq<IoEvent>, i: int, t: PairState) -> (
    Result<(), IoErrorView>,
    PairState,
    int,
) {
    let (primary_kept, i) = path_exists_at(l, i, t.backup.primary);
    let (secondary_kept, i) = if primary_kept {
        (false, i)
    } else {
        path_exists_at(l, i, t.backup.secondary)
    };
    if primary_kept || secondary_kept {
        (
            Err(
                IoErrorView {
                    kind: IoErrorKind::AlreadyExists,
                    message: "update backup already exists"@,
                },
            ),
            t,
            i,
        )
    } else {
        let (r, i) = rename_at(l, i, t.paths.primary, t.backup.primary);
        match r {
            Err(error) => (Err(error), t, i),
            Ok(_) => {
                let t = PairState { primary_backed_up: true, ..t };
                let (r, i) = rename_at(l, i, t.paths.secondary, t.backup.secondary);
                match r {
                    Err(error) => (Err(error), t, i),
                    Ok(_) => (Ok(()), PairState { secondary_backed_up: true, ..t }, i),
                }
            },
        }
    }
}

/// Moves both staged executables into place.
pub open spec fn move_in_at(l: Seq<IoEvent>, i: int, t: PairState) -> (
    Result<(), IoErrorView>,
    PairState,
    int,
) {
    let (r, i) = rename_at(l, i, t.stage.primary, t.paths.primary);
    match r {
        Err(error) => (Err(error), t, i),
        Ok(_) => {
            let t = PairState { primary_activated: true, ..t };
            let (r, i) = rename_at(l, i, t.stage.secondary, t.paths.secondary);
            match r {
                Err(error) => (Err(error), t, i),
                Ok(_) => (Ok(()), PairState { secondary_activated: true, ..t }, i),
            }
        },
    }
}

/// The outcome of an effect that happens only where it is wanted.
pub open spec fn remove_if_at(l: Seq<IoEvent>, i: int, wanted: bool, path: Seq<u8>) -> (
    Result<(), IoErrorView>,
    int,
) {
    if wanted {
        remove_file_at(l, i, path)
    } else {
        (Ok(()), i)
    }
}

pub open spec fn rename_if_at(
    l: Seq<IoEvent>,
    i: int,
    wanted: bool,
    from: Seq<u8>,
    to: Seq<u8>,
) -> (Result<(), IoErrorView>, int) {
    if wanted {
        rename_at(l, i, from, to)
    } else {
        (Ok(()), i)
    }
}

/// The problems so far and, where a restored file is not what it was, one
/// more.
pub open spec fn compared(
    problems: Seq<Seq<char>>,
    r: Result<Seq<u8>, IoErrorView>,
    old: Seq<u8>,
    path: Seq<u8>,
) -> Seq<Seq<char>> {
    match r {
        Ok(bytes) => if bytes == old {
            problems
        } else {
            problems.push(lossy_text(path) + ": restored bytes differ"@)
        },
        Err(error) => problems.push(lossy_text(path) + ": verify restore: "@ + error.message),
    }
}

/// Removes what was moved in, moves back what was moved aside, compares both
/// executables with what they were, and removes the staged files. Every step
/// is tried, whatever became of the others.
pub open spec fn roll_back_at(l: Seq<IoEvent>, i: int, t: PairState) -> (
    Result<(), Seq<char>>,
    int,
) {
    let problems = Seq::<Seq<char>>::empty();
    let (r, i) = remove_if_at(l, i, t.primary_activated, t.paths.primary);
    let problems = noted(problems, r, t.paths.primary, ": remove: "@);
    let (r, i) = remove_if_at(l, i, t.secondary_activated, t.paths.secondary);
    let problems = noted(problems, r, t.paths.secondary, ": remove: "@);
    let (r, i) = rename_if_at(l, i, t.primary_backed_up, t.backup.primary, t.paths.primary);
    let problems = noted(problems, r, t.paths.primary, ": restore: "@);
    let (r, i) = rename_if_at(l, i, t.secondary_backed_up, t.backup.secondary, t.paths.secondary);
    let problems = noted(problems, r, t.paths.secondary, ": restore: "@);
    let (r, i) = read_file_at(l, i, t.paths.primary);
    let problems = compared(problems, r, t.old_primary, t.paths.primary);
    let (r, i) = read_file_at(l, i, t.paths.secondary);
    let problems = compared(problems, r, t.old_secondary, t.paths.secondary);
    let (r, i) = remove_file_at(l, i, t.stage.primary);
    let problems = noted(problems, r, t.stage.primary, ": cleanup: "@);
    let (r, i) = remove_file_at(l, i, t.stage.secondary);
    let problems = noted(problems, r, t.stage.secondary, ": cleanup: "@);
    (settled(problems), i)
}

/// Removes both staged files.
pub open spec fn clear_stages_at(l: Seq<IoEvent>, i: int, t: PairState) -> (
    Result<(), Seq<char>>,
    int,
) {
    let (r, i) = remove_file_at(l, i, t.stage.primary);
    let problems = noted(Seq::empty(), r, t.stage.primary, ": "@);
    let (r, i) = remove_file_at(l, i, t.stage.secondary);
    let problems = noted(problems, r, t.stage.secondary, ": "@);
    (settled(problems), i)
}

/// Removes the kept files and what may be left of the staged ones.
pub open spec fn clear_backups_at(l: Seq<IoEvent>, i: int, t: PairState) -> (
    Result<(), Seq<char>>,
    int,
) {
    let (r, i) = remove_file_at(l, i, t.backup.primary);
    let problems = noted(Seq::empty(), r, t.backup.primary, ": "@);
    let (r, i) = remove_file_at(l, i, t.backup.secondary);
    let problems = noted(problems, r, t.backup.secondary, ": "@);
    let (r, i) = remove_file_at(l, i, t.stage.primary);
    let problems = noted(problems, r, t.stage.primary, ": "@);
    let (r, i) = remove_file_at(l, i, t.stage.secondary);
    let problems = noted(problems, r, t.stage.secondary, ": "@);
    (settled(problems), i)
}

/// The view of a captured pair.
pub open spec fn pair_answer(r: Result<PairTransaction, UpdateFailure>) -> Result<
    PairState,
    FailureView,
> {
    match r {
        Ok(t) => Ok(t@),
        Err(failure) => Err(failure@),
    }
}

impl PairTransaction {
    /// Reads both executables and prepares their replacement by `version`.
    pub fn capture<I: UpdateIo>(io: &mut I, paths: BinaryPair, version: String) -> (r: Result<
        Self,
        UpdateFailure,
    >)
        ensures
            extends(final(io).log(), old(io).log()),
            forall|l: Seq<IoEvent>|
                extends(l, final(io).log()) ==> #[trigger] capture_pair_at(
                    l,
                    old(io).log().len() as int,
                    paths@,
                    version@,
                ) == (pair_answer(r), final(io).log().len() as int),
    {
        let old_primary = match io.read_file(paths.primary.as_slice()) {
            Ok(bytes) => bytes,
            Err(error) => {
                return Err(
                    UpdateFailure::new(
                        "staging_snapshot_failed",
                        error.message,
                        paths.primary.as_slice(),
                    ),
                );
            },
        };
        let old_secondary = match io.read_file(paths.secondary.as_slice()) {
            Ok(bytes) => bytes,
            Err(error) => {
                return Err(
                    UpdateFailure::new(
                        "staging_snapshot_failed",
                        error.message,
                        paths.secondary.as_slice(),
                    ),
                );
            },
        };
        let stage = text2("stage.ramiz-update-", version.as_str());
        let backup = text2("previous.ramiz-update-", version.as_str());
        let t = PairTransaction {
            stage_primary: with_extension(paths.primary.as_slice(), utf8_of(stage.as_str())),
            stage_secondary: with_extension(paths.secondary.as_slice(), utf8_of(stage.as_str())),
            backup_primary: with_extension(paths.primary.as_slice(), utf8_of(backup.as_str())),
            backup_secondary: with_extension(paths.secondary.as_slice(), utf8_of(backup.as_str())),
            paths,
            version,
            primary_backed_up: false,
            secondary_backed_up: false,
            primary_activated: false,
            secondary_activated: false,
            old_primary,
            old_secondary,
        };
        Ok(t)
    }

    /// The staged executables.
    pub fn staged_pair(&self) -> (r: BinaryPair)
        ensures
            r@ == self@.stage,
    {
        BinaryPair {
            primary: copy(self.stage_primary.as_slice()),
            secondary: copy(self.stage_secondary.as_slice()),
        }
    }

    /// Moves both executables aside.
    pub fn move_old_to_backup<I: UpdateIo>(&mut self, io: &mut I) -> (r: Result<(), IoError>)
        ensures
            extends(final(io).log(), old(io).log()),
            forall|l: Seq<IoEvent>|
                extends(l, final(io).log()) ==> #[trigger] move_aside_at(
                    l,
                    old(io).log().len() as int,
                    old(self)@,
                ) == (done(r), final(self)@, final(io).log().len() as int),
    {
        if io.path_exists(self.backup_primary.as_slice()) || io.path_exists(
            self.backup_secondary.as_slice(),
        ) {
            return Err(
                IoError {
                    kind: IoErrorKind::AlreadyExists,
                    message: "update backup already exists".to_owned(),
                },
            );
        }
        if let Err(error) = io.rename(
            self.paths.primary.as_slice(),
            self.backup_primary.as_slice(),
        ) {
            return Err(error);
        }
        self.primary_backed_up = true;
        if let Err(error) = io.rename(
            self.paths.secondary.as_slice(),
            self.backup_secondary.as_slice(),
        ) {
            return Err(error);
        }
        self.secondary_backed_up = true;
        Ok(())
    }

    /// Moves both staged executables into place.
    pub fn activate<I: UpdateIo>(&mut self, io: &mut I) -> (r: Result<(), IoError>)
        ensures
            extends(final(io).log(), old(io).log()),
            forall|l: Seq<IoEvent>|
                extends(l, final(io).log()) ==> #[trigger] move_in_at(
                    l,
                    old(io).log().len() as int,
                    old(self)@,
                ) == (done(r), final(self)@, final(io).log().len() as int),
    {
        if let Err(error) = io.rename(
            self.stage_primary.as_slice(),
            self.paths.primary.as_slice(),
        ) {
            return Err(error);
        }
        self.primary_activated = true;
        if let Err(error) = io.rename(
            self.stage_secondary.as_slice(),
            self.paths.secondary.as_slice(),
        ) {
            return Err(error);
        }
        self.secondary_activated = true;
        Ok(())
    }

    /// Puts the old executables back.
    pub fn rollback<I: UpdateIo>(&self, io: &mut I) -> (r: Result<(), String>)
        ensures
            extends(final(io).log(), old(io).log()),
            forall|l: Seq<IoEvent>|
                extends(l, final(io).log()) ==> #[trigger] roll_back_at(
                    l,
                    old(io).log().len() as int,
                    self@,
                ) == (text_result(r), final(io).log().len() as int),
    {
        let primary = self.paths.primary.as_slice();
        let secondary = self.paths.secondary.as_slice();
        let mut problems = no_problems();
        if self.primary_activated {
            note(&mut problems, io.remove_file(primary), primary, ": remove: ");
        }
        if self.secondary_activated {
            note(&mut problems, io.remove_file(secondary), secondary, ": remove: ");
        }
        if self.primary_backed_up {
            let r = io.rename(self.backup_primary.as_slice(), primary);
            note(&mut problems, r, primary, ": restore: ");
        }
        if self.secondary_backed_up {
            let r = io.rename(self.backup_secondary.as_slice(), secondary);
            note(&mut problems, r, secondary, ": restore: ");
        }
        let r = io.read_file(primary);
        compare_restored(&mut problems, r, self.old_primary.as_slice(), primary);
        let r = io.read_file(secondary);
        compare_restored(&mut problems, r, self.old_secondary.as_slice(), secondary);
        let stage = self.stage_primary.as_slice();
        note(&mut problems, io.remove_file(stage), stage, ": cleanup: ");
        let stage = self.stage_secondary.as_slice();
        note(&mut problems, io.remove_file(stage), stage, ": cleanup: ");
        settle(problems)
    }

    /// Removes both staged files.
    pub fn cleanup_stages<I: UpdateIo>(&self, io: &mut I) -> (r: Result<(), String>)
        ensures
            extends(final(io).log(), old(io).log()),
            forall|l: Seq<IoEvent>|
                extends(l, final(io).log()) ==> #[trigger] clear_stages_at(
                    l,
                    old(io).log().len() as int,
                    self@,
                ) == (text_result(r), final(io).log().len() as int),
    {
        let mut problems = no_problems();
        let path = self.stage_primary.as_slice();
        note(&mut problems, io.remove_file(path), path, ": ");
        let path = self.stage_secondary.as_slice();
        note(&mut problems, io.remove_file(path), path, ": ");
        settle(problems)
    }

    /// Removes the kept files and what may be left of the staged ones.
    pub fn cleanup_backups<I: UpdateIo>(&self, io: &mut I) -> (r: Result<(), String>)
        ensures
            extends(final(io).log(), old(io).log()),
            forall|l: Seq<IoEvent>|
                extends(l, final(io).log()) ==> #[trigger] clear_backups_at(
                    l,
                    old(io).log().len() as int,
                    self@,
                ) == (text_result(r), final(io).log().len() as int),
    {
        let mut problems = no_problems();
        let path = self.backup_primary.as_slice();
        note(&mut problems, io.remove_file(path), path, ": ");
        let path = self.backup_secondary.as_slice();
        note(&mut problems, io.remove_file(path), path, ": ");
        let path = self.stage_primary.as_slice();
        note(&mut problems, io.remove_file(path), path, ": ");
        let path = self.stage_secondary.as_slice();
        note(&mut problems, io.remove_file(path), path, ": ");
        settle(problems)
    }
}

fn compare_restored(
    problems: &mut Vec<String>,
    r: Result<Vec<u8>, IoError>,
    old_bytes: &[u8],
    path: &[u8],
)
    ensures
        text_views(final(problems)@) == compared(
            text_views(old(problems)@),
            crate::update::io::bytes_answer(r),
            old_bytes@,
            path@,
        ),
{
    match r {
        Ok(bytes) => {
            if !same_bytes(bytes.as_slice(), old_bytes) {
                push_problem(problems, text2(lossy(path).as_str(), ": restored bytes differ"));
            }
        },
        Err(error) => {
            push_problem(
                problems,
                text3(lossy(path).as_str(), ": verify restore: ", error.message.as_str()),
            );
        },
    }
}

} // verus!
