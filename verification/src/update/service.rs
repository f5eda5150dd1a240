//! The update itself.
use crate::outside::{is_after, lossy, lossy_text, version_after, version_error, version_problem};
use crate::path::{same_path, steps};
use crate::text::{
    copy, decimal, decimal_text, is_blank, same, stripped, text2, text3, text4, utf8, utf8_of,
};
use crate::update::activation::{activate_at, activate_standalone};
use crate::update::adoption::{adopt_files_at, marker_for, marker_for_at, write_adoption_material};
use crate::update::cargo::{capture_backup_at, install, install_at, restore_backup_at, CargoBackup};
use crate::update::discover::{
    answers_bytes, cargo_place, cargo_place_of, discover_at, discover_installer, install_root,
    install_root_at, read_marker, read_marker_at, resolve, resolve_at,
    standalone_snapshot_unchanged, unchanged_at,
};
use crate::update::io::{
    acquire_lock_at, command_available_at, done, download_at, effective_user_at, exact_release_at,
    extends, is_file_at, latest_at, outcome, path_exists_at, read_file_at, release_lock_at,
    trust_material_at, validate_at, verify_at, ArtifactVerifier, IoEvent, ProviderEvent,
    ReleaseProvider, UpdateIo, VerifierEvent,
};
use crate::update::marker::{
    manifest_at, manifest_path, marker_at, marker_json, marker_of, marker_path, safe_version,
    signature_at, signature_path, version_like,
};
use crate::update::model::{
    binstall_command, brew_command, failure, install_command, pair_of, BinaryPair, CommandSpec,
    CommandView, DownloadedRelease, FailureView, Installer, IoError, IoErrorView, MarkerView,
    MetadataView, PairView, ReleaseMetadata, ReleaseView, ResultView, StandaloneMarker,
    UpdateFailure, UpdateRequest, UpdateResult, HOMEBREW_COMMAND, REPOSITORY,
};
use crate::update::records::{cargo_record_present, record_present_at};
use crate::update::transaction::{capture_pair_at, PairTransaction};
use vstd::prelude::*;

verus! {

/// Updates one installation through a machine, a release source and a check of
/// what was downloaded.
pub struct UpdateService<I, P, V> {
    pub io: I,
    pub provider: P,
    pub verifier: V,
    /// The platform that releases are looked up for.
    pub host: String,
}

/// The three logs of a service.
pub struct Trace {
    pub io: Seq<IoEvent>,
    pub provider: Seq<ProviderEvent>,
    pub verifier: Seq<VerifierEvent>,
}

/// A position in each of the three logs.
pub struct At {
    pub io: int,
    pub provider: int,
    pub verifier: int,
}

impl At {
    /// The same positions but for the machine's.
    pub open spec fn io_at(self, io: int) -> At {
        At { io, ..self }
    }

    /// The same positions but for the release source's.
    pub open spec fn provider_at(self, provider: int) -> At {
        At { provider, ..self }
    }

    /// The same positions but for the check's.
    pub open spec fn verifier_at(self, verifier: int) -> At {
        At { verifier, ..self }
    }
}

/// `t` continues `p`.
pub open spec fn continues(t: Trace, p: Trace) -> bool {
    &&& extends(t.io, p.io)
    &&& extends(t.provider, p.provider)
    &&& extends(t.verifier, p.verifier)
}

impl<I: UpdateIo, P: ReleaseProvider, V: ArtifactVerifier> UpdateService<I, P, V> {
    /// The logs as they are.
    pub open spec fn trace(&self) -> Trace {
        Trace {
            io: self.io.log(),
            provider: self.provider.log(),
            verifier: self.verifier.log(),
        }
    }

    /// The ends of the logs.
    pub open spec fn at(&self) -> At {
        At {
            io: self.io.log().len() as int,
            provider: self.provider.log().len() as int,
            verifier: self.verifier.log().len() as int,
        }
    }
}

/// The model of an [`UpdateRequest`].
pub struct RequestView {
    pub check: bool,
    pub adopt: bool,
    pub executable: Seq<u8>,
    pub current_version: Seq<char>,
}

impl View for UpdateRequest {
    type V = RequestView;

    open spec fn view(&self) -> RequestView {
        RequestView {
            check: self.check,
            adopt: self.adopt,
            executable: self.executable@,
            current_version: self.current_version@,
        }
    }
}

// ---------------------------------------------------------------------------
// Results
// ---------------------------------------------------------------------------

/// A result that reports a target and changes nothing.
pub open spec fn fresh_result(
    current: Seq<char>,
    paths: PairView,
    installer: Installer,
    target: Seq<char>,
    available: bool,
) -> ResultView {
    ResultView {
        installer,
        current_version: current,
        target_version: Some(target),
        available,
        applied: false,
        changed: false,
        executable: paths.primary,
        secondary_executable: paths.secondary,
        commands: Seq::empty(),
        message: Seq::empty(),
    }
}

/// A result with what is said of availability.
pub open spec fn reported(result: ResultView) -> ResultView {
    ResultView {
        message: if result.available {
            "update available"@
        } else {
            "already current"@
        },
        ..result
    }
}

/// A result that reports `target` and changes nothing.
pub fn result_for(
    request: &UpdateRequest,
    paths: &BinaryPair,
    installer: Installer,
    target: &str,
    available: bool,
) -> (r: UpdateResult)
    ensures
        r@ == fresh_result(request@.current_version, paths@, installer, target@, available),
{
    let r = UpdateResult {
        installer,
        current_version: request.current_version.clone(),
        target_version: Some(target.to_owned()),
        available,
        applied: false,
        changed: false,
        executable: copy(paths.primary.as_slice()),
        secondary_executable: copy(paths.secondary.as_slice()),
        commands: Vec::new(),
        message: String::new(),
    };
    assert(r@.commands =~= Seq::empty());
    r
}

fn report(result: UpdateResult) -> (r: UpdateResult)
    ensures
        r@ == reported(result@),
{
    let mut r = result;
    r.message = if r.available {
        "update available".to_owned()
    } else {
        "already current".to_owned()
    };
    r
}

// ---------------------------------------------------------------------------
// The lock
// ---------------------------------------------------------------------------

/// The lock of a user's updates.
pub open spec fn lock_of(user: u32) -> Seq<u8> {
    utf8("/tmp/ramiz-update-"@ + decimal(user as nat) + ".lock"@)
}

/// The lock of the updates of `user`.
pub fn host_lock_path(user: u32) -> (r: Vec<u8>)
    ensures
        r@ == lock_of(user),
{
    let number = decimal_text(user as u128);
    let text = text3("/tmp/ramiz-update-", number.as_str(), ".lock");
    copy(utf8_of(text.as_str()))
}

/// Takes the lock and gives its path.
pub open spec fn take_lock_at(l: Seq<IoEvent>, i: int) -> (Result<Seq<u8>, IoErrorView>, int) {
    let (user, i) = effective_user_at(l, i);
    let (r, i) = acquire_lock_at(l, i, lock_of(user));
    match r {
        Ok(_) => (Ok(lock_of(user)), i),
        Err(error) => (Err(error), i),
    }
}

fn take_lock<I: UpdateIo>(io: &mut I) -> (r: Result<Vec<u8>, IoError>)
    ensures
        extends(final(io).log(), old(io).log()),
        forall|l: Seq<IoEvent>|
            extends(l, final(io).log()) ==> #[trigger] take_lock_at(l, old(io).log().len() as int)
                == (crate::update::io::bytes_answer(r), final(io).log().len() as int),
{
    let lock = host_lock_path(io.effective_user());
    match io.acquire_lock(lock.as_slice()) {
        Ok(()) => Ok(lock),
        Err(error) => Err(error),
    }
}

/// A failure to take the lock.
pub open spec fn locked_failure(
    error: IoErrorView,
    paths: PairView,
    installer: Installer,
) -> FailureView {
    failure(
        "update_locked"@,
        "another Ramiz update is running: "@ + error.message,
        paths.primary,
    ).of_installer(installer)
}

/// What comes of an update once the lock is given back: a success stands only
/// where that worked.
pub open spec fn unlocked(
    r: Result<ResultView, FailureView>,
    unlock: Result<(), IoErrorView>,
    paths: PairView,
    installer: Installer,
) -> Result<ResultView, FailureView> {
    match (r, unlock) {
        (Ok(_), Err(error)) => Err(
            failure("lock_release_failed"@, error.message, paths.primary).of_installer(installer),
        ),
        _ => r,
    }
}

fn after_unlock(
    r: Result<UpdateResult, UpdateFailure>,
    unlock: Result<(), IoError>,
    paths: &BinaryPair,
    installer: Installer,
) -> (out: Result<UpdateResult, UpdateFailure>)
    ensures
        outcome(out) == unlocked(outcome(r), done(unlock), paths@, installer),
{
    match (r, unlock) {
        (Ok(_), Err(error)) => Err(
            UpdateFailure::new(
                "lock_release_failed",
                error.message,
                paths.primary.as_slice(),
            ).with_installer(installer),
        ),
        (r, _) => r,
    }
}

// ---------------------------------------------------------------------------
// The newest release
// ---------------------------------------------------------------------------

/// What is wrong with the metadata of the newest release, if anything.
pub open spec fn metadata_problem(
    metadata: MetadataView,
    host: Seq<char>,
    current: Seq<char>,
    paths: PairView,
    installer: Installer,
) -> Option<FailureView> {
    if metadata.repository != REPOSITORY@ {
        Some(
            failure(
                "untrusted_release_source"@,
                "release metadata is from "@ + metadata.repository + ", expected "@ + REPOSITORY@,
                paths.primary,
            ).of_installer(installer),
        )
    } else if !version_like(metadata.version) || metadata.host != host || stripped(
        metadata.primary_asset,
    ).len() == 0 || stripped(metadata.secondary_asset).len() == 0 {
        Some(
            failure(
                "invalid_release_metadata"@,
                "release metadata has no matching version or host"@,
                paths.primary,
            ).of_installer(installer),
        )
    } else {
        match version_error(metadata.version) {
            Some(error) => Some(
                failure(
                    "invalid_release_metadata"@,
                    "invalid release version: "@ + error,
                    paths.primary,
                ).of_installer(installer),
            ),
            None => match version_error(current) {
                Some(error) => Some(
                    failure(
                        "invalid_current_version"@,
                        "invalid current version: "@ + error,
                        paths.primary,
                    ).of_installer(installer),
                ),
                None => None,
            },
        }
    }
}

/// The newest release, and whether it is newer than the current version.
pub open spec fn newest(
    answer: Result<MetadataView, FailureView>,
    host: Seq<char>,
    current: Seq<char>,
    paths: PairView,
    installer: Installer,
) -> Result<(MetadataView, bool), FailureView> {
    match answer {
        Err(failure) => Err(failure.of_installer(installer)),
        Ok(metadata) => match metadata_problem(metadata, host, current, paths, installer) {
            Some(failure) => Err(failure),
            None => Ok((metadata, version_after(metadata.version, current))),
        },
    }
}

/// The view of a looked-up release.
pub open spec fn newest_answer(r: Result<(ReleaseMetadata, bool), UpdateFailure>) -> Result<
    (MetadataView, bool),
    FailureView,
> {
    match r {
        Ok((metadata, available)) => Ok((metadata@, available)),
        Err(failure) => Err(failure@),
    }
}

/// Judges what the release source answered: the newest release, and whether it
/// is newer than `current`.
pub fn judge_latest(
    answer: Result<ReleaseMetadata, UpdateFailure>,
    host: &str,
    current: &str,
    paths: &BinaryPair,
    installer: Installer,
) -> (r: Result<(ReleaseMetadata, bool), UpdateFailure>)
    ensures
        newest_answer(r) == newest(outcome(answer), host@, current@, paths@, installer),
{
    let primary = paths.primary.as_slice();
    let metadata = match answer {
        Ok(metadata) => metadata,
        Err(failure) => return Err(failure.with_installer(installer)),
    };
    if !same(metadata.repository.as_str(), REPOSITORY) {
        let message = text4(
            "release metadata is from ",
            metadata.repository.as_str(),
            ", expected ",
            REPOSITORY,
        );
        return Err(
            UpdateFailure::new("untrusted_release_source", message, primary).with_installer(
                installer,
            ),
        );
    }
    if !safe_version(metadata.version.as_str()) || !same(metadata.host.as_str(), host) || is_blank(
        metadata.primary_asset.as_str(),
    ) || is_blank(metadata.secondary_asset.as_str()) {
        return Err(
            UpdateFailure::new(
                "invalid_release_metadata",
                "release metadata has no matching version or host".to_owned(),
                primary,
            ).with_installer(installer),
        );
    }
    if let Some(error) = version_problem(metadata.version.as_str()) {
        return Err(
            UpdateFailure::new(
                "invalid_release_metadata",
                text2("invalid release version: ", error.as_str()),
                primary,
            ).with_installer(installer),
        );
    }
    if let Some(error) = version_problem(current) {
        return Err(
            UpdateFailure::new(
                "invalid_current_version",
                text2("invalid current version: ", error.as_str()),
                primary,
            ).with_installer(installer),
        );
    }
    let available = is_after(metadata.version.as_str(), current);
    Ok((metadata, available))
}

// ---------------------------------------------------------------------------
// Cargo
// ---------------------------------------------------------------------------

/// A failure of an installation by Cargo.
pub open spec fn cargo_failure(
    code: Seq<char>,
    message: Seq<char>,
    paths: PairView,
) -> FailureView {
    failure(code, message, paths.primary).of_installer(Installer::Cargo)
}

fn cargo_error(code: &'static str, message: String, paths: &BinaryPair) -> (r: UpdateFailure)
    ensures
        r@ == cargo_failure(code@, message@, paths@),
{
    UpdateFailure::new(code, message, paths.primary.as_slice()).with_installer(Installer::Cargo)
}

/// Both executables are there.
pub open spec fn pair_present_at(l: Seq<IoEvent>, i: int, paths: PairView) -> (bool, int) {
    let (present, i) = is_file_at(l, i, paths.primary);
    if present {
        is_file_at(l, i, paths.secondary)
    } else {
        (false, i)
    }
}

fn pair_present<I: UpdateIo>(io: &mut I, paths: &BinaryPair) -> (r: bool)
    ensures
        extends(final(io).log(), old(io).log()),
        forall|l: Seq<IoEvent>|
            extends(l, final(io).log()) ==> #[trigger] pair_present_at(
                l,
                old(io).log().len() as int,
                paths@,
            ) == (r, final(io).log().len() as int),
{
    io.is_file(paths.primary.as_slice()) && io.is_file(paths.secondary.as_slice())
}

/// The root below which Cargo installed the running version of both
/// executables.
pub open spec fn cargo_checked_at(
    l: Seq<IoEvent>,
    i: int,
    host: Seq<char>,
    current: Seq<char>,
    paths: PairView,
) -> (Result<Seq<u8>, FailureView>, int) {
    let (root, i) = install_root_at(l, i);
    match root {
        None => (
            Err(
                cargo_failure(
                    "cargo_root_unproven"@,
                    "Cargo installation root is unavailable"@,
                    paths,
                ),
            ),
            i,
        ),
        Some(root) => {
            let (primary, i) = resolve_at(l, i, paths.primary);
            let (expected, i) = resolve_at(l, i, cargo_place(root, paths.primary));
            if steps(primary) != steps(expected) {
                (
                    Err(
                        cargo_failure(
                            "cargo_root_unproven"@,
                            lossy_text(paths.primary)
                                + " is outside the Cargo installation root"@,
                            paths,
                        ),
                    ),
                    i,
                )
            } else {
                let (proven, i) = record_present_at(l, i, root, Some(current), host);
                if !proven {
                    (
                        Err(
                            cargo_failure(
                                "cargo_record_unproven"@,
                                "Cargo installation record does not prove that Ramiz owns this executable"@,
                                paths,
                            ),
                        ),
                        i,
                    )
                } else {
                    let (present, i) = pair_present_at(l, i, paths);
                    if !present {
                        (
                            Err(
                                cargo_failure(
                                    "binary_pair_missing"@,
                                    "Cargo updates require both ramiz and git-ramiz executables"@,
                                    paths,
                                ),
                            ),
                            i,
                        )
                    } else {
                        (Ok(root), i)
                    }
                }
            }
        },
    }
}

/// The view of a checked root.
pub open spec fn root_answer(r: Result<Vec<u8>, UpdateFailure>) -> Result<Seq<u8>, FailureView> {
    match r {
        Ok(root) => Ok(root@),
        Err(failure) => Err(failure@),
    }
}

fn cargo_checked<I: UpdateIo>(io: &mut I, host: &str, current: &str, paths: &BinaryPair) -> (r:
    Result<Vec<u8>, UpdateFailure>)
    ensures
        extends(final(io).log(), old(io).log()),
        forall|l: Seq<IoEvent>|
            extends(l, final(io).log()) ==> #[trigger] cargo_checked_at(
                l,
                old(io).log().len() as int,
                host@,
                current@,
                paths@,
            ) == (root_answer(r), final(io).log().len() as int),
{
    let root = match install_root(io) {
        Some(root) => root,
        None => {
            return Err(
                cargo_error(
                    "cargo_root_unproven",
                    "Cargo installation root is unavailable".to_owned(),
                    paths,
                ),
            );
        },
    };
    let primary = resolve(io, paths.primary.as_slice());
    let place = cargo_place_of(root.as_slice(), paths.primary.as_slice());
    let expected = resolve(io, place.as_slice());
    if !same_path(primary.as_slice(), expected.as_slice()) {
        let message = text2(
            lossy(paths.primary.as_slice()).as_str(),
            " is outside the Cargo installation root",
        );
        return Err(cargo_error("cargo_root_unproven", message, paths));
    }
    if !cargo_record_present(io, root.as_slice(), Some(current), host) {
        return Err(
            cargo_error(
                "cargo_record_unproven",
                "Cargo installation record does not prove that Ramiz owns this executable".to_owned(),
                paths,
            ),
        );
    }
    if !pair_present(io, paths) {
        return Err(
            cargo_error(
                "binary_pair_missing",
                "Cargo updates require both ramiz and git-ramiz executables".to_owned(),
                paths,
            ),
        );
    }
    Ok(root)
}

/// A failed installation after everything was put back, or not.
pub open spec fn restored(
    failed: FailureView,
    restore: Result<(), IoErrorView>,
    paths: PairView,
) -> FailureView {
    match restore {
        Ok(_) => failed,
        Err(error) => cargo_failure(
            "cargo_rollback_failed"@,
            failed.message + "; failed to restore the previous Cargo installation: "@
                + error.message,
            paths,
        ),
    }
}

/// The update of an installation by Cargo under the lock: nothing may have
/// changed meanwhile, and a failure puts everything back.
pub open spec fn cargo_locked_at(
    l: Seq<IoEvent>,
    i: int,
    host: Seq<char>,
    current: Seq<char>,
    paths: PairView,
    root: Seq<u8>,
    command: CommandView,
    version: Seq<char>,
    result: ResultView,
) -> (Result<ResultView, FailureView>, int) {
    let changed = cargo_failure(
        "installation_changed"@,
        "Cargo ownership changed while acquiring the update lock"@,
        paths,
    );
    let (owner, i) = discover_at(l, i, paths, host);
    if owner != Installer::Cargo {
        (Err(changed), i)
    } else {
        let (proven, i) = record_present_at(l, i, root, Some(current), host);
        if !proven {
            (Err(changed), i)
        } else {
            let (backup, i) = capture_backup_at(l, i, paths, root);
            match backup {
                Err(failure) => (Err(failure.of_installer(Installer::Cargo)), i),
                Ok(backup) => {
                    let (r, i) = install_at(l, i, command, paths, version, result);
                    match r {
                        Ok(result) => (Ok(result), i),
                        Err(failure) => {
                            let (restore, i) = restore_backup_at(l, i, backup);
                            (Err(restored(failure, restore, paths)), i)
                        },
                    }
                },
            }
        }
    }
}

fn cargo_locked<I: UpdateIo>(
    io: &mut I,
    host: &str,
    current: &str,
    paths: &BinaryPair,
    root: &[u8],
    command: &CommandSpec,
    version: &str,
    result: UpdateResult,
) -> (r: Result<UpdateResult, UpdateFailure>)
    ensures
        extends(final(io).log(), old(io).log()),
        forall|l: Seq<IoEvent>|
            extends(l, final(io).log()) ==> #[trigger] cargo_locked_at(
                l,
                old(io).log().len() as int,
                host@,
                current@,
                paths@,
                root@,
                command@,
                version@,
                result@,
            ) == (outcome(r), final(io).log().len() as int),
{
    if discover_installer(io, paths, host) != Installer::Cargo || !cargo_record_present(
        io,
        root,
        Some(current),
        host,
    ) {
        return Err(
            cargo_error(
                "installation_changed",
                "Cargo ownership changed while acquiring the update lock".to_owned(),
                paths,
            ),
        );
    }
    let backup = match CargoBackup::capture(io, paths, root) {
        Ok(backup) => backup,
        Err(failure) => return Err(failure.with_installer(Installer::Cargo)),
    };
    match install(io, command, paths, version, result) {
        Ok(result) => Ok(result),
        Err(failure) => {
            match backup.restore(io) {
                Ok(()) => Err(failure),
                Err(error) => {
                    let message = text3(
                        failure.message.as_str(),
                        "; failed to restore the previous Cargo installation: ",
                        error.message.as_str(),
                    );
                    Err(cargo_error("cargo_rollback_failed", message, paths))
                },
            }
        },
    }
}

/// The command that installs `version`: cargo-binstall where it is there.
pub open spec fn cargo_command(binstall: bool, version: Seq<char>, root: Seq<u8>) -> CommandView {
    if binstall {
        binstall_command(version, root)
    } else {
        install_command(version, root)
    }
}

/// The update of an installation by Cargo once a newer release is known.
pub open spec fn cargo_update_at(
    l: Seq<IoEvent>,
    i: int,
    host: Seq<char>,
    current: Seq<char>,
    paths: PairView,
    root: Seq<u8>,
    version: Seq<char>,
    result: ResultView,
) -> (Result<ResultView, FailureView>, int) {
    let (binstall, i) = command_available_at(l, i, "cargo-binstall"@);
    let command = cargo_command(binstall, version, root);
    let (lock, i) = take_lock_at(l, i);
    match lock {
        Err(error) => (Err(locked_failure(error, paths, Installer::Cargo)), i),
        Ok(lock) => {
            let (r, i) = cargo_locked_at(
                l,
                i,
                host,
                current,
                paths,
                root,
                command,
                version,
                result,
            );
            let (unlock, i) = release_lock_at(l, i, lock);
            (unlocked(r, unlock, paths, Installer::Cargo), i)
        },
    }
}

fn cargo_update<I: UpdateIo>(
    io: &mut I,
    host: &str,
    current: &str,
    paths: &BinaryPair,
    root: &[u8],
    version: &str,
    result: UpdateResult,
) -> (r: Result<UpdateResult, UpdateFailure>)
    ensures
        extends(final(io).log(), old(io).log()),
        forall|l: Seq<IoEvent>|
            extends(l, final(io).log()) ==> #[trigger] cargo_update_at(
                l,
                old(io).log().len() as int,
                host@,
                current@,
                paths@,
                root@,
                version@,
                result@,
            ) == (outcome(r), final(io).log().len() as int),
{
    let command = if io.command_available("cargo-binstall") {
        CommandSpec::cargo_binstall(version, root)
    } else {
        CommandSpec::cargo_install(version, root)
    };
    let lock = match take_lock(io) {
        Ok(lock) => lock,
        Err(error) => {
            let message = text2("another Ramiz update is running: ", error.message.as_str());
            return Err(cargo_error("update_locked", message, paths));
        },
    };
    let r = cargo_locked(io, host, current, paths, root, &command, version, result);
    let unlock = io.release_lock(lock.as_slice());
    after_unlock(r, unlock, paths, Installer::Cargo)
}

/// The update of an installation by Cargo.
pub open spec fn run_cargo_at(
    t: Trace,
    c: At,
    host: Seq<char>,
    request: RequestView,
    paths: PairView,
) -> (Result<ResultView, FailureView>, At) {
    let current = request.current_version;
    let (root, i) = cargo_checked_at(t.io, c.io, host, current, paths);
    let c = c.io_at(i);
    match root {
        Err(failure) => (Err(failure), c),
        Ok(root) => {
            let (answer, p) = latest_at(t.provider, c.provider, host);
            let c = c.provider_at(p);
            match newest(answer, host, current, paths, Installer::Cargo) {
                Err(failure) => (Err(failure), c),
                Ok((metadata, available)) => {
                    let result = fresh_result(
                        current,
                        paths,
                        Installer::Cargo,
                        metadata.version,
                        available,
                    );
                    if request.check || !available {
                        (Ok(reported(result)), c)
                    } else {
                        let (r, i) = cargo_update_at(
                            t.io,
                            c.io,
                            host,
                            current,
                            paths,
                            root,
                            metadata.version,
                            result,
                        );
                        (r, c.io_at(i))
                    }
                },
            }
        },
    }
}

// ---------------------------------------------------------------------------
// Standalone
// ---------------------------------------------------------------------------

/// A failure of a standalone installation that names its kind.
pub open spec fn loose_failure(
    code: Seq<char>,
    message: Seq<char>,
    paths: PairView,
) -> FailureView {
    failure(code, message, paths.primary).of_installer(Installer::Standalone)
}

fn loose_error(code: &'static str, message: String, paths: &BinaryPair) -> (r: UpdateFailure)
    ensures
        r@ == loose_failure(code@, message@, paths@),
{
    UpdateFailure::new(code, message, paths.primary.as_slice()).with_installer(
        Installer::Standalone,
    )
}

/// The marker, the manifest and its signature are there.
pub open spec fn sidecars_present_at(l: Seq<IoEvent>, i: int, primary: Seq<u8>) -> (bool, int) {
    let (marker, i) = is_file_at(l, i, marker_at(primary));
    if !marker {
        (false, i)
    } else {
        let (manifest, i) = is_file_at(l, i, manifest_at(primary));
        if !manifest {
            (false, i)
        } else {
            is_file_at(l, i, signature_at(primary))
        }
    }
}

/// The marker, the manifest and its signature of an adopted installation.
pub open spec fn local_material_at(
    l: Seq<IoEvent>,
    i: int,
    host: Seq<char>,
    current: Seq<char>,
    paths: PairView,
) -> (Result<(MarkerView, Seq<u8>, Seq<u8>), FailureView>, int) {
    let (present, i) = sidecars_present_at(l, i, paths.primary);
    if !present {
        (
            Err(
                loose_failure(
                    "standalone_unadopted"@,
                    "standalone updates require a local adoption marker and signed manifest"@,
                    paths,
                ),
            ),
            i,
        )
    } else {
        let (marker, i) = read_marker_at(l, i, paths.primary);
        match marker {
            None => (
                Err(
                    failure(
                        "standalone_unadopted"@,
                        "standalone owner marker is invalid"@,
                        paths.primary,
                    ),
                ),
                i,
            ),
            Some(marker) => if marker.repository != REPOSITORY@ || marker.host != host
                || marker.version != current {
                (
                    Err(
                        loose_failure(
                            "standalone_unadopted"@,
                            "standalone owner marker does not match this host or repository"@,
                            paths,
                        ),
                    ),
                    i,
                )
            } else {
                let (checksums, i) = read_file_at(l, i, manifest_at(paths.primary));
                match checksums {
                    Err(error) => (
                        Err(failure("standalone_unadopted"@, error.message, paths.primary)),
                        i,
                    ),
                    Ok(checksums) => {
                        let (signature, i) = read_file_at(l, i, signature_at(paths.primary));
                        match signature {
                            Err(error) => (
                                Err(failure("standalone_unadopted"@, error.message, paths.primary)),
                                i,
                            ),
                            Ok(signature) => (Ok((marker, checksums, signature)), i),
                        }
                    },
                }
            },
        }
    }
}

/// The view of the material of an adopted installation.
pub open spec fn material_answer(
    r: Result<(StandaloneMarker, Vec<u8>, Vec<u8>), UpdateFailure>,
) -> Result<(MarkerView, Seq<u8>, Seq<u8>), FailureView> {
    match r {
        Ok((marker, checksums, signature)) => Ok((marker@, checksums@, signature@)),
        Err(failure) => Err(failure@),
    }
}

fn local_material<I: UpdateIo>(io: &mut I, host: &str, current: &str, paths: &BinaryPair) -> (r:
    Result<(StandaloneMarker, Vec<u8>, Vec<u8>), UpdateFailure>)
    ensures
        extends(final(io).log(), old(io).log()),
        forall|l: Seq<IoEvent>|
            extends(l, final(io).log()) ==> #[trigger] local_material_at(
                l,
                old(io).log().len() as int,
                host@,
                current@,
                paths@,
            ) == (material_answer(r), final(io).log().len() as int),
{
    let primary = paths.primary.as_slice();
    if !io.is_file(marker_path(primary).as_slice()) || !io.is_file(
        manifest_path(primary).as_slice(),
    ) || !io.is_file(signature_path(primary).as_slice()) {
        return Err(
            loose_error(
                "standalone_unadopted",
                "standalone updates require a local adoption marker and signed manifest".to_owned(),
                paths,
            ),
        );
    }
    let marker = match read_marker(io, primary) {
        Some(marker) => marker,
        None => {
            return Err(
                UpdateFailure::new(
                    "standalone_unadopted",
                    "standalone owner marker is invalid".to_owned(),
                    primary,
                ),
            );
        },
    };
    if !same(marker.repository.as_str(), REPOSITORY) || !same(marker.host.as_str(), host) || !same(
        marker.version.as_str(),
        current,
    ) {
        return Err(
            loose_error(
                "standalone_unadopted",
                "standalone owner marker does not match this host or repository".to_owned(),
                paths,
            ),
        );
    }
    let checksums = match io.read_file(manifest_path(primary).as_slice()) {
        Ok(bytes) => bytes,
        Err(error) => {
            return Err(UpdateFailure::new("standalone_unadopted", error.message, primary));
        },
    };
    let signature = match io.read_file(signature_path(primary).as_slice()) {
        Ok(bytes) => bytes,
        Err(error) => {
            return Err(UpdateFailure::new("standalone_unadopted", error.message, primary));
        },
    };
    Ok((marker, checksums, signature))
}

/// The downloaded and checked release with its trust material, under the lock
/// and with nothing changed since the installation was looked at.
pub open spec fn prepared_at(
    t: Trace,
    c: At,
    host: Seq<char>,
    paths: PairView,
    local: (MarkerView, Seq<u8>, Seq<u8>),
    metadata: MetadataView,
) -> (Result<(ReleaseView, (Seq<u8>, Seq<u8>)), FailureView>, At) {
    let (marker, checksums, signature) = local;
    let (owner, i) = discover_at(t.io, c.io, paths, host);
    let c = c.io_at(i);
    if owner != Installer::Standalone {
        (
            Err(
                loose_failure(
                    "installation_changed"@,
                    "standalone ownership changed while acquiring the update lock"@,
                    paths,
                ),
            ),
            c,
        )
    } else {
        let changed = loose_failure(
            "installation_changed"@,
            "standalone installation changed while acquiring the update lock"@,
            paths,
        );
        let (unchanged, i) = unchanged_at(t.io, c.io, paths, marker, checksums, signature);
        let c = c.io_at(i);
        if !unchanged {
            (Err(changed), c)
        } else {
            let (valid, p) = validate_at(
                t.provider,
                c.provider,
                checksums,
                signature,
                marker.version,
                marker.host,
            );
            let c = c.provider_at(p);
            if valid is Err {
                (Err(changed), c)
            } else {
                let (release, p) = download_at(t.provider, c.provider, metadata);
                let c = c.provider_at(p);
                match release {
                    Err(failure) => (Err(failure.of_installer(Installer::Standalone)), c),
                    Ok(release) => {
                        let (verified, v) = verify_at(t.verifier, c.verifier, metadata, release);
                        let c = c.verifier_at(v);
                        match verified {
                            Err(failure) => (Err(failure.of_installer(Installer::Standalone)), c),
                            Ok(_) => {
                                let (trust, p) = trust_material_at(t.provider, c.provider);
                                let c = c.provider_at(p);
                                match trust {
                                    None => (
                                        Err(
                                            failure(
                                                "trust_material_missing"@,
                                                "signed release manifest is unavailable"@,
                                                paths.primary,
                                            ),
                                        ),
                                        c,
                                    ),
                                    Some(trust) => (Ok((release, trust)), c),
                                }
                            },
                        }
                    },
                }
            }
        }
    }
}

/// The update of a standalone installation under the lock.
pub open spec fn standalone_locked_at(
    t: Trace,
    c: At,
    host: Seq<char>,
    paths: PairView,
    local: (MarkerView, Seq<u8>, Seq<u8>),
    metadata: MetadataView,
    result: ResultView,
) -> (Result<ResultView, FailureView>, At) {
    let (prepared, c) = prepared_at(t, c, host, paths, local, metadata);
    match prepared {
        Err(failure) => (Err(failure), c),
        Ok((release, trust)) => {
            let (pair, i) = capture_pair_at(t.io, c.io, paths, metadata.version);
            let c = c.io_at(i);
            match pair {
                Err(failure) => (Err(failure.of_installer(Installer::Standalone)), c),
                Ok(pair) => {
                    let (r, i) = activate_at(t.io, c.io, host, pair, release, trust, result);
                    (r, c.io_at(i))
                },
            }
        },
    }
}

/// The update of a standalone installation once a newer release is known.
pub open spec fn standalone_update_at(
    t: Trace,
    c: At,
    host: Seq<char>,
    paths: PairView,
    local: (MarkerView, Seq<u8>, Seq<u8>),
    metadata: MetadataView,
    result: ResultView,
) -> (Result<ResultView, FailureView>, At) {
    if stripped(metadata.archive_sha256).len() == 0 || !metadata.signature_verified {
        (
            Err(
                loose_failure(
                    "artifact_trust_failed"@,
                    "release must provide a SHA-256 checksum and verified Minisign signature"@,
                    paths,
                ),
            ),
            c,
        )
    } else {
        let (lock, i) = take_lock_at(t.io, c.io);
        let c = c.io_at(i);
        match lock {
            Err(error) => (Err(locked_failure(error, paths, Installer::Standalone)), c),
            Ok(lock) => {
                let (r, c) = standalone_locked_at(t, c, host, paths, local, metadata, result);
                let (unlock, i) = release_lock_at(t.io, c.io, lock);
                (unlocked(r, unlock, paths, Installer::Standalone), c.io_at(i))
            },
        }
    }
}

/// The update of a standalone installation.
pub open spec fn run_standalone_at(
    t: Trace,
    c: At,
    host: Seq<char>,
    request: RequestView,
    paths: PairView,
) -> (Result<ResultView, FailureView>, At) {
    let current = request.current_version;
    let (local, i) = local_material_at(t.io, c.io, host, current, paths);
    let c = c.io_at(i);
    match local {
        Err(failure) => (Err(failure), c),
        Ok(local) => {
            let (valid, p) = validate_at(
                t.provider,
                c.provider,
                local.1,
                local.2,
                local.0.version,
                local.0.host,
            );
            let c = c.provider_at(p);
            match valid {
                Err(failure) => (Err(failure.of_installer(Installer::Standalone)), c),
                Ok(_) => {
                    let (answer, p) = latest_at(t.provider, c.provider, host);
                    let c = c.provider_at(p);
                    match newest(answer, host, current, paths, Installer::Standalone) {
                        Err(failure) => (Err(failure), c),
                        Ok((metadata, available)) => {
                            let result = fresh_result(
                                current,
                                paths,
                                Installer::Standalone,
                                metadata.version,
                                available,
                            );
                            if request.check || !available {
                                (Ok(reported(result)), c)
                            } else {
                                standalone_update_at(t, c, host, paths, local, metadata, result)
                            }
                        },
                    }
                },
            }
        },
    }
}

// ---------------------------------------------------------------------------
// Adoption
// ---------------------------------------------------------------------------

/// Both executables are byte for byte the signed release of their version.
pub open spec fn proves_standalone_at(
    t: Trace,
    c: At,
    host: Seq<char>,
    current: Seq<char>,
    paths: PairView,
) -> (bool, At) {
    let (present, i) = pair_present_at(t.io, c.io, paths);
    let c = c.io_at(i);
    if !present {
        (false, c)
    } else {
        let (metadata, p) = exact_release_at(t.provider, c.provider, current, host);
        let c = c.provider_at(p);
        match metadata {
            Err(_) => (false, c),
            Ok(metadata) => if metadata.repository != REPOSITORY@ || metadata.version != current
                || metadata.host != host || !metadata.signature_verified {
                (false, c)
            } else {
                let (release, p) = download_at(t.provider, c.provider, metadata);
                let c = c.provider_at(p);
                match release {
                    Err(_) => (false, c),
                    Ok(release) => {
                        let (verified, v) = verify_at(t.verifier, c.verifier, metadata, release);
                        let c = c.verifier_at(v);
                        if verified is Err {
                            (false, c)
                        } else {
                            let (primary, i) = read_file_at(t.io, c.io, paths.primary);
                            let c = c.io_at(i);
                            if primary != Ok::<Seq<u8>, IoErrorView>(release.primary) {
                                (false, c)
                            } else {
                                let (secondary, i) = read_file_at(t.io, c.io, paths.secondary);
                                (
                                    secondary == Ok::<Seq<u8>, IoErrorView>(release.secondary),
                                    c.io_at(i),
                                )
                            }
                        }
                    },
                }
            },
        }
    }
}

/// A result that says a pair was adopted.
pub open spec fn adopted_result(current: Seq<char>, paths: PairView) -> ResultView {
    ResultView {
        applied: true,
        changed: true,
        message: "standalone installation adopted"@,
        ..fresh_result(current, paths, Installer::Standalone, current, false)
    }
}

/// What adoption needs once the lock is held: the pair is still unowned and
/// proven, and the release source has its signed manifest.
pub open spec fn adoptable_at(
    t: Trace,
    c: At,
    host: Seq<char>,
    current: Seq<char>,
    paths: PairView,
) -> (Result<(MarkerView, (Seq<u8>, Seq<u8>)), FailureView>, At) {
    let changed = failure(
        "installation_changed"@,
        "installation ownership or executable pair changed while acquiring the update lock"@,
        paths.primary,
    );
    let (owner, i) = discover_at(t.io, c.io, paths, host);
    let c = c.io_at(i);
    if owner != Installer::Unknown {
        (Err(changed), c)
    } else {
        let (proven, c) = proves_standalone_at(t, c, host, current, paths);
        if !proven {
            (Err(changed), c)
        } else {
            let (trust, p) = trust_material_at(t.provider, c.provider);
            let c = c.provider_at(p);
            match trust {
                None => (
                    Err(
                        failure(
                            "trust_material_missing"@,
                            "signed release manifest is unavailable"@,
                            paths.primary,
                        ),
                    ),
                    c,
                ),
                Some(trust) => {
                    let (marker, i) = marker_for_at(t.io, c.io, paths, current, host, trust.0);
                    let c = c.io_at(i);
                    match marker {
                        Err(failure) => (Err(failure), c),
                        Ok(marker) => (Ok((marker, trust)), c),
                    }
                },
            }
        }
    }
}

/// Where adoption was possible, the text of its marker reads back as that
/// marker.
pub open spec fn reads_back(
    ready: Result<(MarkerView, (Seq<u8>, Seq<u8>)), FailureView>,
) -> bool {
    match ready {
        Ok((marker, _)) => marker_of(marker_json(marker)) == Some(marker),
        Err(_) => true,
    }
}

/// The adoption of a proven pair under the lock.
pub open spec fn adopt_locked_at(
    t: Trace,
    c: At,
    host: Seq<char>,
    current: Seq<char>,
    paths: PairView,
    lock: Seq<u8>,
) -> (Result<ResultView, FailureView>, At) {
    let (ready, c) = adoptable_at(t, c, host, current, paths);
    match ready {
        Err(failure) => {
            let (_, i) = release_lock_at(t.io, c.io, lock);
            (Err(failure), c.io_at(i))
        },
        Ok((marker, trust)) => {
            let (r, i) = adopt_files_at(t.io, c.io, paths, marker, trust.0, trust.1);
            let (unlock, i) = release_lock_at(t.io, i, lock);
            let c = c.io_at(i);
            match unlock {
                Err(error) => (
                    Err(failure("lock_release_failed"@, error.message, paths.primary)),
                    c,
                ),
                Ok(_) => match r {
                    Err(failure) => (Err(failure), c),
                    Ok(_) => (Ok(adopted_result(current, paths)), c),
                },
            }
        },
    }
}

/// One of the files of a standalone installation is already there.
pub open spec fn sidecar_exists_at(l: Seq<IoEvent>, i: int, primary: Seq<u8>) -> (bool, int) {
    let (manifest, i) = path_exists_at(l, i, manifest_at(primary));
    if manifest {
        (true, i)
    } else {
        let (signature, i) = path_exists_at(l, i, signature_at(primary));
        if signature {
            (true, i)
        } else {
            path_exists_at(l, i, marker_at(primary))
        }
    }
}

/// What the adoption of a loose pair has once it holds the lock.
pub open spec fn adopting_at(
    t: Trace,
    c: At,
    host: Seq<char>,
    current: Seq<char>,
    paths: PairView,
) -> (Result<(MarkerView, (Seq<u8>, Seq<u8>)), FailureView>, At) {
    let (_, i) = sidecar_exists_at(t.io, c.io, paths.primary);
    let (_, c) = proves_standalone_at(t, c.io_at(i), host, current, paths);
    let (_, i) = take_lock_at(t.io, c.io);
    adoptable_at(t, c.io_at(i), host, current, paths)
}

/// The adoption of a loose pair.
pub open spec fn adopt_at(
    t: Trace,
    c: At,
    host: Seq<char>,
    request: RequestView,
    paths: PairView,
) -> (Result<ResultView, FailureView>, At) {
    let current = request.current_version;
    let (conflict, i) = sidecar_exists_at(t.io, c.io, paths.primary);
    let c = c.io_at(i);
    if conflict {
        (
            Err(
                failure(
                    "adoption_state_conflict"@,
                    "refusing adoption because standalone ownership files already exist without a valid marker"@,
                    paths.primary,
                ),
            ),
            c,
        )
    } else {
        let (proven, c) = proves_standalone_at(t, c, host, current, paths);
        if !proven {
            (
                Err(
                    failure(
                        "standalone_proof_failed"@,
                        "the installed pair does not match the signed release for its version"@,
                        paths.primary,
                    ),
                ),
                c,
            )
        } else {
            let (lock, i) = take_lock_at(t.io, c.io);
            let c = c.io_at(i);
            match lock {
                Err(error) => (
                    Err(failure("update_locked"@, error.message, paths.primary)),
                    c,
                ),
                Ok(lock) => adopt_locked_at(t, c, host, current, paths, lock),
            }
        }
    }
}

// ---------------------------------------------------------------------------
// The whole
// ---------------------------------------------------------------------------

/// The refusal to update what Homebrew owns.
pub open spec fn homebrew_refusal(paths: PairView) -> FailureView {
    failure(
        "homebrew_owned"@,
        "Homebrew owns "@ + lossy_text(paths.primary) + "; update it with `"@ + HOMEBREW_COMMAND@
            + "`"@,
        paths.primary,
    ).of_installer(Installer::Homebrew).of_command(brew_command())
}

/// The refusal to update what nobody known owns.
pub open spec fn unknown_refusal(paths: PairView) -> FailureView {
    failure(
        "unknown_installer"@,
        "cannot update "@ + lossy_text(paths.primary)
            + "; installer ownership is unknown; update it through its manager"@,
        paths.primary,
    ).of_installer(Installer::Unknown)
}

/// A report on the newest release, which changes nothing.
pub open spec fn check_at(
    t: Trace,
    c: At,
    host: Seq<char>,
    current: Seq<char>,
    paths: PairView,
    installer: Installer,
) -> (Result<ResultView, FailureView>, At) {
    let (answer, p) = latest_at(t.provider, c.provider, host);
    let c = c.provider_at(p);
    match newest(answer, host, current, paths, installer) {
        Err(failure) => (Err(failure), c),
        Ok((metadata, available)) => (
            Ok(reported(fresh_result(current, paths, installer, metadata.version, available))),
            c,
        ),
    }
}

/// What an adoption has once it holds the lock.
pub open spec fn adopted_at(t: Trace, c: At, host: Seq<char>, request: RequestView) -> (
    Result<(MarkerView, (Seq<u8>, Seq<u8>)), FailureView>,
    At,
) {
    let paths = pair_of(request.executable);
    let (_, i) = discover_at(t.io, c.io, paths, host);
    adopting_at(t, c.io_at(i), host, request.current_version, paths)
}

/// What an update does and what comes of it.
pub open spec fn run_at(t: Trace, c: At, host: Seq<char>, request: RequestView) -> (
    Result<ResultView, FailureView>,
    At,
) {
    let paths = pair_of(request.executable);
    let (installer, i) = discover_at(t.io, c.io, paths, host);
    let c = c.io_at(i);
    if request.check {
        check_at(t, c, host, request.current_version, paths, installer)
    } else if request.adopt && installer != Installer::Unknown {
        (
            Err(
                failure(
                    "adopt_known_manager"@,
                    "cannot adopt an installation already proven to be owned by a package manager"@,
                    paths.primary,
                ).of_installer(installer),
            ),
            c,
        )
    } else {
        match installer {
            Installer::Homebrew => (Err(homebrew_refusal(paths)), c),
            Installer::Cargo => run_cargo_at(t, c, host, request, paths),
            Installer::Standalone => run_standalone_at(t, c, host, request, paths),
            Installer::Unknown => if request.adopt {
                adopt_at(t, c, host, request, paths)
            } else {
                (Err(unknown_refusal(paths)), c)
            },
        }
    }
}

impl<I: UpdateIo, P: ReleaseProvider, V: ArtifactVerifier> UpdateService<I, P, V> {
    /// Updates the installation that the request's executable belongs to, or
    /// reports on it.
    pub fn run(&mut self, request: &UpdateRequest) -> (r: Result<UpdateResult, UpdateFailure>)
        ensures
            final(self).host@ == old(self).host@,
            continues(final(self).trace(), old(self).trace()),
            forall|t: Trace|
                continues(t, final(self).trace()) ==> #[trigger] run_at(
                    t,
                    old(self).at(),
                    old(self).host@,
                    request@,
                ) == (outcome(r), final(self).at()),
            r is Ok && request.adopt && !request.check ==> forall|t: Trace|
                continues(t, final(self).trace()) ==> reads_back(
                    (#[trigger] adopted_at(
                        t,
                        old(self).at(),
                        old(self).host@,
                        request@,
                    )).0,
                ),
    {
        let paths = BinaryPair::from_executable(request.executable.as_slice());
        let installer = discover_installer(&mut self.io, &paths, self.host.as_str());
        assert(self.at() == old(self).at().io_at(self.io.log().len() as int));
        if request.check {
            return self.check(request, &paths, installer);
        }
        if request.adopt && installer != Installer::Unknown {
            return Err(
                UpdateFailure::new(
                    "adopt_known_manager",
                    "cannot adopt an installation already proven to be owned by a package manager".to_owned(),
                    paths.primary.as_slice(),
                ).with_installer(installer),
            );
        }
        match installer {
            Installer::Homebrew => {
                let message = crate::text::text5(
                    "Homebrew owns ",
                    lossy(paths.primary.as_slice()).as_str(),
                    "; update it with `",
                    HOMEBREW_COMMAND,
                    "`",
                );
                Err(
                    UpdateFailure::new(
                        "homebrew_owned",
                        message,
                        paths.primary.as_slice(),
                    ).with_installer(Installer::Homebrew).with_command(CommandSpec::brew()),
                )
            },
            Installer::Cargo => self.run_cargo(request, paths),
            Installer::Standalone => self.run_standalone(request, paths),
            Installer::Unknown => {
                if request.adopt {
                    self.adopt_standalone(request, paths)
                } else {
                    let message = text3(
                        "cannot update ",
                        lossy(paths.primary.as_slice()).as_str(),
                        "; installer ownership is unknown; update it through its manager",
                    );
                    Err(
                        UpdateFailure::new(
                            "unknown_installer",
                            message,
                            paths.primary.as_slice(),
                        ).with_installer(Installer::Unknown),
                    )
                }
            },
        }
    }

    fn check(&mut self, request: &UpdateRequest, paths: &BinaryPair, installer: Installer) -> (r:
        Result<UpdateResult, UpdateFailure>)
        ensures
            final(self).host@ == old(self).host@,
            continues(final(self).trace(), old(self).trace()),
            forall|t: Trace|
                continues(t, final(self).trace()) ==> #[trigger] check_at(
                    t,
                    old(self).at(),
                    old(self).host@,
                    request@.current_version,
                    paths@,
                    installer,
                ) == (outcome(r), final(self).at()),
    {
        match self.latest(request, paths, installer) {
            Err(failure) => Err(failure),
            Ok((metadata, available)) => Ok(
                report(
                    result_for(request, paths, installer, metadata.version.as_str(), available),
                ),
            ),
        }
    }

    fn latest(&mut self, request: &UpdateRequest, paths: &BinaryPair, installer: Installer) -> (r:
        Result<(ReleaseMetadata, bool), UpdateFailure>)
        ensures
            final(self).host@ == old(self).host@,
            final(self).io == old(self).io,
            final(self).verifier == old(self).verifier,
            continues(final(self).trace(), old(self).trace()),
            forall|l: Seq<ProviderEvent>|
                extends(l, final(self).provider.log()) ==> ({
                    let (answer, p) = #[trigger] latest_at(
                        l,
                        old(self).provider.log().len() as int,
                        old(self).host@,
                    );
                    &&& newest(
                        answer,
                        old(self).host@,
                        request@.current_version,
                        paths@,
                        installer,
                    ) == newest_answer(r)
                    &&& p == final(self).provider.log().len()
                }),
    {
        let answer = self.provider.latest(self.host.as_str());
        judge_latest(
            answer,
            self.host.as_str(),
            request.current_version.as_str(),
            paths,
            installer,
        )
    }

    fn run_cargo(&mut self, request: &UpdateRequest, paths: BinaryPair) -> (r: Result<
        UpdateResult,
        UpdateFailure,
    >)
        ensures
            final(self).host@ == old(self).host@,
            continues(final(self).trace(), old(self).trace()),
            forall|t: Trace|
                continues(t, final(self).trace()) ==> #[trigger] run_cargo_at(
                    t,
                    old(self).at(),
                    old(self).host@,
                    request@,
                    paths@,
                ) == (outcome(r), final(self).at()),
    {
        let current = request.current_version.as_str();
        let root = match cargo_checked(&mut self.io, self.host.as_str(), current, &paths) {
            Ok(root) => root,
            Err(failure) => return Err(failure),
        };
        let (metadata, available) = match self.latest(request, &paths, Installer::Cargo) {
            Ok(found) => found,
            Err(failure) => return Err(failure),
        };
        let version = metadata.version.as_str();
        let result = result_for(request, &paths, Installer::Cargo, version, available);
        if request.check || !available {
            return Ok(report(result));
        }
        cargo_update(
            &mut self.io,
            self.host.as_str(),
            current,
            &paths,
            root.as_slice(),
            version,
            result,
        )
    }

    fn prepare(
        &mut self,
        paths: &BinaryPair,
        marker: &StandaloneMarker,
        checksums: &[u8],
        signature: &[u8],
        metadata: &ReleaseMetadata,
    ) -> (r: Result<(DownloadedRelease, (Vec<u8>, Vec<u8>)), UpdateFailure>)
        ensures
            final(self).host@ == old(self).host@,
            continues(final(self).trace(), old(self).trace()),
            forall|t: Trace|
                continues(t, final(self).trace()) ==> #[trigger] prepared_at(
                    t,
                    old(self).at(),
                    old(self).host@,
                    paths@,
                    (marker@, checksums@, signature@),
                    metadata@,
                ) == (prepared_answer(r), final(self).at()),
    {
        if discover_installer(&mut self.io, paths, self.host.as_str()) != Installer::Standalone {
            return Err(
                loose_error(
                    "installation_changed",
                    "standalone ownership changed while acquiring the update lock".to_owned(),
                    paths,
                ),
            );
        }
        if !standalone_snapshot_unchanged(&mut self.io, paths, marker, checksums, signature)
            || self.provider.validate_local_material(
            checksums,
            signature,
            marker.version.as_str(),
            marker.host.as_str(),
        ).is_err() {
            return Err(
                loose_error(
                    "installation_changed",
                    "standalone installation changed while acquiring the update lock".to_owned(),
                    paths,
                ),
            );
        }
        let release = match self.provider.download(metadata) {
            Ok(release) => release,
            Err(failure) => return Err(failure.with_installer(Installer::Standalone)),
        };
        if let Err(failure) = self.verifier.verify(metadata, &release) {
            return Err(failure.with_installer(Installer::Standalone));
        }
        match self.provider.trust_material() {
            Some(trust) => Ok((release, trust)),
            None => Err(
                UpdateFailure::new(
                    "trust_material_missing",
                    "signed release manifest is unavailable".to_owned(),
                    paths.primary.as_slice(),
                ),
            ),
        }
    }

    fn standalone_locked(
        &mut self,
        paths: &BinaryPair,
        local: &(StandaloneMarker, Vec<u8>, Vec<u8>),
        metadata: &ReleaseMetadata,
        result: UpdateResult,
    ) -> (r: Result<UpdateResult, UpdateFailure>)
        ensures
            final(self).host@ == old(self).host@,
            continues(final(self).trace(), old(self).trace()),
            forall|t: Trace|
                continues(t, final(self).trace()) ==> #[trigger] standalone_locked_at(
                    t,
                    old(self).at(),
                    old(self).host@,
                    paths@,
                    (local.0@, local.1@, local.2@),
                    metadata@,
                    result@,
                ) == (outcome(r), final(self).at()),
    {
        let (release, trust) = match self.prepare(
            paths,
            &local.0,
            local.1.as_slice(),
            local.2.as_slice(),
            metadata,
        ) {
            Ok(prepared) => prepared,
            Err(failure) => return Err(failure),
        };
        let pair = match PairTransaction::capture(
            &mut self.io,
            paths.duplicate(),
            metadata.version.clone(),
        ) {
            Ok(pair) => pair,
            Err(failure) => return Err(failure.with_installer(Installer::Standalone)),
        };
        activate_standalone(&mut self.io, self.host.as_str(), pair, &release, &trust, result)
    }

    fn standalone_update(
        &mut self,
        paths: &BinaryPair,
        local: &(StandaloneMarker, Vec<u8>, Vec<u8>),
        metadata: &ReleaseMetadata,
        result: UpdateResult,
    ) -> (r: Result<UpdateResult, UpdateFailure>)
        ensures
            final(self).host@ == old(self).host@,
            continues(final(self).trace(), old(self).trace()),
            forall|t: Trace|
                continues(t, final(self).trace()) ==> #[trigger] standalone_update_at(
                    t,
                    old(self).at(),
                    old(self).host@,
                    paths@,
                    (local.0@, local.1@, local.2@),
                    metadata@,
                    result@,
                ) == (outcome(r), final(self).at()),
    {
        if is_blank(metadata.archive_sha256.as_str()) || !metadata.signature_verified {
            return Err(
                loose_error(
                    "artifact_trust_failed",
                    "release must provide a SHA-256 checksum and verified Minisign signature".to_owned(),
                    paths,
                ),
            );
        }
        let lock = match take_lock(&mut self.io) {
            Ok(lock) => lock,
            Err(error) => {
                let message = text2("another Ramiz update is running: ", error.message.as_str());
                return Err(loose_error("update_locked", message, paths));
            },
        };
        assert(self.at() == old(self).at().io_at(self.io.log().len() as int));
        let r = self.standalone_locked(paths, local, metadata, result);
        let unlock = self.io.release_lock(lock.as_slice());
        after_unlock(r, unlock, paths, Installer::Standalone)
    }

    fn run_standalone(&mut self, request: &UpdateRequest, paths: BinaryPair) -> (r: Result<
        UpdateResult,
        UpdateFailure,
    >)
        ensures
            final(self).host@ == old(self).host@,
            continues(final(self).trace(), old(self).trace()),
            forall|t: Trace|
                continues(t, final(self).trace()) ==> #[trigger] run_standalone_at(
                    t,
                    old(self).at(),
                    old(self).host@,
                    request@,
                    paths@,
                ) == (outcome(r), final(self).at()),
    {
        let current = request.current_version.as_str();
        let local = match local_material(&mut self.io, self.host.as_str(), current, &paths) {
            Ok(local) => local,
            Err(failure) => return Err(failure),
        };
        if let Err(failure) = self.provider.validate_local_material(
            local.1.as_slice(),
            local.2.as_slice(),
            local.0.version.as_str(),
            local.0.host.as_str(),
        ) {
            return Err(failure.with_installer(Installer::Standalone));
        }
        let (metadata, available) = match self.latest(request, &paths, Installer::Standalone) {
            Ok(found) => found,
            Err(failure) => return Err(failure),
        };
        let result = result_for(
            request,
            &paths,
            Installer::Standalone,
            metadata.version.as_str(),
            available,
        );
        if request.check || !available {
            return Ok(report(result));
        }
        assert(self.at() == old(self).at().io_at(self.io.log().len() as int).provider_at(
            self.provider.log().len() - 1,
        ).provider_at(self.provider.log().len() as int));
        self.standalone_update(&paths, &local, &metadata, result)
    }

    fn proves_standalone(&mut self, current: &str, paths: &BinaryPair) -> (r: bool)
        ensures
            final(self).host@ == old(self).host@,
            continues(final(self).trace(), old(self).trace()),
            forall|t: Trace|
                continues(t, final(self).trace()) ==> #[trigger] proves_standalone_at(
                    t,
                    old(self).at(),
                    old(self).host@,
                    current@,
                    paths@,
                ) == (r, final(self).at()),
    {
        if !pair_present(&mut self.io, paths) {
            return false;
        }
        let metadata = match self.provider.exact_release(current, self.host.as_str()) {
            Ok(metadata) => metadata,
            Err(_) => return false,
        };
        if !same(metadata.repository.as_str(), REPOSITORY) || !same(
            metadata.version.as_str(),
            current,
        ) || !same(metadata.host.as_str(), self.host.as_str()) || !metadata.signature_verified {
            return false;
        }
        let release = match self.provider.download(&metadata) {
            Ok(release) => release,
            Err(_) => return false,
        };
        if self.verifier.verify(&metadata, &release).is_err() {
            return false;
        }
        let primary = self.io.read_file(paths.primary.as_slice());
        if !answers_bytes(&primary, release.primary.as_slice()) {
            return false;
        }
        let secondary = self.io.read_file(paths.secondary.as_slice());
        answers_bytes(&secondary, release.secondary.as_slice())
    }

    fn adoptable(&mut self, current: &str, paths: &BinaryPair) -> (r: Result<
        (StandaloneMarker, (Vec<u8>, Vec<u8>)),
        UpdateFailure,
    >)
        ensures
            final(self).host@ == old(self).host@,
            continues(final(self).trace(), old(self).trace()),
            forall|t: Trace|
                continues(t, final(self).trace()) ==> #[trigger] adoptable_at(
                    t,
                    old(self).at(),
                    old(self).host@,
                    current@,
                    paths@,
                ) == (adoptable_answer(r), final(self).at()),
    {
        let owner = discover_installer(&mut self.io, paths, self.host.as_str());
        assert(self.at() == old(self).at().io_at(self.io.log().len() as int));
        if owner != Installer::Unknown || !self.proves_standalone(current, paths) {
            return Err(
                UpdateFailure::new(
                    "installation_changed",
                    "installation ownership or executable pair changed while acquiring the update lock".to_owned(),
                    paths.primary.as_slice(),
                ),
            );
        }
        let trust = match self.provider.trust_material() {
            Some(trust) => trust,
            None => {
                return Err(
                    UpdateFailure::new(
                        "trust_material_missing",
                        "signed release manifest is unavailable".to_owned(),
                        paths.primary.as_slice(),
                    ),
                );
            },
        };
        match marker_for(&mut self.io, paths, current, self.host.as_str(), trust.0.as_slice()) {
            Ok(marker) => Ok((marker, trust)),
            Err(failure) => Err(failure),
        }
    }

    fn adopt_locked(&mut self, request: &UpdateRequest, paths: &BinaryPair, lock: &[u8]) -> (r:
        Result<UpdateResult, UpdateFailure>)
        ensures
            final(self).host@ == old(self).host@,
            continues(final(self).trace(), old(self).trace()),
            forall|t: Trace|
                continues(t, final(self).trace()) ==> #[trigger] adopt_locked_at(
                    t,
                    old(self).at(),
                    old(self).host@,
                    request@.current_version,
                    paths@,
                    lock@,
                ) == (outcome(r), final(self).at()),
            r is Ok ==> forall|t: Trace|
                continues(t, final(self).trace()) ==> reads_back(
                    (#[trigger] adoptable_at(
                        t,
                        old(self).at(),
                        old(self).host@,
                        request@.current_version,
                        paths@,
                    )).0,
                ),
    {
        let current = request.current_version.as_str();
        let (marker, trust) = match self.adoptable(current, paths) {
            Ok(ready) => ready,
            Err(failure) => {
                let _ = self.io.release_lock(lock);
                return Err(failure);
            },
        };
        let r = write_adoption_material(
            &mut self.io,
            paths,
            &marker,
            trust.0.as_slice(),
            trust.1.as_slice(),
        );
        if let Err(error) = self.io.release_lock(lock) {
            return Err(
                UpdateFailure::new(
                    "lock_release_failed",
                    error.message,
                    paths.primary.as_slice(),
                ),
            );
        }
        match r {
            Err(failure) => Err(failure),
            Ok(()) => {
                let mut result = result_for(
                    request,
                    paths,
                    Installer::Standalone,
                    current,
                    false,
                );
                result.applied = true;
                result.changed = true;
                result.message = "standalone installation adopted".to_owned();
                Ok(result)
            },
        }
    }

    fn adopt_standalone(&mut self, request: &UpdateRequest, paths: BinaryPair) -> (r: Result<
        UpdateResult,
        UpdateFailure,
    >)
        ensures
            final(self).host@ == old(self).host@,
            continues(final(self).trace(), old(self).trace()),
            forall|t: Trace|
                continues(t, final(self).trace()) ==> #[trigger] adopt_at(
                    t,
                    old(self).at(),
                    old(self).host@,
                    request@,
                    paths@,
                ) == (outcome(r), final(self).at()),
            r is Ok ==> forall|t: Trace|
                continues(t, final(self).trace()) ==> reads_back(
                    (#[trigger] adopting_at(
                        t,
                        old(self).at(),
                        old(self).host@,
                        request@.current_version,
                        paths@,
                    )).0,
                ),
    {
        let primary = paths.primary.as_slice();
        if self.io.path_exists(manifest_path(primary).as_slice()) || self.io.path_exists(
            signature_path(primary).as_slice(),
        ) || self.io.path_exists(marker_path(primary).as_slice()) {
            return Err(
                UpdateFailure::new(
                    "adoption_state_conflict",
                    "refusing adoption because standalone ownership files already exist without a valid marker".to_owned(),
                    primary,
                ),
            );
        }
        assert(self.at() == old(self).at().io_at(self.io.log().len() as int));
        if !self.proves_standalone(request.current_version.as_str(), &paths) {
            return Err(
                UpdateFailure::new(
                    "standalone_proof_failed",
                    "the installed pair does not match the signed release for its version".to_owned(),
                    primary,
                ),
            );
        }
        let ghost before = self.at();
        let lock = match take_lock(&mut self.io) {
            Ok(lock) => lock,
            Err(error) => return Err(UpdateFailure::new("update_locked", error.message, primary)),
        };
        assert(self.at() == before.io_at(self.io.log().len() as int));
        self.adopt_locked(request, &paths, lock.as_slice())
    }
}

/// The view of a prepared release.
pub open spec fn prepared_answer(
    r: Result<(DownloadedRelease, (Vec<u8>, Vec<u8>)), UpdateFailure>,
) -> Result<(ReleaseView, (Seq<u8>, Seq<u8>)), FailureView> {
    match r {
        Ok((release, trust)) => Ok((release@, (trust.0@, trust.1@))),
        Err(failure) => Err(failure@),
    }
}

/// The view of what adoption needs.
pub open spec fn adoptable_answer(
    r: Result<(StandaloneMarker, (Vec<u8>, Vec<u8>)), UpdateFailure>,
) -> Result<(MarkerView, (Seq<u8>, Seq<u8>)), FailureView> {
    match r {
        Ok((marker, trust)) => Ok((marker@, (trust.0@, trust.1@))),
        Err(failure) => Err(failure@),
    }
}

} // verus!
