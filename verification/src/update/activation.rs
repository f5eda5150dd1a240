//! Putting a verified release in the place of a standalone installation.
use crate::text::text2;
use crate::update::io::{
    create_staged_file_at, extends, is_file_at, outcome, remove_file_at, set_executable_at,
    IoEvent, UpdateIo,
};
use crate::update::model::{
    failure, DownloadedRelease, FailureView, Installer, ReleaseView, ResultView, UpdateFailure,
    UpdateResult,
};
use crate::update::sidecars::{
    capture_sidecars_at, replace_sidecars_at, restore_sidecars_at, AuxTransaction, SidecarView,
};
use crate::update::transaction::{
    clear_backups_at, clear_stages_at, move_aside_at, move_in_at, roll_back_at, verify_binaries,
    verify_binaries_at, PairState, PairTransaction,
};
use vstd::prelude::*;

verus! {

/// A failure of a standalone installation.
pub open spec fn standalone_failure(
    code: Seq<char>,
    message: Seq<char>,
    executable: Seq<u8>,
) -> FailureView {
    failure(code, message, executable).of_installer(Installer::Standalone)
}

fn standalone_error(code: &'static str, message: String, executable: &[u8]) -> (r: UpdateFailure)
    ensures
        r@ == standalone_failure(code@, message@, executable@),
{
    UpdateFailure::new(code, message, executable).with_installer(Installer::Standalone)
}

/// A result that says the update took effect.
pub open spec fn applied_result(result: ResultView) -> ResultView {
    ResultView { applied: true, changed: true, message: "update applied"@, ..result }
}

/// Makes one staged file executable; where that fails, clears the stage.
pub open spec fn arm_at(l: Seq<IoEvent>, i: int, t: PairState, stage: Seq<u8>) -> (
    Result<(), FailureView>,
    int,
) {
    let (r, i) = set_executable_at(l, i, stage);
    match r {
        Ok(_) => (Ok(()), i),
        Err(error) => {
            let (cleared, i) = clear_stages_at(l, i, t);
            (
                Err(
                    standalone_failure("staging_failed"@, error.message, stage).after_cleanup(
                        cleared,
                    ),
                ),
                i,
            )
        },
    }
}

/// Writes both new executables beside the old ones.
pub open spec fn write_stages_at(l: Seq<IoEvent>, i: int, t: PairState, release: ReleaseView) -> (
    Result<(), FailureView>,
    int,
) {
    let (r, i) = create_staged_file_at(l, i, t.stage.primary, release.primary);
    match r {
        Err(error) => (
            Err(standalone_failure("staging_failed"@, error.message, t.paths.primary)),
            i,
        ),
        Ok(_) => {
            let (r, i) = create_staged_file_at(l, i, t.stage.secondary, release.secondary);
            match r {
                Err(error) => {
                    let (_, i) = remove_file_at(l, i, t.stage.primary);
                    (
                        Err(
                            standalone_failure(
                                "staging_failed"@,
                                error.message,
                                t.paths.secondary,
                            ),
                        ),
                        i,
                    )
                },
                Ok(_) => (Ok(()), i),
            }
        },
    }
}

/// Stages both new executables and tries them out there.
#[verifier::opaque]
pub open spec fn stage_at(l: Seq<IoEvent>, i: int, t: PairState, release: ReleaseView) -> (
    Result<(), FailureView>,
    int,
) {
    let (present, i) = is_file_at(l, i, t.paths.primary);
    let (present, i) = if present {
        is_file_at(l, i, t.paths.secondary)
    } else {
        (false, i)
    };
    if !present {
        (
            Err(
                standalone_failure(
                    "binary_pair_missing"@,
                    "standalone updates require both ramiz and git-ramiz executables"@,
                    t.paths.primary,
                ),
            ),
            i,
        )
    } else {
        let (r, i) = write_stages_at(l, i, t, release);
        match r {
            Err(failure) => (Err(failure), i),
            Ok(_) => {
                let (r, i) = arm_at(l, i, t, t.stage.primary);
                match r {
                    Err(failure) => (Err(failure), i),
                    Ok(_) => {
                        let (r, i) = arm_at(l, i, t, t.stage.secondary);
                        match r {
                            Err(failure) => (Err(failure), i),
                            Ok(_) => {
                                let (r, i) = verify_binaries_at(l, i, t.stage, t.version);
                                match r {
                                    Ok(_) => (Ok(()), i),
                                    Err(failure) => {
                                        let (cleared, i) = clear_stages_at(l, i, t);
                                        (
                                            Err(
                                                failure.of_installer(
                                                    Installer::Standalone,
                                                ).after_cleanup(cleared),
                                            ),
                                            i,
                                        )
                                    },
                                }
                            },
                        }
                    },
                }
            },
        }
    }
}

/// Undoes the replacement of executables and sidecars after `failure`.
pub open spec fn undo_at(
    l: Seq<IoEvent>,
    i: int,
    t: PairState,
    files: Seq<SidecarView>,
    failure: FailureView,
) -> (FailureView, int) {
    let (rollback, i) = roll_back_at(l, i, t);
    let (restored, i) = restore_sidecars_at(l, i, files);
    (failure.after_rollback(rollback).after_cleanup(restored), i)
}

/// Swaps the staged executables in; on any failure before they are proven in
/// place, undoes everything.
#[verifier::opaque]
pub open spec fn swap_at(
    l: Seq<IoEvent>,
    i: int,
    t: PairState,
    files: Seq<SidecarView>,
    result: ResultView,
) -> (Result<ResultView, FailureView>, int) {
    let (r, t, i) = move_aside_at(l, i, t);
    match r {
        Err(error) => {
            let problem = standalone_failure("activation_failed"@, error.message, t.paths.primary);
            let (problem, i) = undo_at(l, i, t, files, problem);
            (Err(problem), i)
        },
        Ok(_) => {
            let (r, t, i) = move_in_at(l, i, t);
            match r {
                Err(error) => {
                    let problem = standalone_failure(
                        "update_rolled_back"@,
                        "activation failed and the previous executable pair was restored: "@
                            + error.message,
                        t.paths.primary,
                    );
                    let (problem, i) = undo_at(l, i, t, files, problem);
                    (Err(problem), i)
                },
                Ok(_) => {
                    let (r, i) = verify_binaries_at(l, i, t.paths, t.version);
                    match r {
                        Err(error) => {
                            let problem = standalone_failure(
                                "update_rolled_back"@,
                                "verification failed and the previous executable pair was restored: "@
                                    + error.message,
                                t.paths.primary,
                            );
                            let (problem, i) = undo_at(l, i, t, files, problem);
                            (Err(problem), i)
                        },
                        Ok(_) => {
                            let (cleared, i) = clear_backups_at(l, i, t);
                            match cleared {
                                Err(_) => (
                                    Err(
                                        standalone_failure(
                                            "update_cleanup_failed"@,
                                            "update applied but cleanup of preserved files failed"@,
                                            t.paths.primary,
                                        ).after_cleanup(cleared).in_effect(),
                                    ),
                                    i,
                                ),
                                Ok(_) => (Ok(applied_result(result)), i),
                            }
                        },
                    }
                },
            }
        },
    }
}

/// Stages the release, replaces the sidecars and swaps the executables.
#[verifier::opaque]
pub open spec fn activate_at(
    l: Seq<IoEvent>,
    i: int,
    host: Seq<char>,
    t: PairState,
    release: ReleaseView,
    trust: (Seq<u8>, Seq<u8>),
    result: ResultView,
) -> (Result<ResultView, FailureView>, int) {
    let (r, i) = stage_at(l, i, t, release);
    match r {
        Err(failure) => (Err(failure), i),
        Ok(_) => {
            let (aux, i) = capture_sidecars_at(l, i, t.paths, t.version, host, release, trust);
            match aux {
                Err(failure) => (Err(failure.of_installer(Installer::Standalone)), i),
                Ok(files) => {
                    let (r, files, i) = replace_sidecars_at(l, i, files);
                    match r {
                        Err(failure) => {
                            let (cleared, i) = clear_stages_at(l, i, t);
                            // Clearing the stage has the last word on what is
                            // left behind.
                            (
                                Err(
                                    failure.of_installer(Installer::Standalone).after_cleanup(
                                        cleared,
                                    ),
                                ),
                                i,
                            )
                        },
                        Ok(_) => swap_at(l, i, t, files, result),
                    }
                },
            }
        },
    }
}

fn arm<I: UpdateIo>(io: &mut I, t: &PairTransaction, stage: &[u8]) -> (r: Result<
    (),
    UpdateFailure,
>)
    ensures
        extends(final(io).log(), old(io).log()),
        forall|l: Seq<IoEvent>|
            extends(l, final(io).log()) ==> #[trigger] arm_at(
                l,
                old(io).log().len() as int,
                t@,
                stage@,
            ) == (outcome(r), final(io).log().len() as int),
{
    if let Err(error) = io.set_executable(stage) {
        let cleared = t.cleanup_stages(io);
        return Err(
            standalone_error("staging_failed", error.message, stage).with_cleanup(cleared),
        );
    }
    Ok(())
}

fn write_stages<I: UpdateIo>(io: &mut I, t: &PairTransaction, release: &DownloadedRelease) -> (r:
    Result<(), UpdateFailure>)
    ensures
        extends(final(io).log(), old(io).log()),
        forall|l: Seq<IoEvent>|
            extends(l, final(io).log()) ==> #[trigger] write_stages_at(
                l,
                old(io).log().len() as int,
                t@,
                release@,
            ) == (outcome(r), final(io).log().len() as int),
{
    if let Err(error) = io.create_staged_file(
        t.stage_primary.as_slice(),
        release.primary.as_slice(),
    ) {
        return Err(
            standalone_error("staging_failed", error.message, t.paths.primary.as_slice()),
        );
    }
    if let Err(error) = io.create_staged_file(
        t.stage_secondary.as_slice(),
        release.secondary.as_slice(),
    ) {
        let _ = io.remove_file(t.stage_primary.as_slice());
        return Err(
            standalone_error("staging_failed", error.message, t.paths.secondary.as_slice()),
        );
    }
    Ok(())
}

/// Stages both new executables and tries them out there.
pub fn stage<I: UpdateIo>(io: &mut I, t: &PairTransaction, release: &DownloadedRelease) -> (r:
    Result<(), UpdateFailure>)
    ensures
        extends(final(io).log(), old(io).log()),
        forall|l: Seq<IoEvent>|
            extends(l, final(io).log()) ==> #[trigger] stage_at(
                l,
                old(io).log().len() as int,
                t@,
                release@,
            ) == (outcome(r), final(io).log().len() as int),
{
    proof {
        reveal(stage_at);
    }
    if !io.is_file(t.paths.primary.as_slice()) || !io.is_file(t.paths.secondary.as_slice()) {
        return Err(
            standalone_error(
                "binary_pair_missing",
                "standalone updates require both ramiz and git-ramiz executables".to_owned(),
                t.paths.primary.as_slice(),
            ),
        );
    }
    if let Err(failure) = write_stages(io, t, release) {
        return Err(failure);
    }
    if let Err(failure) = arm(io, t, t.stage_primary.as_slice()) {
        return Err(failure);
    }
    if let Err(failure) = arm(io, t, t.stage_secondary.as_slice()) {
        return Err(failure);
    }
    let staged = t.staged_pair();
    if let Err(failure) = verify_binaries(io, &staged, t.version.as_str()) {
        let cleared = t.cleanup_stages(io);
        return Err(failure.with_installer(Installer::Standalone).with_cleanup(cleared));
    }
    Ok(())
}

fn undo<I: UpdateIo>(
    io: &mut I,
    t: &PairTransaction,
    aux: &AuxTransaction,
    failure: UpdateFailure,
) -> (r: UpdateFailure)
    ensures
        extends(final(io).log(), old(io).log()),
        forall|l: Seq<IoEvent>|
            extends(l, final(io).log()) ==> #[trigger] undo_at(
                l,
                old(io).log().len() as int,
                t@,
                aux@,
                failure@,
            ) == (r@, final(io).log().len() as int),
{
    let rollback = t.rollback(io);
    let restored = aux.rollback(io);
    failure.with_rollback(rollback).with_cleanup(restored)
}

/// Swaps the staged executables in; on any failure before they are proven in
/// place, undoes everything.
pub fn swap<I: UpdateIo>(
    io: &mut I,
    t: PairTransaction,
    aux: &AuxTransaction,
    result: UpdateResult,
) -> (r: Result<UpdateResult, UpdateFailure>)
    ensures
        extends(final(io).log(), old(io).log()),
        forall|l: Seq<IoEvent>|
            extends(l, final(io).log()) ==> #[trigger] swap_at(
                l,
                old(io).log().len() as int,
                t@,
                aux@,
                result@,
            ) == (outcome(r), final(io).log().len() as int),
{
    proof {
        reveal(swap_at);
    }
    let mut t = t;
    if let Err(error) = t.move_old_to_backup(io) {
        let problem = standalone_error(
            "activation_failed",
            error.message,
            t.paths.primary.as_slice(),
        );
        return Err(undo(io, &t, aux, problem));
    }
    if let Err(error) = t.activate(io) {
        let problem = standalone_error(
            "update_rolled_back",
            text2(
                "activation failed and the previous executable pair was restored: ",
                error.message.as_str(),
            ),
            t.paths.primary.as_slice(),
        );
        return Err(undo(io, &t, aux, problem));
    }
    if let Err(failure) = verify_binaries(io, &t.paths, t.version.as_str()) {
        let problem = standalone_error(
            "update_rolled_back",
            text2(
                "verification failed and the previous executable pair was restored: ",
                failure.message.as_str(),
            ),
            t.paths.primary.as_slice(),
        );
        return Err(undo(io, &t, aux, problem));
    }
    let cleared = t.cleanup_backups(io);
    if cleared.is_err() {
        return Err(
            standalone_error(
                "update_cleanup_failed",
                "update applied but cleanup of preserved files failed".to_owned(),
                t.paths.primary.as_slice(),
            ).with_cleanup(cleared).applied(),
        );
    }
    let mut result = result;
    result.applied = true;
    result.changed = true;
    result.message = "update applied".to_owned();
    Ok(result)
}

/// Stages the release, replaces the sidecars and swaps the executables.
pub fn activate_standalone<I: UpdateIo>(
    io: &mut I,
    host: &str,
    t: PairTransaction,
    release: &DownloadedRelease,
    trust: &(Vec<u8>, Vec<u8>),
    result: UpdateResult,
) -> (r: Result<UpdateResult, UpdateFailure>)
    ensures
        extends(final(io).log(), old(io).log()),
        forall|l: Seq<IoEvent>|
            extends(l, final(io).log()) ==> #[trigger] activate_at(
                l,
                old(io).log().len() as int,
                host@,
                t@,
                release@,
                (trust.0@, trust.1@),
                result@,
            ) == (outcome(r), final(io).log().len() as int),
{
    proof {
        reveal(activate_at);
    }
    if let Err(failure) = stage(io, &t, release) {
        return Err(failure);
    }
    let mut aux = match AuxTransaction::capture(
        io,
        &t.paths,
        t.version.as_str(),
        host,
        release,
        trust,
    ) {
        Ok(aux) => aux,
        Err(failure) => return Err(failure.with_installer(Installer::Standalone)),
    };
    if let Err(failure) = aux.apply(io) {
        let cleared = t.cleanup_stages(io);
        return Err(failure.with_installer(Installer::Standalone).with_cleanup(cleared));
    }
    swap(io, t, &aux, result)
}

} // verus!
