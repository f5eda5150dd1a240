//! What an outcome of an update says about what was done.
use crate::outside::version_after;
use crate::text::utf8;
use crate::update::activation::{
    activate_at, applied_result, arm_at, stage_at, swap_at, undo_at, write_stages_at,
};
use crate::update::adoption::{adopt_files_at, protect_at, withdraw_at};
use crate::update::cargo::{
    install_at, others_kept, restore_backup_at, restore_binary_at, restore_record_at,
    shared_records_at, BackupView,
};
use crate::update::discover::marker_proves_at;
use crate::update::io::{remove_file_at, write_file_at, IoEvent};
use crate::update::laws::{position, reading};
use crate::update::marker::{manifest_at, marker_at, marker_json, signature_at, version_like};
use crate::update::model::{
    pair_of, CommandView, FailureView, Installer, MarkerView, MetadataView, PairView, ReleaseView,
    ResultView,
};
use crate::update::records::{legacy_at, list_at, stream_at};
use crate::update::service::{
    cargo_update_at, prepared_at, run_at, standalone_update_at, At, RequestView, Trace,
};
use crate::update::sidecars::{
    begun, release_marker, replace_sidecar_at, replace_sidecars_from, restore_sidecar_at,
    restore_sidecars_at, restore_sidecars_from, SidecarView,
};
use crate::update::transaction::{
    clear_stages_at, move_aside_at, move_in_at, roll_back_at, verify_binaries_at, PairState,
};
use vstd::prelude::*;

verus! {

/// `e` stands in the log between `i` and `j`.
pub open spec fn happened(l: Seq<IoEvent>, i: int, j: int, e: IoEvent) -> bool {
    exists|k: int| i <= k < j && #[trigger] l[k] == e
}

/// A file was removed.
pub open spec fn removed(e: IoEvent, path: Seq<u8>) -> bool {
    e matches IoEvent::RemoveFile(p, Ok(_)) && p == path
}

/// A file was written.
pub open spec fn wrote(e: IoEvent, path: Seq<u8>, bytes: Seq<u8>) -> bool {
    e matches IoEvent::WriteFile(p, b, Ok(_)) && p == path && b == bytes
}

/// A file was made private.
pub open spec fn protected(e: IoEvent, path: Seq<u8>) -> bool {
    e matches IoEvent::SetOwnerOnly(p, Ok(_)) && p == path
}

/// A file was removed between `i` and `j`.
pub open spec fn was_removed(l: Seq<IoEvent>, i: int, j: int, path: Seq<u8>) -> bool {
    exists|k: int| i <= k < j && #[trigger] removed(l[k], path)
}

/// A file was written between `i` and `j`.
pub open spec fn was_written(
    l: Seq<IoEvent>,
    i: int,
    j: int,
    path: Seq<u8>,
    bytes: Seq<u8>,
) -> bool {
    exists|k: int| i <= k < j && #[trigger] wrote(l[k], path, bytes)
}

/// A file was made private between `i` and `j`.
pub open spec fn was_protected(l: Seq<IoEvent>, i: int, j: int, path: Seq<u8>) -> bool {
    exists|k: int| i <= k < j && #[trigger] protected(l[k], path)
}

// ---------------------------------------------------------------------------
// Versions
// ---------------------------------------------------------------------------

proof fn lemma_activated_result(
    l: Seq<IoEvent>,
    i: int,
    host: Seq<char>,
    t: PairState,
    release: ReleaseView,
    trust: (Seq<u8>, Seq<u8>),
    result: ResultView,
)
    ensures
        activate_at(l, i, host, t, release, trust, result).0 matches Ok(out) ==> out
            == applied_result(result),
{
    reveal(activate_at);
    reveal(stage_at);
    let (r, a) = stage_at(l, i, t, release);
    let (aux, b) = crate::update::sidecars::capture_sidecars_at(
        l,
        a,
        t.paths,
        t.version,
        host,
        release,
        trust,
    );
    if let Ok(files) = aux {
        let (r, files, c) = crate::update::sidecars::replace_sidecars_at(l, b, files);
        lemma_swapped_result(l, c, t, files, result);
    }
}

proof fn lemma_swapped_result(
    l: Seq<IoEvent>,
    i: int,
    t: PairState,
    files: Seq<SidecarView>,
    result: ResultView,
)
    ensures
        swap_at(l, i, t, files, result).0 matches Ok(out) ==> out == applied_result(result),
{
    reveal(swap_at);
}

proof fn lemma_installed_result(
    l: Seq<IoEvent>,
    i: int,
    host: Seq<char>,
    current: Seq<char>,
    paths: PairView,
    root: Seq<u8>,
    version: Seq<char>,
    result: ResultView,
)
    ensures
        cargo_update_at(l, i, host, current, paths, root, version, result).0 matches Ok(out)
            ==> out.target_version == result.target_version,
{
    reveal(install_at);
    let (binstall, a) = crate::update::io::command_available_at(l, i, "cargo-binstall"@);
    let command = crate::update::service::cargo_command(binstall, version, root);
    let (lock, b) = crate::update::service::take_lock_at(l, a);
    let (r, c) = crate::update::service::cargo_locked_at(
        l,
        b,
        host,
        current,
        paths,
        root,
        command,
        version,
        result,
    );
    assert(r matches Ok(out) ==> out.target_version == result.target_version) by {
        let (owner, d) = crate::update::discover::discover_at(l, b, paths, host);
        let (proven, e) = crate::update::records::record_present_at(
            l,
            d,
            root,
            Some(current),
            host,
        );
        let (backup, f) = crate::update::cargo::capture_backup_at(l, e, paths, root);
        let (out, g) = install_at(l, f, command, paths, version, result);
        assert(out matches Ok(out) ==> out.target_version == result.target_version);
    }
}

proof fn lemma_standalone_result(
    t: Trace,
    c: At,
    host: Seq<char>,
    paths: PairView,
    local: (MarkerView, Seq<u8>, Seq<u8>),
    metadata: MetadataView,
    result: ResultView,
)
    ensures
        standalone_update_at(t, c, host, paths, local, metadata, result).0 matches Ok(out)
            ==> out.target_version == result.target_version,
{
    let (lock, i) = crate::update::service::take_lock_at(t.io, c.io);
    let c1 = c.io_at(i);
    let (prepared, c2) = prepared_at(t, c1, host, paths, local, metadata);
    if let Ok((release, trust)) = prepared {
        let (pair, j) = crate::update::transaction::capture_pair_at(
            t.io,
            c2.io,
            paths,
            metadata.version,
        );
        if let Ok(pair) = pair {
            lemma_activated_result(t.io, j, host, pair, release, trust, result);
        }
    }
}

/// An update takes effect only towards a newer version; the one other change
/// is an adoption that was asked for, which keeps the version.
pub proof fn law_applied_only_towards_newer(t: Trace, c: At, host: Seq<char>, request: RequestView)
    requires
        run_at(t, c, host, request).0 matches Ok(result) && result.applied,
    ensures
        !request.check,
        run_at(t, c, host, request).0->Ok_0.target_version matches Some(target) && {
            ||| request.adopt && target == request.current_version
            ||| version_after(target, request.current_version)
        },
{
    let paths = pair_of(request.executable);
    let current = request.current_version;
    let (installer, i) = crate::update::discover::discover_at(t.io, c.io, paths, host);
    let c1 = c.io_at(i);
    match installer {
        Installer::Cargo => {
            assert forall|
                l: Seq<IoEvent>,
                a: int,
                root: Seq<u8>,
                version: Seq<char>,
                result: ResultView,
            |
                (#[trigger] cargo_update_at(
                    l,
                    a,
                    host,
                    current,
                    paths,
                    root,
                    version,
                    result,
                )).0 matches Ok(out) ==> out.target_version == result.target_version by {
                lemma_installed_result(l, a, host, current, paths, root, version, result);
            }
        },
        Installer::Standalone => {
            assert forall|
                c2: At,
                local: (MarkerView, Seq<u8>, Seq<u8>),
                metadata: MetadataView,
                result: ResultView,
            |
                (#[trigger] standalone_update_at(
                    t,
                    c2,
                    host,
                    paths,
                    local,
                    metadata,
                    result,
                )).0 matches Ok(out) ==> out.target_version == result.target_version by {
                lemma_standalone_result(t, c2, host, paths, local, metadata, result);
            }
        },
        _ => {},
    }
}

// ---------------------------------------------------------------------------
// The executable pair
// ---------------------------------------------------------------------------

/// A path of the stage.
pub open spec fn of_stage(t: PairState, path: Seq<u8>) -> bool {
    path == t.stage.primary || path == t.stage.secondary
}

/// An event that changes no file but the staged ones.
pub open spec fn only_stage(t: PairState, e: IoEvent) -> bool {
    match e {
        IoEvent::CreateStagedFile(path, _, _) => of_stage(t, path),
        IoEvent::SetExecutable(path, _) => of_stage(t, path),
        IoEvent::RemoveFile(path, _) => of_stage(t, path),
        IoEvent::Run(program, _, _) => of_stage(t, program),
        _ => reading(e),
    }
}

/// From `i` to `j` only the staged files are changed or run.
pub open spec fn keeps_to_stage(l: Seq<IoEvent>, i: int, j: int, t: PairState) -> bool {
    ||| j == -1
    ||| 0 <= i <= j <= l.len() && forall|k: int| i <= k < j ==> only_stage(t, #[trigger] l[k])
}

proof fn lemma_clear_keeps_to_stage(l: Seq<IoEvent>, i: int, t: PairState)
    requires
        position(l, i),
    ensures
        keeps_to_stage(l, i, clear_stages_at(l, i, t).1, t),
{
}

proof fn lemma_arm_keeps_to_stage(l: Seq<IoEvent>, i: int, t: PairState, stage: Seq<u8>)
    requires
        position(l, i),
        of_stage(t, stage),
    ensures
        keeps_to_stage(l, i, arm_at(l, i, t, stage).1, t),
{
    let (r, j) = crate::update::io::set_executable_at(l, i, stage);
    assert(keeps_to_stage(l, i, j, t));
    lemma_clear_keeps_to_stage(l, j, t);
}

/// Staging, whether it succeeds or fails, neither changes nor runs the
/// installed executables: it touches the staged files only. So a new
/// executable that cannot be staged is never activated.
pub proof fn law_staging_leaves_the_installation_alone(
    l: Seq<IoEvent>,
    i: int,
    t: PairState,
    release: ReleaseView,
)
    requires
        position(l, i),
    ensures
        keeps_to_stage(l, i, stage_at(l, i, t, release).1, t),
{
    reveal(stage_at);
    let (present, a) = crate::update::io::is_file_at(l, i, t.paths.primary);
    let (present, b) = if present {
        crate::update::io::is_file_at(l, a, t.paths.secondary)
    } else {
        (false, a)
    };
    assert(keeps_to_stage(l, i, b, t));
    let (r, c) = write_stages_at(l, b, t, release);
    assert(keeps_to_stage(l, b, c, t));
    lemma_arm_keeps_to_stage(l, c, t, t.stage.primary);
    let (r, d) = arm_at(l, c, t, t.stage.primary);
    lemma_arm_keeps_to_stage(l, d, t, t.stage.secondary);
    let (r, e) = arm_at(l, d, t, t.stage.secondary);
    let (r, f) = verify_binaries_at(l, e, t.stage, t.version);
    assert(keeps_to_stage(l, e, f, t));
    lemma_clear_keeps_to_stage(l, f, t);
}

/// The activation of a release that cannot be staged ends with that failure,
/// and has touched the staged files only.
pub proof fn law_failed_staging_ends_the_activation(
    l: Seq<IoEvent>,
    i: int,
    host: Seq<char>,
    t: PairState,
    release: ReleaseView,
    trust: (Seq<u8>, Seq<u8>),
    result: ResultView,
)
    requires
        position(l, i),
        stage_at(l, i, t, release).0 is Err,
    ensures
        activate_at(l, i, host, t, release, trust, result).0 is Err,
        keeps_to_stage(l, i, activate_at(l, i, host, t, release, trust, result).1, t),
{
    reveal(activate_at);
    reveal(stage_at);
    law_staging_leaves_the_installation_alone(l, i, t, release);
}

/// A rollback that reports no problem has read both executables back and found
/// them byte for byte what they were; after that it only removed staged files.
pub proof fn law_clean_rollback_restores_the_pair(l: Seq<IoEvent>, i: int, t: PairState)
    requires
        position(l, i),
        roll_back_at(l, i, t).0 is Ok,
        roll_back_at(l, i, t).1 != -1,
    ensures
        ({
            let j = roll_back_at(l, i, t).1;
            &&& j - 4 >= i
            &&& l[j - 4] == IoEvent::ReadFile(t.paths.primary, Ok(t.old_primary))
            &&& l[j - 3] == IoEvent::ReadFile(t.paths.secondary, Ok(t.old_secondary))
            &&& removed(l[j - 2], t.stage.primary)
            &&& removed(l[j - 1], t.stage.secondary)
        }),
{
}

/// A report that an update was rolled back, without a note of what went wrong
/// undoing it, is made only after both executables were read back unchanged.
pub proof fn law_rolled_back_means_restored(
    l: Seq<IoEvent>,
    i: int,
    t: PairState,
    files: Seq<SidecarView>,
    failure: FailureView,
)
    requires
        position(l, i),
        undo_at(l, i, t, files, failure).1 != -1,
        failure.rollback is None,
        undo_at(l, i, t, files, failure).0.rollback is None,
    ensures
        happened(
            l,
            i,
            undo_at(l, i, t, files, failure).1,
            IoEvent::ReadFile(t.paths.primary, Ok(t.old_primary)),
        ),
        happened(
            l,
            i,
            undo_at(l, i, t, files, failure).1,
            IoEvent::ReadFile(t.paths.secondary, Ok(t.old_secondary)),
        ),
{
    let (rollback, j) = roll_back_at(l, i, t);
    assert(rollback is Ok);
    let end = undo_at(l, i, t, files, failure).1;
    lemma_restore_moves_on(l, j, files, 0, Seq::empty());
    assert(j != -1 && j <= end);
    law_clean_rollback_restores_the_pair(l, i, t);
    assert(l[j - 4] == IoEvent::ReadFile(t.paths.primary, Ok(t.old_primary)));
    assert(l[j - 3] == IoEvent::ReadFile(t.paths.secondary, Ok(t.old_secondary)));
}

/// Restoring the sidecars goes on in the log.
pub proof fn lemma_restore_moves_on(
    l: Seq<IoEvent>,
    i: int,
    files: Seq<SidecarView>,
    k: int,
    problems: Seq<Seq<char>>,
)
    requires
        position(l, i),
    ensures
        restore_sidecars_from(l, i, files, k, problems).1 == -1 || 0 <= i
            <= restore_sidecars_from(l, i, files, k, problems).1 <= l.len(),
    decreases files.len() - k,
{
    if 0 <= k < files.len() {
        let (next, j) = restore_sidecar_at(l, i, files[k], problems);
        assert(j == -1 || 0 <= i <= j <= l.len());
        lemma_restore_moves_on(l, j, files, k + 1, next);
    }
}

/// A program ran with one argument and reported success.
pub open spec fn ran_well(e: IoEvent, program: Seq<u8>, argument: Seq<char>) -> bool {
    e matches IoEvent::Run(p, args, Ok(output)) && p == program && args == seq![argument]
        && output.success
}

/// An executable reported `version` and showed its help, at `k` in the log.
pub open spec fn shown_at(l: Seq<IoEvent>, k: int, binary: Seq<u8>, version: Seq<char>) -> bool {
    &&& l[k] matches IoEvent::Run(p, args, Ok(output)) && p == binary && args == seq![
        "--version"@,
    ] && output.success && crate::text::stripped(crate::outside::lossy_text(output.stdout))
        == "ramiz "@ + version
    &&& ran_well(l[k + 1], binary, "--help"@)
}

/// Both executables are tried out: each reports the version and shows its
/// help.
pub proof fn law_verified_pair_reported_its_version(
    l: Seq<IoEvent>,
    i: int,
    paths: PairView,
    version: Seq<char>,
)
    requires
        position(l, i),
        verify_binaries_at(l, i, paths, version).0 is Ok,
        verify_binaries_at(l, i, paths, version).1 != -1,
    ensures
        verify_binaries_at(l, i, paths, version).1 == i + 4,
        shown_at(l, i, paths.primary, version),
        shown_at(l, i + 2, paths.secondary, version),
{
}

/// A standalone update succeeds only where the installed executables, once in
/// place, both reported the new version; after that only kept and staged files
/// were removed.
pub proof fn law_applied_swap_was_verified_in_place(
    l: Seq<IoEvent>,
    i: int,
    t: PairState,
    files: Seq<SidecarView>,
    result: ResultView,
)
    requires
        position(l, i),
        swap_at(l, i, t, files, result).0 is Ok,
        swap_at(l, i, t, files, result).1 != -1,
    ensures
        ({
            let j = swap_at(l, i, t, files, result).1;
            &&& j - 8 >= i
            &&& shown_at(l, j - 8, t.paths.primary, t.version)
            &&& shown_at(l, j - 6, t.paths.secondary, t.version)
            &&& removed(l[j - 4], t.backup.primary)
            &&& removed(l[j - 3], t.backup.secondary)
            &&& removed(l[j - 2], t.stage.primary)
            &&& removed(l[j - 1], t.stage.secondary)
        }),
        swap_at(l, i, t, files, result).0->Ok_0 == applied_result(result),
{
    reveal(swap_at);
    let (r, t1, a) = move_aside_at(l, i, t);
    let (r, t2, b) = move_in_at(l, a, t1);
    law_verified_pair_reported_its_version(l, b, t2.paths, t2.version);
}

/// An update through Cargo succeeds only where the exact command that is
/// reported ran well and both executables then reported the new version.
pub proof fn law_applied_install_was_verified(
    l: Seq<IoEvent>,
    i: int,
    command: CommandView,
    paths: PairView,
    version: Seq<char>,
    result: ResultView,
)
    requires
        position(l, i),
        install_at(l, i, command, paths, version, result).0 is Ok,
        install_at(l, i, command, paths, version, result).1 != -1,
    ensures
        l[i] matches IoEvent::Run(program, args, Ok(output)) && program == utf8(command.program)
            && args == command.args && output.success,
        shown_at(l, i + 1, paths.primary, version),
        shown_at(l, i + 3, paths.secondary, version),
        install_at(l, i, command, paths, version, result).0->Ok_0.commands
            == result.commands.push(command),
{
    reveal(install_at);
    law_verified_pair_reported_its_version(l, i + 1, paths, version);
}

// ---------------------------------------------------------------------------
// The sidecars
// ---------------------------------------------------------------------------

/// A sidecar was put back as it was between `i` and `j`: removed, and where it
/// held something that was written again and made private.
pub open spec fn put_back(l: Seq<IoEvent>, i: int, j: int, file: SidecarView) -> bool {
    &&& was_removed(l, i, j, file.path)
    &&& file.old_bytes matches Some(bytes) ==> {
        &&& was_written(l, i, j, file.path, bytes)
        &&& was_protected(l, i, j, file.path)
    }
}

proof fn lemma_put_back_within(
    l: Seq<IoEvent>,
    i: int,
    j: int,
    a: int,
    b: int,
    file: SidecarView,
)
    requires
        a <= i,
        j <= b,
        put_back(l, i, j, file),
    ensures
        put_back(l, a, b, file),
{
}

proof fn lemma_restore_sidecar(
    l: Seq<IoEvent>,
    i: int,
    file: SidecarView,
    problems: Seq<Seq<char>>,
)
    requires
        position(l, i),
    ensures
        restore_sidecar_at(l, i, file, problems).0.len() >= problems.len(),
        restore_sidecar_at(l, i, file, problems).1 == -1 || 0 <= i
            <= restore_sidecar_at(l, i, file, problems).1 <= l.len(),
        restore_sidecar_at(l, i, file, problems).0.len() == problems.len() && file.mutated
            && restore_sidecar_at(l, i, file, problems).1 != -1 ==> put_back(
            l,
            i,
            restore_sidecar_at(l, i, file, problems).1,
            file,
        ),
{
    let (next, j) = restore_sidecar_at(l, i, file, problems);
    if next.len() == problems.len() && file.mutated && j != -1 {
        assert(removed(l[i], file.path));
        if let Some(bytes) = file.old_bytes {
            assert(wrote(l[i + 1], file.path, bytes));
            assert(protected(l[i + 2], file.path));
        }
    }
}

proof fn lemma_restore_sidecars(
    l: Seq<IoEvent>,
    i: int,
    files: Seq<SidecarView>,
    k: int,
    problems: Seq<Seq<char>>,
)
    requires
        position(l, i),
        0 <= k,
        restore_sidecars_from(l, i, files, k, problems).0 is Ok,
        restore_sidecars_from(l, i, files, k, problems).1 != -1,
    ensures
        problems.len() == 0,
        0 <= i <= restore_sidecars_from(l, i, files, k, problems).1 <= l.len(),
        forall|m: int|
            k <= m < files.len() && (#[trigger] files[m]).mutated ==> put_back(
                l,
                i,
                restore_sidecars_from(l, i, files, k, problems).1,
                files[m],
            ),
    decreases files.len() - k,
{
    if k < files.len() {
        let (next, j) = restore_sidecar_at(l, i, files[k], problems);
        lemma_restore_sidecar(l, i, files[k], problems);
        lemma_restore_moves_on(l, j, files, k + 1, next);
        lemma_restore_sidecars(l, j, files, k + 1, next);
        let end = restore_sidecars_from(l, i, files, k, problems).1;
        assert forall|m: int| k <= m < files.len() && (#[trigger] files[m]).mutated implies put_back(
            l,
            i,
            end,
            files[m],
        ) by {
            if m == k {
                lemma_put_back_within(l, i, j, i, end, files[m]);
            } else {
                lemma_put_back_within(l, j, end, i, end, files[m]);
            }
        }
    }
}

/// Restoring the sidecars without a problem puts every one back whose
/// replacement had begun.
pub proof fn law_restored_sidecars_are_put_back(l: Seq<IoEvent>, i: int, files: Seq<SidecarView>)
    requires
        position(l, i),
        restore_sidecars_at(l, i, files).0 is Ok,
        restore_sidecars_at(l, i, files).1 != -1,
    ensures
        forall|m: int|
            0 <= m < files.len() && (#[trigger] files[m]).mutated ==> put_back(
                l,
                i,
                restore_sidecars_at(l, i, files).1,
                files[m],
            ),
{
    lemma_restore_sidecars(l, i, files, 0, Seq::empty());
}

/// Replacing the sidecars either replaces all of them, or fails; and where
/// that failure notes nothing left behind, every one whose replacement had
/// begun was put back after the failure.
pub proof fn law_failed_sidecars_are_put_back(
    l: Seq<IoEvent>,
    i: int,
    files: Seq<SidecarView>,
    k: int,
)
    requires
        position(l, i),
        0 <= k <= files.len(),
        replace_sidecars_from(l, i, files, k).2 != -1,
    ensures
        0 <= i <= replace_sidecars_from(l, i, files, k).2 <= l.len(),
        replace_sidecars_from(l, i, files, k).0 matches Err(failure) && failure.cleanup is None
            ==> forall|m: int|
            0 <= m < files.len() && (#[trigger] replace_sidecars_from(
                l,
                i,
                files,
                k,
            ).1[m]).mutated ==> put_back(
                l,
                i,
                replace_sidecars_from(l, i, files, k).2,
                replace_sidecars_from(l, i, files, k).1[m],
            ),
        replace_sidecars_from(l, i, files, k).1.len() == files.len(),
    decreases files.len() - k,
{
    if k < files.len() {
        let marked = files.update(k, begun(files[k]));
        let (r, j) = replace_sidecar_at(l, i, files[k]);
        let (out, after, end) = replace_sidecars_from(l, i, files, k);
        if r is Err {
            lemma_restore_moves_on(l, j, marked, 0, Seq::empty());
            if out->Err_0.cleanup is None {
                assert(restore_sidecars_at(l, j, marked).0 is Ok);
                lemma_restore_sidecars(l, j, marked, 0, Seq::empty());
                assert forall|m: int|
                    0 <= m < files.len() && (#[trigger] after[m]).mutated implies put_back(
                    l,
                    i,
                    end,
                    after[m],
                ) by {
                    assert(after[m] == marked[m]);
                    lemma_put_back_within(l, j, end, i, end, marked[m]);
                }
            }
        } else {
            law_failed_sidecars_are_put_back(l, j, marked, k + 1);
            assert forall|m: int|
                0 <= m < files.len() && (#[trigger] after[m]).mutated && out is Err
                    && out->Err_0.cleanup is None implies put_back(l, i, end, after[m]) by {
                lemma_put_back_within(l, j, end, i, end, after[m]);
            }
        }
    }
}

/// The marker that an update writes is the one that proves the installation it
/// leaves: with the release's executables in place and the signed manifest
/// beside them, it is accepted.
pub proof fn law_new_marker_proves_the_new_pair(
    l: Seq<IoEvent>,
    i: int,
    paths: PairView,
    version: Seq<char>,
    host: Seq<char>,
    release: ReleaseView,
    checksums: Seq<u8>,
)
    requires
        version_like(version),
        0 <= i,
        i + 4 <= l.len(),
        l[i] == IoEvent::IsFile(manifest_at(paths.primary), true),
        l[i + 1] == IoEvent::IsFile(signature_at(paths.primary), true),
        l[i + 2] == IoEvent::ReadFile(paths.primary, Ok(release.primary)),
        l[i + 3] == IoEvent::ReadFile(paths.secondary, Ok(release.secondary)),
    ensures
        marker_proves_at(l, i, release_marker(version, host, release, checksums), paths) == (
            true,
            i + 4,
        ),
{
}

// ---------------------------------------------------------------------------
// Cargo's records
// ---------------------------------------------------------------------------

/// An event that changes no file but the two executables.
pub open spec fn only_pair(paths: PairView, e: IoEvent) -> bool {
    match e {
        IoEvent::WriteFile(path, _, _) => path == paths.primary || path == paths.secondary,
        IoEvent::RemoveFile(path, _) => path == paths.primary || path == paths.secondary,
        IoEvent::SetExecutable(path, _) => path == paths.primary || path == paths.secondary,
        _ => reading(e),
    }
}

/// Where `.crates2.json` or the stream changed for another package meanwhile, or
/// cannot be read, restoring
/// refuses to write them: it changes nothing but the two executables.
pub proof fn law_other_packages_are_not_clobbered(l: Seq<IoEvent>, i: int, backup: BackupView)
    requires
        position(l, i),
        ({
            let (r, a) = restore_binary_at(l, i, backup.paths.primary, backup.primary);
            let (s, b) = restore_binary_at(l, a, backup.paths.secondary, backup.secondary);
            let (now, c) = shared_records_at(l, b, backup.root);
            r is Ok && s is Ok && (now is Err || !others_kept(
                backup.records,
                now->Ok_0.0,
                now->Ok_0.1,
            ))
        }),
        restore_backup_at(l, i, backup).1 != -1,
    ensures
        restore_backup_at(l, i, backup).0 is Err,
        0 <= i <= restore_backup_at(l, i, backup).1 <= l.len(),
        forall|k: int|
            i <= k < restore_backup_at(l, i, backup).1 ==> only_pair(
                backup.paths,
                #[trigger] l[k],
            ),
{
    reveal(restore_backup_at);
    let (r, a) = restore_binary_at(l, i, backup.paths.primary, backup.primary);
    let (s, b) = restore_binary_at(l, a, backup.paths.secondary, backup.secondary);
    let (now, c) = shared_records_at(l, b, backup.root);
    assert(0 <= i <= a <= b <= c <= l.len());
    assert forall|k: int| i <= k < a implies only_pair(backup.paths, #[trigger] l[k]) by {}
    assert forall|k: int| a <= k < b implies only_pair(backup.paths, #[trigger] l[k]) by {}
    assert forall|k: int| b <= k < c implies only_pair(backup.paths, #[trigger] l[k]) by {}
}

/// A file is what it was before: written with what it held, or removed where
/// it was not there.
pub open spec fn restored_to(
    l: Seq<IoEvent>,
    i: int,
    j: int,
    path: Seq<u8>,
    bytes: Option<Seq<u8>>,
) -> bool {
    match bytes {
        Some(bytes) => was_written(l, i, j, path, bytes),
        None => was_removed(l, i, j, path),
    }
}

/// Restoring a failed update through Cargo without an error puts back both
/// executables and all three records.
pub proof fn law_restored_backup_is_complete(l: Seq<IoEvent>, i: int, backup: BackupView)
    requires
        position(l, i),
        restore_backup_at(l, i, backup).0 is Ok,
        restore_backup_at(l, i, backup).1 != -1,
    ensures
        ({
            let j = restore_backup_at(l, i, backup).1;
            &&& restored_to(l, i, j, backup.paths.primary, backup.primary)
            &&& restored_to(l, i, j, backup.paths.secondary, backup.secondary)
            &&& restored_to(l, i, j, legacy_at(backup.root), backup.records.legacy)
            &&& restored_to(l, i, j, list_at(backup.root), backup.records.list)
            &&& restored_to(l, i, j, stream_at(backup.root), backup.records.stream)
        }),
{
    reveal(restore_backup_at);
    let (_, a) = restore_binary_at(l, i, backup.paths.primary, backup.primary);
    let (_, b) = restore_binary_at(l, a, backup.paths.secondary, backup.secondary);
    let (_, c) = shared_records_at(l, b, backup.root);
    let (_, d) = restore_record_at(l, c, legacy_at(backup.root), backup.records.legacy);
    let (_, e) = restore_record_at(l, d, list_at(backup.root), backup.records.list);
    let (_, f) = restore_record_at(l, e, stream_at(backup.root), backup.records.stream);
    assert(0 <= i < a && a < b && b <= c && c < d && d < e && e < f && f <= l.len());
    assert(restored_to(l, i, f, backup.paths.primary, backup.primary)) by {
        match backup.primary {
            Some(bytes) => {
                assert(wrote(l[i], backup.paths.primary, bytes));
            },
            None => {
                assert(removed(l[i], backup.paths.primary));
            },
        }
    }
    assert(restored_to(l, i, f, backup.paths.secondary, backup.secondary)) by {
        match backup.secondary {
            Some(bytes) => {
                assert(wrote(l[a], backup.paths.secondary, bytes));
            },
            None => {
                assert(removed(l[a], backup.paths.secondary));
            },
        }
    }
    lemma_record_restored(l, c, i, f, legacy_at(backup.root), backup.records.legacy);
    lemma_record_restored(l, d, i, f, list_at(backup.root), backup.records.list);
    lemma_record_restored(l, e, i, f, stream_at(backup.root), backup.records.stream);
}

proof fn lemma_record_restored(
    l: Seq<IoEvent>,
    k: int,
    i: int,
    j: int,
    path: Seq<u8>,
    bytes: Option<Seq<u8>>,
)
    requires
        i <= k < j,
        restore_record_at(l, k, path, bytes).0 is Ok,
        restore_record_at(l, k, path, bytes).1 != -1,
    ensures
        restored_to(l, i, j, path, bytes),
{
    match bytes {
        Some(bytes) => {
            assert(wrote(l[k], path, bytes));
        },
        None => {
            assert(removed(l[k], path));
        },
    }
}

// ---------------------------------------------------------------------------
// Adoption
// ---------------------------------------------------------------------------

/// The removal of a file.
pub open spec fn removes(e: IoEvent, path: Seq<u8>) -> bool {
    e matches IoEvent::RemoveFile(p, _) && p == path
}

/// The removal of a file was asked for between `i` and `j`.
pub open spec fn removal_asked(l: Seq<IoEvent>, i: int, j: int, path: Seq<u8>) -> bool {
    exists|k: int| i <= k < j && #[trigger] removes(l[k], path)
}

/// A failed adoption asks for the removal of every file that it wrote.
pub proof fn law_failed_adoption_withdraws(
    l: Seq<IoEvent>,
    i: int,
    paths: PairView,
    marker: MarkerView,
    checksums: Seq<u8>,
    signature: Seq<u8>,
    written: Seq<u8>,
    bytes: Seq<u8>,
)
    requires
        position(l, i),
        adopt_files_at(l, i, paths, marker, checksums, signature).0 is Err,
        adopt_files_at(l, i, paths, marker, checksums, signature).1 != -1,
        was_written(
            l,
            i,
            adopt_files_at(l, i, paths, marker, checksums, signature).1,
            written,
            bytes,
        ),
    ensures
        removal_asked(
            l,
            i,
            adopt_files_at(l, i, paths, marker, checksums, signature).1,
            written,
        ),
{
    let manifest = manifest_at(paths.primary);
    let detached = signature_at(paths.primary);
    let owner = marker_at(paths.primary);
    let end = adopt_files_at(l, i, paths, marker, checksums, signature).1;
    reveal_with_fuel(withdraw_at, 4);
    reveal_with_fuel(protect_at, 4);
    assert(seq![manifest].skip(1) =~= Seq::<Seq<u8>>::empty());
    assert(seq![manifest, detached].skip(1) =~= seq![detached]);
    assert(seq![detached].skip(1) =~= Seq::<Seq<u8>>::empty());
    assert(seq![manifest, detached, owner].skip(1) =~= seq![detached, owner]);
    assert(seq![detached, owner].skip(1) =~= seq![owner]);
    assert(seq![owner].skip(1) =~= Seq::<Seq<u8>>::empty());
    let k = choose|k: int|
        i <= k < end && #[trigger] wrote(l[k], written, bytes);
    let (r, a) = write_file_at(l, i, manifest, checksums);
    let (s, b) = write_file_at(l, a, detached, signature);
    let (u, c) = write_file_at(l, b, owner, utf8(marker_json(marker)));
    if r is Err {
        assert(end == i + 1);
    } else if s is Err {
        assert(end == b + 1 && k == i);
        lemma_removed(l, i, end, b, manifest);
    } else if u is Err {
        assert(end == c + 2 && (k == i || k == a));
        lemma_removed(l, i, end, c, manifest);
        lemma_removed(l, i, end, c + 1, detached);
    } else {
        let (v, d) = protect_at(l, c, seq![manifest, detached, owner]);
        assert(end == d + 3 && (k == i || k == a || k == b));
        lemma_removed(l, i, end, d, manifest);
        lemma_removed(l, i, end, d + 1, detached);
        lemma_removed(l, i, end, d + 2, owner);
    }
}

proof fn lemma_removed(l: Seq<IoEvent>, i: int, j: int, k: int, path: Seq<u8>)
    requires
        i <= k < j <= l.len(),
        0 <= i,
        remove_file_at(l, k, path).1 != -1,
    ensures
        removal_asked(l, i, j, path),
{
    assert(removes(l[k], path));
}

} // verus!
