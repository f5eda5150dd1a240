//! What holds of every update.
use crate::update::activation::{activate_at, arm_at, stage_at, swap_at, undo_at, write_stages_at};
use crate::update::adoption::{adopt_files_at, protect_at, withdraw_at};
use crate::update::cargo::{
    capture_backup_at, install_at, record_found_at, restore_backup_at, restore_binary_at,
    restore_records_at, shared_records_at, BackupView,
};
use crate::update::discover::{
    cargo_owned_at, cargo_place, discover_at, in_cellar, install_root_at, marker_proves_at,
    read_marker_at, resolve_at, unchanged_at,
};
use crate::update::io::{is_file_at, read_file_at, release_lock_at, IoEvent};
use crate::update::marker::{manifest_at, marker_at, signature_at};
use crate::update::model::{
    pair_of, CommandView, FailureView, Installer, IoErrorView, MarkerView, MetadataView, PairView,
    ReleaseView, ResultView,
};
use crate::update::records::{read_records_at, record_present_at};
use crate::update::service::{
    adopt_at, adoptable_at, cargo_checked_at, cargo_locked_at, cargo_update_at, homebrew_refusal,
    local_material_at, pair_present_at, prepared_at, proves_standalone_at, run_at,
    sidecar_exists_at, sidecars_present_at, standalone_locked_at, standalone_update_at,
    take_lock_at, unknown_refusal, At, RequestView, Trace,
};
use crate::update::sidecars::{
    begun, capture_sidecars_at, replace_sidecar_at, replace_sidecars_at, replace_sidecars_from,
    restore_sidecar_at, restore_sidecars_from, SidecarView,
};
use crate::update::transaction::{
    capture_pair_at, clear_backups_at, clear_stages_at, move_aside_at, move_in_at, roll_back_at,
    snapshot_at, verify_binaries_at, PairState,
};
use vstd::prelude::*;

verus! {

// ---------------------------------------------------------------------------
// Kinds of events
// ---------------------------------------------------------------------------

/// A call that only looks.
pub open spec fn reading(e: IoEvent) -> bool {
    match e {
        IoEvent::CargoHome(_) => true,
        IoEvent::CargoInstallRoot(_) => true,
        IoEvent::EffectiveUser(_) => true,
        IoEvent::Canonicalize(_, _) => true,
        IoEvent::IsFile(_, _) => true,
        IoEvent::PathExists(_, _) => true,
        IoEvent::ReadFile(_, _) => true,
        IoEvent::ReadString(_, _) => true,
        IoEvent::CommandAvailable(_, _) => true,
        _ => false,
    }
}

/// A call about the lock.
pub open spec fn locking(e: IoEvent) -> bool {
    e is AcquireLock || e is ReleaseLock
}

/// From `i` to `j` the log holds looking calls only. A lost position stays
/// lost.
pub open spec fn reads(l: Seq<IoEvent>, i: int, j: int) -> bool {
    ||| j == -1
    ||| 0 <= i <= j <= l.len() && forall|k: int| i <= k < j ==> reading(#[trigger] l[k])
}

/// From `i` to `j` the log holds no call about the lock.
pub open spec fn lockless(l: Seq<IoEvent>, i: int, j: int) -> bool {
    ||| j == -1
    ||| 0 <= i <= j <= l.len() && forall|k: int| i <= k < j ==> !locking(#[trigger] l[k])
}

/// A position in a log, or a lost one.
pub open spec fn position(l: Seq<IoEvent>, i: int) -> bool {
    i == -1 || 0 <= i <= l.len()
}

// ---------------------------------------------------------------------------
// What only looks
// ---------------------------------------------------------------------------

proof fn lemma_records_read(l: Seq<IoEvent>, i: int, root: Seq<u8>)
    requires
        position(l, i),
    ensures
        reads(l, i, read_records_at(l, i, root).1),
{
    reveal(read_records_at);
}

/// Telling whether Cargo owns an executable only looks.
pub proof fn lemma_cargo_owned_reads(
    l: Seq<IoEvent>,
    i: int,
    executable: Seq<u8>,
    resolved: Seq<u8>,
    host: Seq<char>,
)
    requires
        position(l, i),
    ensures
        reads(l, i, cargo_owned_at(l, i, executable, resolved, host).1),
{
    reveal(cargo_owned_at);
    let (root, a) = install_root_at(l, i);
    assert(reads(l, i, a));
    if let Some(root) = root {
        let (expected, b) = resolve_at(l, a, cargo_place(root, executable));
        assert(reads(l, a, b));
        reveal(record_present_at);
    }
}

/// Discovery only looks.
pub proof fn lemma_discover_reads(l: Seq<IoEvent>, i: int, paths: PairView, host: Seq<char>)
    requires
        position(l, i),
    ensures
        reads(l, i, discover_at(l, i, paths, host).1),
{
    reveal(discover_at);
    let (resolved, j) = resolve_at(l, i, paths.primary);
    assert(reads(l, i, j));
    if !in_cellar(resolved) {
        let (cargo, k) = cargo_owned_at(l, j, paths.primary, resolved, host);
        lemma_cargo_owned_reads(l, j, paths.primary, resolved, host);
        assert(reads(l, i, k));
        if !cargo {
            let (marker, m) = read_marker_at(l, k, paths.primary);
            assert(reads(l, k, m));
            if let Some(marker) = marker {
                lemma_marker_reads(l, m, marker, paths);
            }
        }
    }
}

/// Weighing a marker only looks.
pub proof fn lemma_marker_reads(l: Seq<IoEvent>, i: int, marker: MarkerView, paths: PairView)
    requires
        position(l, i),
    ensures
        reads(l, i, marker_proves_at(l, i, marker, paths).1),
{
}

proof fn lemma_unchanged_reads(
    l: Seq<IoEvent>,
    i: int,
    paths: PairView,
    marker: MarkerView,
    checksums: Seq<u8>,
    signature: Seq<u8>,
)
    requires
        position(l, i),
    ensures
        reads(l, i, unchanged_at(l, i, paths, marker, checksums, signature).1),
{
    reveal(unchanged_at);
    let (current, a) = read_marker_at(l, i, paths.primary);
    if let Some(current) = current {
        let (manifest, b) = read_file_at(l, a, manifest_at(paths.primary));
        let (detached, c) = read_file_at(l, b, signature_at(paths.primary));
        lemma_marker_reads(l, c, current, paths);
    }
}

proof fn lemma_cargo_checked_reads(
    l: Seq<IoEvent>,
    i: int,
    host: Seq<char>,
    current: Seq<char>,
    paths: PairView,
)
    requires
        position(l, i),
    ensures
        reads(l, i, cargo_checked_at(l, i, host, current, paths).1),
{
    let (root, a) = install_root_at(l, i);
    assert(reads(l, i, a));
    if let Some(root) = root {
        let (primary, b) = resolve_at(l, a, paths.primary);
        let (expected, c) = resolve_at(l, b, cargo_place(root, paths.primary));
        assert(reads(l, i, c));
        reveal(record_present_at);
    }
}

proof fn lemma_local_material_reads(
    l: Seq<IoEvent>,
    i: int,
    host: Seq<char>,
    current: Seq<char>,
    paths: PairView,
)
    requires
        position(l, i),
    ensures
        reads(l, i, local_material_at(l, i, host, current, paths).1),
{
    let (present, a) = sidecars_present_at(l, i, paths.primary);
    assert(reads(l, i, a));
    let (marker, b) = read_marker_at(l, a, paths.primary);
    assert(reads(l, a, b));
}

/// Proving a loose pair only looks.
pub proof fn lemma_proves_standalone_reads(
    t: Trace,
    c: At,
    host: Seq<char>,
    current: Seq<char>,
    paths: PairView,
)
    requires
        position(t.io, c.io),
    ensures
        reads(t.io, c.io, proves_standalone_at(t, c, host, current, paths).1.io),
{
    let (present, i) = pair_present_at(t.io, c.io, paths);
    assert(reads(t.io, c.io, i));
}

/// A request that only checks makes looking calls only: it neither writes, nor
/// runs anything, nor takes the lock.
pub proof fn law_check_only_looks(t: Trace, c: At, host: Seq<char>, request: RequestView)
    requires
        request.check,
        position(t.io, c.io),
    ensures
        reads(t.io, c.io, run_at(t, c, host, request).1.io),
{
    lemma_discover_reads(t.io, c.io, pair_of(request.executable), host);
}

/// What Homebrew owns is left alone: the update is refused with the command to
/// run instead, after looking calls only, and no release is looked up.
pub proof fn law_homebrew_is_left_alone(t: Trace, c: At, host: Seq<char>, request: RequestView)
    requires
        position(t.io, c.io),
        !request.check,
        !request.adopt,
        discover_at(t.io, c.io, pair_of(request.executable), host).0 == Installer::Homebrew,
    ensures
        run_at(t, c, host, request).0 == Err::<ResultView, FailureView>(
            homebrew_refusal(pair_of(request.executable)),
        ),
        reads(t.io, c.io, run_at(t, c, host, request).1.io),
        run_at(t, c, host, request).1.provider == c.provider,
        run_at(t, c, host, request).1.verifier == c.verifier,
{
    lemma_discover_reads(t.io, c.io, pair_of(request.executable), host);
}

/// What nobody known owns is left alone unless its adoption was asked for.
pub proof fn law_unknown_is_left_alone(t: Trace, c: At, host: Seq<char>, request: RequestView)
    requires
        position(t.io, c.io),
        !request.check,
        !request.adopt,
        discover_at(t.io, c.io, pair_of(request.executable), host).0 == Installer::Unknown,
    ensures
        run_at(t, c, host, request).0 == Err::<ResultView, FailureView>(
            unknown_refusal(pair_of(request.executable)),
        ),
        reads(t.io, c.io, run_at(t, c, host, request).1.io),
        run_at(t, c, host, request).1.provider == c.provider,
        run_at(t, c, host, request).1.verifier == c.verifier,
{
    lemma_discover_reads(t.io, c.io, pair_of(request.executable), host);
}

/// What a known manager owns is not adopted: asking for it is refused, after
/// looking calls only, and no release is looked up.
pub proof fn law_owned_installation_is_not_adopted(
    t: Trace,
    c: At,
    host: Seq<char>,
    request: RequestView,
)
    requires
        position(t.io, c.io),
        !request.check,
        request.adopt,
        discover_at(t.io, c.io, pair_of(request.executable), host).0 != Installer::Unknown,
    ensures
        run_at(t, c, host, request).0 matches Err(failure) && failure.code
            == "adopt_known_manager"@ && failure.installer == Some(
            discover_at(t.io, c.io, pair_of(request.executable), host).0,
        ) && !failure.applied && !failure.changed,
        reads(t.io, c.io, run_at(t, c, host, request).1.io),
        run_at(t, c, host, request).1.provider == c.provider,
        run_at(t, c, host, request).1.verifier == c.verifier,
{
    lemma_discover_reads(t.io, c.io, pair_of(request.executable), host);
}

// ---------------------------------------------------------------------------
// The lock
// ---------------------------------------------------------------------------

/// From `i` to `j` the lock was asked for once, at `a`, and not had; all else
/// only looked.
pub open spec fn lock_refused(l: Seq<IoEvent>, i: int, j: int, a: int) -> bool {
    &&& i <= a < j
    &&& l[a] matches IoEvent::AcquireLock(_, r) && r is Err
    &&& forall|k: int| i <= k < j && k != a ==> reading(#[trigger] l[k])
}

/// From `i` to `j` the lock was taken once, at `a`, and the same lock given
/// back once, at `b`; before and after that all calls only looked.
pub open spec fn lock_held(l: Seq<IoEvent>, i: int, j: int, a: int, b: int) -> bool {
    &&& i <= a < b < j
    &&& match (l[a], l[b]) {
        (IoEvent::AcquireLock(taken, r), IoEvent::ReleaseLock(given, _)) => r is Ok && given
            == taken,
        _ => false,
    }
    &&& forall|k: int| i <= k < a || b < k < j ==> reading(#[trigger] l[k])
    &&& forall|k: int| a < k < b ==> !locking(#[trigger] l[k])
}

/// From `i` to `j` the lock is kept: it is not asked for, or not had, or held
/// once.
pub open spec fn lock_kept(l: Seq<IoEvent>, i: int, j: int) -> bool {
    ||| j == -1
    ||| 0 <= i <= j <= l.len() && (reads(l, i, j) || (exists|a: int| lock_refused(l, i, j, a)) || (
    exists|a: int, b: int| lock_held(l, i, j, a, b)))
}

// --- what makes no call about the lock -------------------------------------

proof fn lemma_verify_lockless(l: Seq<IoEvent>, i: int, paths: PairView, version: Seq<char>)
    requires
        position(l, i),
    ensures
        lockless(l, i, verify_binaries_at(l, i, paths, version).1),
{
}

proof fn lemma_clear_lockless(l: Seq<IoEvent>, i: int, t: PairState)
    requires
        position(l, i),
    ensures
        lockless(l, i, clear_stages_at(l, i, t).1),
        lockless(l, i, clear_backups_at(l, i, t).1),
{
}

proof fn lemma_roll_back_lockless(l: Seq<IoEvent>, i: int, t: PairState)
    requires
        position(l, i),
    ensures
        lockless(l, i, roll_back_at(l, i, t).1),
{
}

proof fn lemma_restore_sidecars_lockless(
    l: Seq<IoEvent>,
    i: int,
    files: Seq<SidecarView>,
    k: int,
    problems: Seq<Seq<char>>,
)
    requires
        position(l, i),
    ensures
        lockless(l, i, restore_sidecars_from(l, i, files, k, problems).1),
    decreases files.len() - k,
{
    if 0 <= k < files.len() {
        let (next, j) = restore_sidecar_at(l, i, files[k], problems);
        assert(lockless(l, i, j));
        lemma_restore_sidecars_lockless(l, j, files, k + 1, next);
    }
}

proof fn lemma_replace_sidecars_lockless(l: Seq<IoEvent>, i: int, files: Seq<SidecarView>, k: int)
    requires
        position(l, i),
    ensures
        lockless(l, i, replace_sidecars_from(l, i, files, k).2),
    decreases files.len() - k,
{
    if 0 <= k < files.len() {
        let marked = files.update(k, begun(files[k]));
        let (r, j) = replace_sidecar_at(l, i, files[k]);
        assert(lockless(l, i, j));
        if r is Err {
            lemma_restore_sidecars_lockless(l, j, marked, 0, Seq::empty());
        } else {
            lemma_replace_sidecars_lockless(l, j, marked, k + 1);
        }
    }
}

proof fn lemma_stage_lockless(l: Seq<IoEvent>, i: int, t: PairState, release: ReleaseView)
    requires
        position(l, i),
    ensures
        lockless(l, i, stage_at(l, i, t, release).1),
{
    reveal(stage_at);
    let (present, a) = is_file_at(l, i, t.paths.primary);
    let (present, b) = if present {
        is_file_at(l, a, t.paths.secondary)
    } else {
        (false, a)
    };
    assert(lockless(l, i, b));
    let (r, c) = write_stages_at(l, b, t, release);
    assert(lockless(l, b, c));
    lemma_arm_lockless(l, c, t, t.stage.primary);
    let (r, d) = arm_at(l, c, t, t.stage.primary);
    lemma_arm_lockless(l, d, t, t.stage.secondary);
    let (r, e) = arm_at(l, d, t, t.stage.secondary);
    lemma_verify_lockless(l, e, t.stage, t.version);
    let (r, f) = verify_binaries_at(l, e, t.stage, t.version);
    lemma_clear_lockless(l, f, t);
}

proof fn lemma_arm_lockless(l: Seq<IoEvent>, i: int, t: PairState, stage: Seq<u8>)
    requires
        position(l, i),
    ensures
        lockless(l, i, arm_at(l, i, t, stage).1),
{
    let (r, j) = crate::update::io::set_executable_at(l, i, stage);
    assert(lockless(l, i, j));
    lemma_clear_lockless(l, j, t);
}

proof fn lemma_undo_lockless(
    l: Seq<IoEvent>,
    i: int,
    t: PairState,
    files: Seq<SidecarView>,
    failure: FailureView,
)
    requires
        position(l, i),
    ensures
        lockless(l, i, undo_at(l, i, t, files, failure).1),
{
    lemma_roll_back_lockless(l, i, t);
    let (r, j) = roll_back_at(l, i, t);
    lemma_restore_sidecars_lockless(l, j, files, 0, Seq::empty());
}

proof fn lemma_moves_lockless(l: Seq<IoEvent>, i: int, t: PairState)
    requires
        position(l, i),
    ensures
        lockless(l, i, move_aside_at(l, i, t).2),
        lockless(l, i, move_in_at(l, i, t).2),
{
}

/// A swap makes no call about the lock.
pub proof fn lemma_swap_lockless(
    l: Seq<IoEvent>,
    i: int,
    t: PairState,
    files: Seq<SidecarView>,
    result: ResultView,
)
    requires
        position(l, i),
    ensures
        lockless(l, i, swap_at(l, i, t, files, result).1),
{
    reveal(swap_at);
    lemma_moves_lockless(l, i, t);
    let (r, t1, a) = move_aside_at(l, i, t);
    assert forall|f: FailureView| lockless(l, a, #[trigger] undo_at(l, a, t1, files, f).1) by {
        lemma_undo_lockless(l, a, t1, files, f);
    }
    lemma_moves_lockless(l, a, t1);
    let (r, t2, b) = move_in_at(l, a, t1);
    assert forall|f: FailureView| lockless(l, b, #[trigger] undo_at(l, b, t2, files, f).1) by {
        lemma_undo_lockless(l, b, t2, files, f);
    }
    lemma_verify_lockless(l, b, t2.paths, t2.version);
    let (r, c) = verify_binaries_at(l, b, t2.paths, t2.version);
    assert forall|f: FailureView| lockless(l, c, #[trigger] undo_at(l, c, t2, files, f).1) by {
        lemma_undo_lockless(l, c, t2, files, f);
    }
    lemma_clear_lockless(l, c, t2);
}

/// An activation makes no call about the lock.
pub proof fn lemma_activate_lockless(
    l: Seq<IoEvent>,
    i: int,
    host: Seq<char>,
    t: PairState,
    release: ReleaseView,
    trust: (Seq<u8>, Seq<u8>),
    result: ResultView,
)
    requires
        position(l, i),
    ensures
        lockless(l, i, activate_at(l, i, host, t, release, trust, result).1),
{
    reveal(activate_at);
    reveal(stage_at);
    lemma_stage_lockless(l, i, t, release);
    let (r, a) = stage_at(l, i, t, release);
    let (aux, b) = capture_sidecars_at(l, a, t.paths, t.version, host, release, trust);
    assert(lockless(l, a, b));
    if let Ok(files) = aux {
        lemma_replace_sidecars_lockless(l, b, files, 0);
        let (r, files, c) = replace_sidecars_at(l, b, files);
        lemma_clear_lockless(l, c, t);
        lemma_swap_lockless(l, c, t, files, result);
    }
}

proof fn lemma_restore_backup_lockless(l: Seq<IoEvent>, i: int, backup: BackupView)
    requires
        position(l, i),
    ensures
        lockless(l, i, restore_backup_at(l, i, backup).1),
{
    reveal(restore_backup_at);
    let (r, a) = restore_binary_at(l, i, backup.paths.primary, backup.primary);
    let (r, b) = restore_binary_at(l, a, backup.paths.secondary, backup.secondary);
    assert(lockless(l, i, b));
    let (now, c) = shared_records_at(l, b, backup.root);
    assert(lockless(l, b, c));
    assert(lockless(l, c, restore_records_at(l, c, backup).1));
}

pub proof fn lemma_cargo_locked_lockless(
    l: Seq<IoEvent>,
    i: int,
    host: Seq<char>,
    current: Seq<char>,
    paths: PairView,
    root: Seq<u8>,
    command: CommandView,
    version: Seq<char>,
    result: ResultView,
)
    requires
        position(l, i),
    ensures
        lockless(
            l,
            i,
            cargo_locked_at(l, i, host, current, paths, root, command, version, result).1,
        ),
{
    reveal(record_present_at);
    reveal(read_records_at);
    reveal(capture_backup_at);
    reveal(install_at);
    lemma_discover_reads(l, i, paths, host);
    let (owner, a) = discover_at(l, i, paths, host);
    let (proven, b) = record_present_at(l, a, root, Some(current), host);
    assert(lockless(l, i, b));
    let (backup, c) = capture_backup_at(l, b, paths, root);
    assert(lockless(l, b, c)) by {
        let (found, d) = record_found_at(l, b, root);
        let (primary, e) = snapshot_at(l, d, paths.primary);
        let (secondary, f) = snapshot_at(l, e, paths.secondary);
        assert(lockless(l, b, f));
        lemma_records_read(l, f, root);
    }
    if let Ok(backup) = backup {
        let (r, d) = install_at(l, c, command, paths, version, result);
        assert(lockless(l, c, d)) by {
            let (ran, e) = crate::update::io::run_at(
                l,
                c,
                crate::text::utf8(command.program),
                command.args,
            );
            assert(lockless(l, c, e));
            lemma_verify_lockless(l, e, paths, version);
        }
        lemma_restore_backup_lockless(l, d, backup);
    }
}

pub proof fn lemma_prepared_reads(
    t: Trace,
    c: At,
    host: Seq<char>,
    paths: PairView,
    local: (MarkerView, Seq<u8>, Seq<u8>),
    metadata: MetadataView,
)
    requires
        position(t.io, c.io),
    ensures
        reads(t.io, c.io, prepared_at(t, c, host, paths, local, metadata).1.io),
{
    lemma_discover_reads(t.io, c.io, paths, host);
    let (owner, i) = discover_at(t.io, c.io, paths, host);
    lemma_unchanged_reads(t.io, i, paths, local.0, local.1, local.2);
}

proof fn lemma_standalone_locked_lockless(
    t: Trace,
    c: At,
    host: Seq<char>,
    paths: PairView,
    local: (MarkerView, Seq<u8>, Seq<u8>),
    metadata: MetadataView,
    result: ResultView,
)
    requires
        position(t.io, c.io),
    ensures
        lockless(
            t.io,
            c.io,
            standalone_locked_at(t, c, host, paths, local, metadata, result).1.io,
        ),
{
    lemma_prepared_reads(t, c, host, paths, local, metadata);
    let (prepared, c1) = prepared_at(t, c, host, paths, local, metadata);
    assert(lockless(t.io, c.io, c1.io));
    if let Ok((release, trust)) = prepared {
        let (pair, i) = capture_pair_at(t.io, c1.io, paths, metadata.version);
        assert(lockless(t.io, c1.io, i));
        if let Ok(pair) = pair {
            lemma_activate_lockless(t.io, i, host, pair, release, trust, result);
        }
    }
}

proof fn lemma_withdraw_lockless(l: Seq<IoEvent>, i: int, files: Seq<Seq<u8>>)
    requires
        position(l, i),
    ensures
        lockless(l, i, withdraw_at(l, i, files)),
        lockless(l, i, protect_at(l, i, files).1),
    decreases files.len(),
{
    if files.len() > 0 {
        let (_, a) = crate::update::io::remove_file_at(l, i, files[0]);
        assert(lockless(l, i, a));
        lemma_withdraw_lockless(l, a, files.skip(1));
        let (_, b) = crate::update::io::set_owner_only_at(l, i, files[0]);
        assert(lockless(l, i, b));
        lemma_withdraw_lockless(l, b, files.skip(1));
    }
}

proof fn lemma_adopt_files_lockless(
    l: Seq<IoEvent>,
    i: int,
    paths: PairView,
    marker: MarkerView,
    checksums: Seq<u8>,
    signature: Seq<u8>,
)
    requires
        position(l, i),
    ensures
        lockless(l, i, adopt_files_at(l, i, paths, marker, checksums, signature).1),
{
    let manifest = manifest_at(paths.primary);
    let detached = signature_at(paths.primary);
    let owner = marker_at(paths.primary);
    let text = crate::text::utf8(crate::update::marker::marker_json(marker));
    let (r, a) = crate::update::io::write_file_at(l, i, manifest, checksums);
    let (r, b) = crate::update::io::write_file_at(l, a, detached, signature);
    let (r, c) = crate::update::io::write_file_at(l, b, owner, text);
    assert(lockless(l, i, a) && lockless(l, a, b) && lockless(l, b, c));
    lemma_withdraw_lockless(l, b, seq![manifest]);
    lemma_withdraw_lockless(l, c, seq![manifest, detached]);
    lemma_withdraw_lockless(l, c, seq![manifest, detached, owner]);
    let (r, d) = protect_at(l, c, seq![manifest, detached, owner]);
    lemma_withdraw_lockless(l, d, seq![manifest, detached, owner]);
}

// --- the lock is kept ------------------------------------------------------

/// From the lock on: what is done under it, then giving it back.
proof fn lemma_locked_section(l: Seq<IoEvent>, i: int, a: int, b: int, lock: Seq<u8>)
    requires
        position(l, i),
        take_lock_at(l, i) == (Ok::<Seq<u8>, IoErrorView>(lock), a),
        lockless(l, a, b),
        release_lock_at(l, b, lock).1 != -1,
    ensures
        lock_kept(l, i, release_lock_at(l, b, lock).1),
{
    assert(b != -1 && a != -1 && i != -1);
    assert(a == i + 2);
    assert(lock_held(l, i, b + 1, i + 1, b));
}

/// A lock that is not had.
proof fn lemma_lock_refused(l: Seq<IoEvent>, i: int)
    requires
        position(l, i),
        take_lock_at(l, i).0 is Err,
        take_lock_at(l, i).1 != -1,
    ensures
        lock_kept(l, i, take_lock_at(l, i).1),
{
    assert(take_lock_at(l, i).1 == i + 2);
    assert(lock_refused(l, i, i + 2, i + 1));
}

proof fn lemma_kept_after_reads(l: Seq<IoEvent>, i: int, j: int, k: int)
    requires
        reads(l, i, j),
        lock_kept(l, j, k),
    ensures
        lock_kept(l, i, k),
{
    if k != -1 && !reads(l, j, k) {
        if exists|a: int| lock_refused(l, j, k, a) {
            let a = choose|a: int| lock_refused(l, j, k, a);
            assert(lock_refused(l, i, k, a));
        } else {
            let (a, b) = choose|a: int, b: int| lock_held(l, j, k, a, b);
            assert(lock_held(l, i, k, a, b));
        }
    }
}

proof fn lemma_reads_keep(l: Seq<IoEvent>, i: int, j: int)
    requires
        reads(l, i, j),
    ensures
        lock_kept(l, i, j),
{
}

proof fn lemma_cargo_update_keeps(
    l: Seq<IoEvent>,
    i: int,
    host: Seq<char>,
    current: Seq<char>,
    paths: PairView,
    root: Seq<u8>,
    version: Seq<char>,
    result: ResultView,
)
    requires
        position(l, i),
    ensures
        lock_kept(
            l,
            i,
            cargo_update_at(l, i, host, current, paths, root, version, result).1,
        ),
{
    let (binstall, a) = crate::update::io::command_available_at(l, i, "cargo-binstall"@);
    assert(reads(l, i, a));
    let command = crate::update::service::cargo_command(binstall, version, root);
    let (lock, b) = take_lock_at(l, a);
    let end = cargo_update_at(l, i, host, current, paths, root, version, result).1;
    if end != -1 {
        match lock {
            Err(_) => {
                lemma_lock_refused(l, a);
            },
            Ok(lock) => {
                lemma_cargo_locked_lockless(
                    l,
                    b,
                    host,
                    current,
                    paths,
                    root,
                    command,
                    version,
                    result,
                );
                let (r, c) = cargo_locked_at(
                    l,
                    b,
                    host,
                    current,
                    paths,
                    root,
                    command,
                    version,
                    result,
                );
                lemma_locked_section(l, a, b, c, lock);
            },
        }
        lemma_kept_after_reads(l, i, a, end);
    }
}

proof fn lemma_standalone_update_keeps(
    t: Trace,
    c: At,
    host: Seq<char>,
    paths: PairView,
    local: (MarkerView, Seq<u8>, Seq<u8>),
    metadata: MetadataView,
    result: ResultView,
)
    requires
        position(t.io, c.io),
    ensures
        lock_kept(
            t.io,
            c.io,
            standalone_update_at(t, c, host, paths, local, metadata, result).1.io,
        ),
{
    let end = standalone_update_at(t, c, host, paths, local, metadata, result).1.io;
    let (lock, b) = take_lock_at(t.io, c.io);
    if crate::text::stripped(metadata.archive_sha256).len() == 0 || !metadata.signature_verified {
        lemma_reads_keep(t.io, c.io, c.io);
    } else if end != -1 {
        match lock {
            Err(_) => {
                lemma_lock_refused(t.io, c.io);
            },
            Ok(lock) => {
                let c1 = c.io_at(b);
                lemma_standalone_locked_lockless(t, c1, host, paths, local, metadata, result);
                let (r, c2) = standalone_locked_at(t, c1, host, paths, local, metadata, result);
                lemma_locked_section(t.io, c.io, b, c2.io, lock);
            },
        }
    }
}

proof fn lemma_adopt_keeps(
    t: Trace,
    c: At,
    host: Seq<char>,
    request: RequestView,
    paths: PairView,
)
    requires
        position(t.io, c.io),
    ensures
        lock_kept(t.io, c.io, adopt_at(t, c, host, request, paths).1.io),
{
    let current = request.current_version;
    let (conflict, i) = sidecar_exists_at(t.io, c.io, paths.primary);
    assert(reads(t.io, c.io, i));
    let c1 = c.io_at(i);
    lemma_proves_standalone_reads(t, c1, host, current, paths);
    let (proven, c2) = proves_standalone_at(t, c1, host, current, paths);
    let end = adopt_at(t, c, host, request, paths).1.io;
    if conflict {
        lemma_reads_keep(t.io, c.io, i);
    } else if !proven {
        lemma_reads_keep(t.io, c.io, c2.io);
    } else if end != -1 {
        let (lock, b) = take_lock_at(t.io, c2.io);
        let c3 = c2.io_at(b);
        match lock {
            Err(_) => {
                lemma_lock_refused(t.io, c2.io);
            },
            Ok(lock) => {
                let (ready, c4) = adoptable_at(t, c3, host, current, paths);
                assert(reads(t.io, c3.io, c4.io)) by {
                    lemma_discover_reads(t.io, c3.io, paths, host);
                    let (owner, a) = discover_at(t.io, c3.io, paths, host);
                    let c5 = c3.io_at(a);
                    lemma_proves_standalone_reads(t, c5, host, current, paths);
                }
                match ready {
                    Err(_) => {
                        assert(lockless(t.io, b, c4.io));
                        lemma_locked_section(t.io, c2.io, b, c4.io, lock);
                    },
                    Ok((marker, trust)) => {
                        lemma_adopt_files_lockless(
                            t.io,
                            c4.io,
                            paths,
                            marker,
                            trust.0,
                            trust.1,
                        );
                        let (r, d) = adopt_files_at(
                            t.io,
                            c4.io,
                            paths,
                            marker,
                            trust.0,
                            trust.1,
                        );
                        assert(lockless(t.io, b, d));
                        lemma_locked_section(t.io, c2.io, b, d, lock);
                    },
                }
            },
        }
        lemma_kept_after_reads(t.io, i, c2.io, end);
        lemma_kept_after_reads(t.io, c.io, i, end);
    }
}

/// Whatever is asked for and whatever the machine answers: the lock is asked
/// for at most once. Where it is had, the same lock is given back, once, before
/// the update ends, and files are changed and programs are run only in between.
/// Where it is not had, and where it is not asked for, none of that happens.
pub proof fn law_lock_is_kept(t: Trace, c: At, host: Seq<char>, request: RequestView)
    requires
        position(t.io, c.io),
    ensures
        lock_kept(t.io, c.io, run_at(t, c, host, request).1.io),
{
    let paths = pair_of(request.executable);
    let current = request.current_version;
    lemma_discover_reads(t.io, c.io, paths, host);
    let (installer, i) = discover_at(t.io, c.io, paths, host);
    let c1 = c.io_at(i);
    let end = run_at(t, c, host, request).1.io;
    assert(lock_kept(t.io, i, end)) by {
        lemma_reads_keep(t.io, i, i);
        if request.check || (request.adopt && installer != Installer::Unknown) {
        } else {
            match installer {
                Installer::Cargo => {
                    lemma_cargo_checked_reads(t.io, i, host, current, paths);
                    let (root, a) = cargo_checked_at(t.io, i, host, current, paths);
                    lemma_reads_keep(t.io, i, a);
                    if let Ok(root) = root {
                        assert forall|version: Seq<char>, result: ResultView|
                            lock_kept(
                                t.io,
                                i,
                                #[trigger] cargo_update_at(
                                    t.io,
                                    a,
                                    host,
                                    current,
                                    paths,
                                    root,
                                    version,
                                    result,
                                ).1,
                            ) by {
                            lemma_cargo_update_keeps(
                                t.io,
                                a,
                                host,
                                current,
                                paths,
                                root,
                                version,
                                result,
                            );
                            lemma_kept_after_reads(
                                t.io,
                                i,
                                a,
                                cargo_update_at(
                                    t.io,
                                    a,
                                    host,
                                    current,
                                    paths,
                                    root,
                                    version,
                                    result,
                                ).1,
                            );
                        }
                    }
                },
                Installer::Standalone => {
                    lemma_local_material_reads(t.io, i, host, current, paths);
                    let (local, a) = local_material_at(t.io, i, host, current, paths);
                    lemma_reads_keep(t.io, i, a);
                    if let Ok(local) = local {
                        assert forall|c2: At, metadata: MetadataView, result: ResultView|
                            c2.io == a implies lock_kept(
                            t.io,
                            i,
                            #[trigger] standalone_update_at(
                                t,
                                c2,
                                host,
                                paths,
                                local,
                                metadata,
                                result,
                            ).1.io,
                        ) by {
                            lemma_standalone_update_keeps(
                                t,
                                c2,
                                host,
                                paths,
                                local,
                                metadata,
                                result,
                            );
                            lemma_kept_after_reads(
                                t.io,
                                i,
                                a,
                                standalone_update_at(
                                    t,
                                    c2,
                                    host,
                                    paths,
                                    local,
                                    metadata,
                                    result,
                                ).1.io,
                            );
                        }
                    }
                },
                Installer::Unknown => {
                    lemma_adopt_keeps(t, c1, host, request, paths);
                },
                Installer::Homebrew => {},
            }
        }
    }
    lemma_kept_after_reads(t.io, c.io, i, end);
}

} // verus!
