//! What a failed standalone update leaves of the installed executables.
use crate::update::activation::{activate_at, stage_at, swap_at, undo_at};
use crate::update::guarantees::{
    keeps_to_stage, law_clean_rollback_restores_the_pair, law_staging_leaves_the_installation_alone,
    lemma_restore_moves_on, only_stage,
};
use crate::update::io::IoEvent;
use crate::update::laws::{lemma_activate_lockless, lemma_swap_lockless, position, reading, reads};
use crate::update::marker::{manifest_at, marker_at, signature_at};
use crate::update::model::{FailureView, PairView, ReleaseView, ResultView};
use crate::update::sidecars::{
    begun, capture_sidecars_at, replace_sidecar_at, replace_sidecars_at, replace_sidecars_from,
    restore_sidecar_at, restore_sidecars_from, SidecarView,
};
use crate::update::transaction::{
    capture_pair_at, clear_stages_at, move_aside_at, move_in_at, roll_back_at, verify_binaries_at,
    PairState,
};
use vstd::prelude::*;

verus! {

// ---------------------------------------------------------------------------
// What a file holds
// ---------------------------------------------------------------------------

/// A call that names the file at `path` as one it changes or runs.
pub open spec fn touches(e: IoEvent, path: Seq<u8>) -> bool {
    match e {
        IoEvent::Run(program, _, _) => program == path,
        IoEvent::WriteFile(p, _, _) => p == path,
        IoEvent::CreateStagedFile(p, _, _) => p == path,
        IoEvent::SetOwnerOnly(p, _) => p == path,
        IoEvent::SetExecutable(p, _) => p == path,
        IoEvent::Rename(from, to, _) => from == path || to == path,
        IoEvent::RemoveFile(p, _) => p == path,
        IoEvent::AcquireLock(p, _) => p == path,
        IoEvent::ReleaseLock(p, _) => p == path,
        _ => false,
    }
}

/// From `i` to `j`, `held` says what the file at `path` holds at each position
/// of the log: a call that does not name the file leaves it alone, and reading
/// it gives what it holds.
pub open spec fn faithful(
    l: Seq<IoEvent>,
    i: int,
    j: int,
    path: Seq<u8>,
    held: spec_fn(int) -> Option<Seq<u8>>,
) -> bool {
    &&& forall|k: int| i <= k < j && !touches(#[trigger] l[k], path) ==> held(k + 1) == held(k)
    &&& forall|k: int|
        i <= k < j ==> match #[trigger] l[k] {
            IoEvent::ReadFile(p, Ok(bytes)) => p == path ==> held(k) == Some(bytes),
            _ => true,
        }
}

/// From `i` to `j` no call names the file at `path`.
pub open spec fn untouched(l: Seq<IoEvent>, i: int, j: int, path: Seq<u8>) -> bool {
    ||| j == -1
    ||| 0 <= i <= j <= l.len() && forall|k: int| i <= k < j ==> !touches(#[trigger] l[k], path)
}

proof fn lemma_untouched_holds(
    l: Seq<IoEvent>,
    i: int,
    j: int,
    path: Seq<u8>,
    held: spec_fn(int) -> Option<Seq<u8>>,
)
    requires
        0 <= i <= j,
        untouched(l, i, j, path),
        faithful(l, i, j, path, held),
    ensures
        held(j) == held(i),
    decreases j - i,
{
    if i < j {
        assert(!touches(l[j - 1], path));
        assert(untouched(l, i, j - 1, path));
        lemma_untouched_holds(l, i, j - 1, path, held);
        assert(held((j - 1) + 1) == held(j - 1));
    }
}

/// Calls that only look touch no file.
pub proof fn lemma_reads_untouched(l: Seq<IoEvent>, i: int, j: int, path: Seq<u8>)
    requires
        reads(l, i, j),
    ensures
        untouched(l, i, j, path),
{
    if j != -1 {
        assert forall|k: int| i <= k < j implies !touches(#[trigger] l[k], path) by {
            assert(reading(l[k]));
        }
    }
}

proof fn lemma_stage_untouched(l: Seq<IoEvent>, i: int, j: int, t: PairState, path: Seq<u8>)
    requires
        keeps_to_stage(l, i, j, t),
        path != t.stage.primary,
        path != t.stage.secondary,
    ensures
        untouched(l, i, j, path),
{
    if j != -1 {
        assert forall|k: int| i <= k < j implies !touches(#[trigger] l[k], path) by {
            assert(only_stage(t, l[k]));
        }
    }
}

proof fn lemma_untouched_joins(l: Seq<IoEvent>, i: int, j: int, k: int, path: Seq<u8>)
    requires
        untouched(l, i, j, path),
        untouched(l, j, k, path),
    ensures
        untouched(l, i, k, path),
{
}

// ---------------------------------------------------------------------------
// The sidecars
// ---------------------------------------------------------------------------

/// None of the sidecars lies at `path`.
pub open spec fn elsewhere(files: Seq<SidecarView>, path: Seq<u8>) -> bool {
    forall|m: int| 0 <= m < files.len() ==> (#[trigger] files[m]).path != path
}

proof fn lemma_restore_untouched(
    l: Seq<IoEvent>,
    i: int,
    files: Seq<SidecarView>,
    k: int,
    problems: Seq<Seq<char>>,
    path: Seq<u8>,
)
    requires
        position(l, i),
        elsewhere(files, path),
    ensures
        untouched(l, i, restore_sidecars_from(l, i, files, k, problems).1, path),
    decreases files.len() - k,
{
    if 0 <= k < files.len() {
        let (next, j) = restore_sidecar_at(l, i, files[k], problems);
        assert(files[k].path != path);
        assert(untouched(l, i, j, path));
        lemma_restore_untouched(l, j, files, k + 1, next, path);
    }
}

proof fn lemma_replace_untouched(
    l: Seq<IoEvent>,
    i: int,
    files: Seq<SidecarView>,
    k: int,
    path: Seq<u8>,
)
    requires
        position(l, i),
        elsewhere(files, path),
    ensures
        untouched(l, i, replace_sidecars_from(l, i, files, k).2, path),
        elsewhere(replace_sidecars_from(l, i, files, k).1, path),
    decreases files.len() - k,
{
    if 0 <= k < files.len() {
        let marked = files.update(k, begun(files[k]));
        assert(files[k].path != path);
        assert forall|m: int| 0 <= m < marked.len() implies (#[trigger] marked[m]).path != path by {
            assert(files[m].path != path);
        }
        let (r, j) = replace_sidecar_at(l, i, files[k]);
        assert(untouched(l, i, j, path));
        lemma_restore_untouched(l, j, marked, 0, Seq::empty(), path);
        lemma_replace_untouched(l, j, marked, k + 1, path);
    }
}

// ---------------------------------------------------------------------------
// The law
// ---------------------------------------------------------------------------

/// `path` is neither a staged file nor a sidecar.
pub open spec fn is_apart(t: PairState, path: Seq<u8>) -> bool {
    &&& path != t.stage.primary
    &&& path != t.stage.secondary
    &&& path != manifest_at(t.paths.primary)
    &&& path != signature_at(t.paths.primary)
    &&& path != marker_at(t.paths.primary)
}

/// After a rollback without a problem an executable is what it was.
proof fn lemma_undone(
    l: Seq<IoEvent>,
    i: int,
    t: PairState,
    files: Seq<SidecarView>,
    failure: FailureView,
    path: Seq<u8>,
    old: Seq<u8>,
    held: spec_fn(int) -> Option<Seq<u8>>,
)
    requires
        position(l, i),
        undo_at(l, i, t, files, failure).1 != -1,
        failure.rollback is None,
        undo_at(l, i, t, files, failure).0.rollback is None,
        path == t.paths.primary && old == t.old_primary || path == t.paths.secondary && old
            == t.old_secondary,
        is_apart(t, path),
        elsewhere(files, path),
        faithful(l, i, undo_at(l, i, t, files, failure).1, path, held),
    ensures
        held(undo_at(l, i, t, files, failure).1) == Some(old),
{
    let (rollback, j) = roll_back_at(l, i, t);
    let end = undo_at(l, i, t, files, failure).1;
    lemma_restore_untouched(l, j, files, 0, Seq::empty(), path);
    assert(j != -1 && j <= end);
    law_clean_rollback_restores_the_pair(l, i, t);
    assert(untouched(l, j - 4, j, path)) by {
        assert(!touches(l[j - 4], path));
        assert(!touches(l[j - 3], path));
        assert(!touches(l[j - 2], path));
        assert(!touches(l[j - 1], path));
    }
    if path == t.paths.primary && old == t.old_primary {
        assert(l[j - 4] == IoEvent::ReadFile(path, Ok(old)));
        lemma_untouched_joins(l, j - 4, j, end, path);
        lemma_untouched_holds(l, j - 4, end, path, held);
    } else {
        assert(l[j - 3] == IoEvent::ReadFile(path, Ok(old)));
        assert(untouched(l, j - 3, j, path));
        lemma_untouched_joins(l, j - 3, j, end, path);
        lemma_untouched_holds(l, j - 3, end, path, held);
    }
}

/// Undoing goes on in the log.
proof fn lemma_undo_moves_on(
    l: Seq<IoEvent>,
    i: int,
    t: PairState,
    files: Seq<SidecarView>,
    failure: FailureView,
)
    requires
        position(l, i),
    ensures
        undo_at(l, i, t, files, failure).1 == -1 || 0 <= i <= undo_at(l, i, t, files, failure).1
            <= l.len(),
{
    let (rollback, j) = roll_back_at(l, i, t);
    assert(j == -1 || 0 <= i <= j <= l.len());
    lemma_restore_moves_on(l, j, files, 0, Seq::empty());
}

/// A swap that fails without having taken effect, and notes no problem undoing
/// it, leaves an executable what it was.
proof fn lemma_failed_swap(
    l: Seq<IoEvent>,
    i: int,
    t: PairState,
    files: Seq<SidecarView>,
    result: ResultView,
    path: Seq<u8>,
    old: Seq<u8>,
    held: spec_fn(int) -> Option<Seq<u8>>,
)
    requires
        position(l, i),
        swap_at(l, i, t, files, result).1 != -1,
        swap_at(l, i, t, files, result).0 matches Err(failure) && !failure.applied
            && failure.rollback is None,
        path == t.paths.primary && old == t.old_primary || path == t.paths.secondary && old
            == t.old_secondary,
        is_apart(t, path),
        elsewhere(files, path),
        faithful(l, i, swap_at(l, i, t, files, result).1, path, held),
    ensures
        held(swap_at(l, i, t, files, result).1) == Some(old),
{
    reveal(swap_at);
    let end = swap_at(l, i, t, files, result).1;
    let (r, t1, a) = move_aside_at(l, i, t);
    match r {
        Err(error) => {
            let problem = crate::update::activation::standalone_failure(
                "activation_failed"@,
                error.message,
                t1.paths.primary,
            );
            assert(a == -1 || i <= a <= l.len());
            lemma_undo_moves_on(l, a, t1, files, problem);
            lemma_undone(l, a, t1, files, problem, path, old, held);
        },
        Ok(_) => {
            let (r, t2, b) = move_in_at(l, a, t1);
            match r {
                Err(error) => {
                    let problem = crate::update::activation::standalone_failure(
                        "update_rolled_back"@,
                        "activation failed and the previous executable pair was restored: "@
                            + error.message,
                        t2.paths.primary,
                    );
                    assert(b == -1 || i <= b <= l.len());
            lemma_undo_moves_on(l, b, t2, files, problem);
            lemma_undone(l, b, t2, files, problem, path, old, held);
                },
                Ok(_) => {
                    let (r, c) = verify_binaries_at(l, b, t2.paths, t2.version);
                    if let Err(error) = r {
                        let problem = crate::update::activation::standalone_failure(
                            "update_rolled_back"@,
                            "verification failed and the previous executable pair was restored: "@
                                + error.message,
                            t2.paths.primary,
                        );
                        assert(c == -1 || i <= c <= l.len());
            lemma_undo_moves_on(l, c, t2, files, problem);
            lemma_undone(l, c, t2, files, problem, path, old, held);
                    }
                },
            }
        },
    }
}

proof fn lemma_failed_activation(
    l: Seq<IoEvent>,
    i: int,
    host: Seq<char>,
    t: PairState,
    release: ReleaseView,
    trust: (Seq<u8>, Seq<u8>),
    result: ResultView,
    path: Seq<u8>,
    old: Seq<u8>,
    held: spec_fn(int) -> Option<Seq<u8>>,
)
    requires
        position(l, i),
        activate_at(l, i, host, t, release, trust, result).1 != -1,
        activate_at(l, i, host, t, release, trust, result).0 matches Err(failure)
            && !failure.applied && failure.rollback is None,
        path == t.paths.primary && old == t.old_primary || path == t.paths.secondary && old
            == t.old_secondary,
        is_apart(t, path),
        faithful(l, i, activate_at(l, i, host, t, release, trust, result).1, path, held),
        held(i) == Some(old),
    ensures
        held(activate_at(l, i, host, t, release, trust, result).1) == Some(old),
{
    reveal(activate_at);
    let end = activate_at(l, i, host, t, release, trust, result).1;
    let (r, a) = stage_at(l, i, t, release);
    law_staging_leaves_the_installation_alone(l, i, t, release);
    lemma_stage_untouched(l, i, a, t, path);
    if r is Err {
        lemma_untouched_holds(l, i, end, path, held);
    } else {
        let (aux, b) = capture_sidecars_at(l, a, t.paths, t.version, host, release, trust);
        assert(reads(l, a, b));
        lemma_reads_untouched(l, a, b, path);
        lemma_untouched_joins(l, i, a, b, path);
        match aux {
            Err(_) => {
                lemma_untouched_holds(l, i, end, path, held);
            },
            Ok(files) => {
                assert(elsewhere(files, path));
                let (r, after, c) = replace_sidecars_at(l, b, files);
                lemma_replace_untouched(l, b, files, 0, path);
                lemma_untouched_joins(l, i, b, c, path);
                if r is Err {
                    let (cleared, d) = clear_stages_at(l, c, t);
                    assert(keeps_to_stage(l, c, d, t));
                    lemma_stage_untouched(l, c, d, t, path);
                    lemma_untouched_joins(l, i, c, d, path);
                    lemma_untouched_holds(l, i, end, path, held);
                } else {
                    lemma_swap_lockless(l, c, t, after, result);
                    lemma_failed_swap(l, c, t, after, result, path, old, held);
                }
            },
        }
    }
}

/// An update of a standalone installation that fails and reports neither that
/// it took effect nor that undoing it went wrong leaves both executables byte
/// for byte what they were when they were captured, at whatever step it failed.
/// It needs the executables to lie apart from the staged files and the
/// sidecars, as they do under their ordinary names.
pub proof fn law_failed_activation_leaves_the_pair(
    l: Seq<IoEvent>,
    i: int,
    host: Seq<char>,
    paths: PairView,
    version: Seq<char>,
    t: PairState,
    begin: int,
    release: ReleaseView,
    trust: (Seq<u8>, Seq<u8>),
    result: ResultView,
    primary: spec_fn(int) -> Option<Seq<u8>>,
    secondary: spec_fn(int) -> Option<Seq<u8>>,
)
    requires
        position(l, i),
        capture_pair_at(l, i, paths, version) == (Ok::<PairState, FailureView>(t), begin),
        activate_at(l, begin, host, t, release, trust, result).1 != -1,
        activate_at(l, begin, host, t, release, trust, result).0 matches Err(failure)
            && !failure.applied && failure.rollback is None,
        is_apart(t, paths.primary),
        is_apart(t, paths.secondary),
        faithful(
            l,
            i,
            activate_at(l, begin, host, t, release, trust, result).1,
            paths.primary,
            primary,
        ),
        faithful(
            l,
            i,
            activate_at(l, begin, host, t, release, trust, result).1,
            paths.secondary,
            secondary,
        ),
    ensures
        primary(activate_at(l, begin, host, t, release, trust, result).1) == Some(t.old_primary),
        secondary(activate_at(l, begin, host, t, release, trust, result).1) == Some(
            t.old_secondary,
        ),
{
    let end = activate_at(l, begin, host, t, release, trust, result).1;
    assert(position(l, begin));
    lemma_activate_lockless(l, begin, host, t, release, trust, result);
    assert(begin != -1);
    assert(begin == i + 2);
    assert(l[i] == IoEvent::ReadFile(paths.primary, Ok(t.old_primary)));
    assert(l[i + 1] == IoEvent::ReadFile(paths.secondary, Ok(t.old_secondary)));
    assert(primary(i) == Some(t.old_primary));
    assert(!touches(l[i], paths.primary) && !touches(l[i + 1], paths.primary));
    assert(primary(i + 1) == primary(i) && primary((i + 1) + 1) == primary(i + 1));
    assert(secondary(i + 1) == Some(t.old_secondary));
    assert(!touches(l[i + 1], paths.secondary));
    assert(secondary((i + 1) + 1) == secondary(i + 1));
    lemma_failed_activation(
        l,
        begin,
        host,
        t,
        release,
        trust,
        result,
        paths.primary,
        t.old_primary,
        primary,
    );
    lemma_failed_activation(
        l,
        begin,
        host,
        t,
        release,
        trust,
        result,
        paths.secondary,
        t.old_secondary,
        secondary,
    );
}

} // verus!
