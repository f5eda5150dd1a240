//! What an update reports is what was found and what was done.
use crate::outside::{lossy_text, version_after, version_error};
use crate::path::{extended, name_of, renamed};
use crate::text::{stripped, utf8};
use crate::update::adoption::{adopt_files_at, protect_at};
use crate::update::activation::{activate_at, applied_result, stage_at, swap_at};
use crate::update::cargo::{capture_backup_at, install_at};
use crate::update::discover::discover_at;
use crate::update::guarantees::{
    law_applied_install_was_verified, law_applied_swap_was_verified_in_place, protected, shown_at,
    wrote,
};
use crate::update::io::{command_available_at, IoEvent, ProviderEvent, VerifierEvent};
use crate::update::marker::{digest_of, marker_json, version_like};
use crate::update::laws::{
    lemma_cargo_locked_lockless, lemma_discover_reads, lemma_prepared_reads, position,
};
use crate::update::model::{
    pair_of, CommandView, Installer, MarkerView, MetadataView, PairView, ReleaseView, ResultView,
};
use crate::update::records::record_present_at;
use crate::update::service::{
    adopt_locked_at, adoptable_at, cargo_command, cargo_locked_at, cargo_update_at, prepared_at, proves_standalone_at, run_at, standalone_update_at,
    take_lock_at, At, RequestView, Trace,
};
use crate::update::sidecars::{
    begun, capture_sidecars_at, replace_sidecar_at, replace_sidecars_at, replace_sidecars_from,
    SidecarView,
};
use crate::update::transaction::{capture_pair_at, PairState};
use vstd::prelude::*;

verus! {

/// At `k` the newest release for `host` was asked for, and it is the one that
/// `metadata` describes.
pub open spec fn newest_was(
    l: Seq<ProviderEvent>,
    k: int,
    host: Seq<char>,
    metadata: MetadataView,
) -> bool {
    0 <= k < l.len() && l[k] == ProviderEvent::Latest(host, Ok(metadata))
}

/// `result` tells of the newest release: its version, and that it is available
/// exactly where it is after the one that runs.
pub open spec fn tells_of(
    result: ResultView,
    metadata: MetadataView,
    host: Seq<char>,
    current: Seq<char>,
) -> bool {
    &&& metadata.repository == "agensfield/ramiz"@
    &&& metadata.host == host
    &&& result.target_version == Some(metadata.version)
    &&& result.available == version_after(metadata.version, current)
}

/// `result` is about the executable that was asked about and the one beside it.
pub open spec fn about(result: ResultView, executable: Seq<u8>) -> bool {
    if name_of(executable) == Some(utf8("git-ramiz"@)) {
        &&& result.executable == renamed(executable, utf8("ramiz"@))
        &&& result.secondary_executable == executable
    } else {
        &&& result.executable == executable
        &&& result.secondary_executable == renamed(executable, utf8("git-ramiz"@))
    }
}

/// A request to check is answered with the newest release that the provider
/// knows of: an update is available exactly where that is after the version
/// that runs, and nothing was applied.
pub proof fn law_check_tells_of_the_newest(t: Trace, c: At, host: Seq<char>, request: RequestView)
    requires
        request.check,
        run_at(t, c, host, request).0 is Ok,
        run_at(t, c, host, request).1.provider != -1,
    ensures
        exists|metadata: MetadataView|
            {
                &&& #[trigger] newest_was(t.provider, c.provider, host, metadata)
                &&& tells_of(
                    run_at(t, c, host, request).0->Ok_0,
                    metadata,
                    host,
                    request.current_version,
                )
            },
        ({
            let result = run_at(t, c, host, request).0->Ok_0;
            &&& result.current_version == request.current_version
            &&& about(result, request.executable)
            &&& !result.applied
            &&& !result.changed
            &&& result.commands.len() == 0
            &&& result.message == (if result.available {
                "update available"@
            } else {
                "already current"@
            })
        }),
{
    let metadata = (t.provider[c.provider]->Latest_1)->Ok_0;
    assert(newest_was(t.provider, c.provider, host, metadata));
}

/// A request to check is answered where the provider tells of a release that is
/// in order: of the project's repository and for the platform, with a version
/// that can be compared with the one that runs.
pub proof fn law_check_is_answered(
    t: Trace,
    c: At,
    host: Seq<char>,
    request: RequestView,
    metadata: MetadataView,
)
    requires
        request.check,
        newest_was(t.provider, c.provider, host, metadata),
        metadata.repository == "agensfield/ramiz"@,
        metadata.host == host,
        version_like(metadata.version),
        stripped(metadata.primary_asset).len() > 0,
        stripped(metadata.secondary_asset).len() > 0,
        version_error(metadata.version) is None,
        version_error(request.current_version) is None,
    ensures
        run_at(t, c, host, request).0 is Ok,
        tells_of(
            run_at(t, c, host, request).0->Ok_0,
            metadata,
            host,
            request.current_version,
        ),
{
}

/// A request to check fails only for a reason: the provider's own failure is
/// passed on, and a release is refused that is of another repository, not for
/// the platform, or of a version that cannot be compared.
pub proof fn law_check_fails_for_a_reason(
    t: Trace,
    c: At,
    host: Seq<char>,
    request: RequestView,
)
    requires
        request.check,
        run_at(t, c, host, request).0 is Err,
        run_at(t, c, host, request).1.provider != -1,
    ensures
        ({
            let failure = run_at(t, c, host, request).0->Err_0;
            match t.provider[c.provider] {
                ProviderEvent::Latest(_, Err(told)) => {
                    &&& failure.code == told.code
                    &&& failure.message == told.message
                },
                ProviderEvent::Latest(_, Ok(metadata)) => {
                    ||| {
                        &&& failure.code == "untrusted_release_source"@
                        &&& metadata.repository != "agensfield/ramiz"@
                    }
                    ||| {
                        &&& failure.code == "invalid_release_metadata"@
                        &&& !version_like(metadata.version) || metadata.host != host || stripped(
                            metadata.primary_asset,
                        ).len() == 0 || stripped(metadata.secondary_asset).len() == 0
                            || version_error(metadata.version) is Some
                    }
                    ||| {
                        &&& failure.code == "invalid_current_version"@
                        &&& version_error(request.current_version) is Some
                    }
                },
                _ => false,
            }
        }),
{
}

/// A request that does not only check is one of two things. Where an adoption
/// was asked for, the installation is adopted at the version that runs. Else
/// the newest release is told of; it is applied where it is after the version
/// that runs, and where it is not nothing is changed.
pub proof fn law_run_tells_what_was_done(t: Trace, c: At, host: Seq<char>, request: RequestView)
    requires
        !request.check,
        run_at(t, c, host, request).0 is Ok,
        run_at(t, c, host, request).1.provider != -1,
    ensures
        ({
            let result = run_at(t, c, host, request).0->Ok_0;
            &&& result.current_version == request.current_version
            &&& about(result, request.executable)
            &&& result.changed == result.applied
            &&& request.adopt ==> {
                &&& result.applied
                &&& !result.available
                &&& result.target_version == Some(request.current_version)
                &&& result.installer == Installer::Standalone
                &&& result.commands.len() == 0
                &&& result.message == "standalone installation adopted"@
            }
            &&& !request.adopt ==> {
                &&& result.applied == result.available
                &&& result.installer == Installer::Cargo || result.installer
                    == Installer::Standalone
                &&& result.commands.len() == (if result.applied && result.installer
                    == Installer::Cargo {
                    1int
                } else {
                    0int
                })
                &&& result.message == (if result.applied {
                    "update applied"@
                } else {
                    "already current"@
                })
            }
        }),
        !request.adopt ==> exists|k: int, metadata: MetadataView|
            {
                &&& #[trigger] newest_was(t.provider, k, host, metadata)
                &&& tells_of(
                    run_at(t, c, host, request).0->Ok_0,
                    metadata,
                    host,
                    request.current_version,
                )
            },
{
    let paths = pair_of(request.executable);
    let current = request.current_version;
    let (installer, i) = discover_at(t.io, c.io, paths, host);
    let c1 = c.io_at(i);
    match installer {
        Installer::Cargo => {
            let (root, a) = crate::update::service::cargo_checked_at(
                t.io,
                c1.io,
                host,
                current,
                paths,
            );
            let metadata = (t.provider[c1.provider]->Latest_1)->Ok_0;
            assert(newest_was(t.provider, c1.provider, host, metadata));
            assert forall|root: Seq<u8>, version: Seq<char>, result: ResultView|
                (#[trigger] cargo_update_at(
                    t.io,
                    a,
                    host,
                    current,
                    paths,
                    root,
                    version,
                    result,
                )).0 matches Ok(out) ==> done_by_command(out, result) by {
                lemma_commanded(t.io, a, host, current, paths, root, version, result);
            }
        },
        Installer::Standalone => {
            let k = c1.provider + 1;
            let metadata = (t.provider[k]->Latest_1)->Ok_0;
            assert forall|
                c2: At,
                local: (MarkerView, Seq<u8>, Seq<u8>),
                metadata: MetadataView,
                result: ResultView,
            |
                (#[trigger] standalone_update_at(
                    t,
                    c2,
                    host,
                    paths,
                    local,
                    metadata,
                    result,
                )).0 matches Ok(out) ==> {
                    &&& out == applied_result(result)
                    &&& c2.provider == -1 ==> standalone_update_at(
                        t,
                        c2,
                        host,
                        paths,
                        local,
                        metadata,
                        result,
                    ).1.provider == -1
                } by {
                lemma_swapped(t, c2, host, paths, local, metadata, result);
            }
            assert(newest_was(t.provider, k, host, metadata));
        },
        _ => {},
    }
}

/// `out` is `result` once it was applied by a command.
pub open spec fn done_by_command(out: ResultView, result: ResultView) -> bool {
    exists|command: CommandView|
        out == (ResultView {
            commands: #[trigger] result.commands.push(command),
            applied: true,
            changed: true,
            message: "update applied"@,
            ..result
        })
}

pub proof fn lemma_commanded(
    l: Seq<IoEvent>,
    i: int,
    host: Seq<char>,
    current: Seq<char>,
    paths: PairView,
    root: Seq<u8>,
    version: Seq<char>,
    result: ResultView,
)
    ensures
        cargo_update_at(l, i, host, current, paths, root, version, result).0 matches Ok(out)
            ==> done_by_command(out, result),
{
    reveal(install_at);
    let (binstall, a) = command_available_at(l, i, "cargo-binstall"@);
    let command = cargo_command(binstall, version, root);
    let (lock, b) = take_lock_at(l, a);
    let (r, c) = cargo_locked_at(l, b, host, current, paths, root, command, version, result);
    let (owner, d) = discover_at(l, b, paths, host);
    let (proven, e) = record_present_at(l, d, root, Some(current), host);
    let (backup, f) = capture_backup_at(l, e, paths, root);
    let (out, g) = install_at(l, f, command, paths, version, result);
    assert(r is Ok ==> r == out);
    let more = result.commands.push(command);
    assert(r is Ok ==> done_by_command(r->Ok_0, result));
}

pub proof fn lemma_swapped(
    t: Trace,
    c: At,
    host: Seq<char>,
    paths: PairView,
    local: (MarkerView, Seq<u8>, Seq<u8>),
    metadata: MetadataView,
    result: ResultView,
)
    ensures
        standalone_update_at(t, c, host, paths, local, metadata, result).0 matches Ok(out) ==> {
            &&& out == applied_result(result)
            &&& c.provider == -1 ==> standalone_update_at(
                t,
                c,
                host,
                paths,
                local,
                metadata,
                result,
            ).1.provider == -1
        },
{
    reveal(activate_at);
    reveal(stage_at);
    reveal(swap_at);
    let (lock, i) = take_lock_at(t.io, c.io);
    let c1 = c.io_at(i);
    let (prepared, c2) = prepared_at(t, c1, host, paths, local, metadata);
    if let Ok((release, trust)) = prepared {
        let (pair, j) = capture_pair_at(t.io, c2.io, paths, metadata.version);
        if let Ok(pair) = pair {
            let (r, a) = stage_at(t.io, j, pair, release);
            let (aux, b) = capture_sidecars_at(
                t.io,
                a,
                pair.paths,
                pair.version,
                host,
                release,
                trust,
            );
            if let Ok(files) = aux {
                let (r, files, d) = replace_sidecars_at(t.io, b, files);
                let (out, e) = swap_at(t.io, d, pair, files, result);
                assert(out is Ok ==> out->Ok_0 == applied_result(result));
            }
        }
    }
}

// ---------------------------------------------------------------------------
// What Cargo is told
// ---------------------------------------------------------------------------

/// The command that installs `version` below `root`, with `cargo-binstall` or
/// with Cargo itself.
pub open spec fn installs(
    command: CommandView,
    binstall: bool,
    version: Seq<char>,
    root: Seq<u8>,
) -> bool {
    if binstall {
        &&& command.program == "cargo-binstall"@
        &&& command.args =~= seq![
            "ramiz"@,
            "--version"@,
            version,
            "--force"@,
            "--root"@,
            lossy_text(root),
        ]
    } else {
        &&& command.program == "cargo"@
        &&& command.args =~= seq![
            "install"@,
            "ramiz"@,
            "--version"@,
            version,
            "--locked"@,
            "--force"@,
            "--root"@,
            lossy_text(root),
        ]
    }
}

/// At `k` the command was run and ended well, and then both executables showed
/// that they are of `version`.
pub open spec fn installed_at(
    l: Seq<IoEvent>,
    k: int,
    command: CommandView,
    paths: PairView,
    version: Seq<char>,
) -> bool {
    &&& l[k] matches IoEvent::Run(program, args, Ok(output)) && program == utf8(command.program)
        && args == command.args && output.success
    &&& shown_at(l, k + 1, paths.primary, version)
    &&& shown_at(l, k + 3, paths.secondary, version)
}

/// An update by Cargo installs the version that is told of, in the root that
/// the installation is in: with `cargo-binstall` exactly where there is one. It
/// ended well, is the one command that is reported, and both executables then
/// showed that version.
pub proof fn law_cargo_installs_the_new_version(
    l: Seq<IoEvent>,
    i: int,
    host: Seq<char>,
    current: Seq<char>,
    paths: PairView,
    root: Seq<u8>,
    version: Seq<char>,
    result: ResultView,
)
    requires
        position(l, i),
        cargo_update_at(l, i, host, current, paths, root, version, result).0 is Ok,
        cargo_update_at(l, i, host, current, paths, root, version, result).1 != -1,
    ensures
        0 <= i < l.len(),
        exists|binstall: bool, command: CommandView, k: int|
            {
                &&& l[i] == IoEvent::CommandAvailable("cargo-binstall"@, binstall)
                &&& #[trigger] installs(command, binstall, version, root)
                &&& i < k
                &&& k + 5 < cargo_update_at(
                    l,
                    i,
                    host,
                    current,
                    paths,
                    root,
                    version,
                    result,
                ).1
                &&& #[trigger] installed_at(l, k, command, paths, version)
                &&& cargo_update_at(
                    l,
                    i,
                    host,
                    current,
                    paths,
                    root,
                    version,
                    result,
                ).0->Ok_0.commands == result.commands.push(command)
            },
{
    let (binstall, a) = command_available_at(l, i, "cargo-binstall"@);
    let command = cargo_command(binstall, version, root);
    let (lock, b) = take_lock_at(l, a);
    let (r, c) = cargo_locked_at(l, b, host, current, paths, root, command, version, result);
    let (owner, d) = discover_at(l, b, paths, host);
    let (proven, e) = record_present_at(l, d, root, Some(current), host);
    let (backup, f) = capture_backup_at(l, e, paths, root);
    let (out, g) = install_at(l, f, command, paths, version, result);
    assert(position(l, b));
    lemma_cargo_locked_lockless(l, b, host, current, paths, root, command, version, result);
    assert(r == out && c == g);
    assert(position(l, f) && (f == -1 || b <= f)) by {
        reveal(record_present_at);
        reveal(crate::update::records::read_records_at);
        reveal(capture_backup_at);
        lemma_discover_reads(l, b, paths, host);
    }
    law_applied_install_was_verified(l, f, command, paths, version, result);
    assert(g == f + 5) by {
        reveal(install_at);
    }
    assert(installs(command, binstall, version, root));
    assert(installed_at(l, f, command, paths, version));
}

// ---------------------------------------------------------------------------
// What is put in place
// ---------------------------------------------------------------------------

/// A staged file was made with `bytes`.
pub open spec fn staged(e: IoEvent, path: Seq<u8>, bytes: Seq<u8>) -> bool {
    e matches IoEvent::CreateStagedFile(p, b, Ok(_)) && p == path && b == bytes
}

/// A file was made executable.
pub open spec fn armed(e: IoEvent, path: Seq<u8>) -> bool {
    e matches IoEvent::SetExecutable(p, Ok(_)) && p == path
}

/// A file was moved.
pub open spec fn moved(e: IoEvent, from: Seq<u8>, to: Seq<u8>) -> bool {
    e matches IoEvent::Rename(a, b, Ok(_)) && a == from && b == to
}

/// At `k` `bytes` were written to `path`, and then it was made private.
pub open spec fn kept_beside(l: Seq<IoEvent>, k: int, path: Seq<u8>, bytes: Seq<u8>) -> bool {
    wrote(l[k], path, bytes) && protected(l[k + 1], path)
}

/// The marker that proves the executables of `release`.
pub open spec fn proof_of(
    version: Seq<char>,
    host: Seq<char>,
    release: ReleaseView,
    checksums: Seq<u8>,
) -> MarkerView {
    MarkerView {
        repository: "agensfield/ramiz"@,
        version,
        host,
        primary_sha256: digest_of(release.primary),
        secondary_sha256: digest_of(release.secondary),
        archive_sha256: digest_of(checksums),
    }
}

/// What a standalone update puts in place: each executable of the release is
/// written to its own staged file and made executable, and at the end the one
/// that was installed is moved aside and the staged one is moved in, each to
/// its own place; both then showed the new version. In between the manifest of
/// the release, its signature and a marker that proves the new executables are
/// put beside them, readable by their owner alone.
pub proof fn law_activation_puts_each_executable_in_its_place(
    l: Seq<IoEvent>,
    i: int,
    host: Seq<char>,
    p: PairState,
    release: ReleaseView,
    trust: (Seq<u8>, Seq<u8>),
    result: ResultView,
)
    requires
        position(l, i),
        activate_at(l, i, host, p, release, trust, result).0 is Ok,
        activate_at(l, i, host, p, release, trust, result).1 != -1,
    ensures
        ({
            let j = activate_at(l, i, host, p, release, trust, result).1;
            &&& 0 <= i
            &&& j == i + 33
            &&& j <= l.len()
            &&& staged(l[i + 2], p.stage.primary, release.primary)
            &&& staged(l[i + 3], p.stage.secondary, release.secondary)
            &&& armed(l[i + 4], p.stage.primary)
            &&& armed(l[i + 5], p.stage.secondary)
            &&& shown_at(l, i + 6, p.stage.primary, p.version)
            &&& shown_at(l, i + 8, p.stage.secondary, p.version)
            &&& kept_beside(
                l,
                i + 13,
                renamed(p.paths.primary, utf8(".ramiz-checksums.txt"@)),
                trust.0,
            )
            &&& kept_beside(
                l,
                i + 15,
                renamed(p.paths.primary, utf8(".ramiz-checksums.txt.minisig"@)),
                trust.1,
            )
            &&& kept_beside(
                l,
                i + 17,
                renamed(p.paths.primary, utf8(".ramiz-owner.json"@)),
                utf8(marker_json(proof_of(p.version, host, release, trust.0))),
            )
            &&& moved(l[j - 12], p.paths.primary, p.backup.primary)
            &&& moved(l[j - 11], p.paths.secondary, p.backup.secondary)
            &&& moved(l[j - 10], p.stage.primary, p.paths.primary)
            &&& moved(l[j - 9], p.stage.secondary, p.paths.secondary)
            &&& shown_at(l, j - 8, p.paths.primary, p.version)
            &&& shown_at(l, j - 6, p.paths.secondary, p.version)
        }),
{
    reveal(activate_at);
    reveal(stage_at);
    reveal(swap_at);
    let (r, a) = stage_at(l, i, p, release);
    let (aux, b) = capture_sidecars_at(l, a, p.paths, p.version, host, release, trust);
    let files = aux->Ok_0;
    let (r, after, d) = replace_sidecars_at(l, b, files);
    assert(a == -1 || a == i + 10);
    assert(b == -1 || (a != -1 && b == a + 3));
    assert(position(l, b));
    lemma_replaced_on(l, b, files, 0);
    law_applied_swap_was_verified_in_place(l, d, p, after, result);
    assert(files.len() == 3);
    lemma_three_replaced(l, b, files);
}

proof fn lemma_three_replaced(l: Seq<IoEvent>, i: int, files: Seq<SidecarView>)
    requires
        0 <= i <= l.len(),
        files.len() == 3,
        replace_sidecars_at(l, i, files).0 is Ok,
        replace_sidecars_at(l, i, files).2 != -1,
    ensures
        replace_sidecars_at(l, i, files).2 == i + 6,
        kept_beside(l, i, files[0].path, files[0].new_bytes),
        kept_beside(l, i + 2, files[1].path, files[1].new_bytes),
        kept_beside(l, i + 4, files[2].path, files[2].new_bytes),
{
    reveal_with_fuel(replace_sidecars_from, 4);
    let one = files.update(0, begun(files[0]));
    let two = one.update(1, begun(one[1]));
    assert(one[1] == files[1] && one[2] == files[2] && two[2] == files[2]);
}

proof fn lemma_replaced_on(l: Seq<IoEvent>, i: int, files: Seq<SidecarView>, k: int)
    requires
        position(l, i),
        0 <= k <= files.len(),
        replace_sidecars_from(l, i, files, k).0 is Ok,
    ensures
        ({
            let j = replace_sidecars_from(l, i, files, k).2;
            position(l, j) && (j == -1 || (i != -1 && i <= j))
        }),
    decreases files.len() - k,
{
    if k < files.len() {
        let (r, a) = replace_sidecar_at(l, i, files[k]);
        lemma_replaced_on(l, a, files.update(k, begun(files[k])), k + 1);
    }
}

/// The executables of `release` were put in place between `k` and `j`: staged,
/// made executable and tried out beside the installed ones, which were then
/// moved aside for them; with what proves them.
pub open spec fn put_in_place(
    l: Seq<IoEvent>,
    k: int,
    j: int,
    host: Seq<char>,
    paths: PairView,
    version: Seq<char>,
    release: ReleaseView,
    trust: (Seq<u8>, Seq<u8>),
) -> bool {
    let stage = utf8("stage.ramiz-update-"@ + version);
    let aside = utf8("previous.ramiz-update-"@ + version);
    &&& j == k + 33
    &&& staged(l[k + 2], extended(paths.primary, stage), release.primary)
    &&& staged(l[k + 3], extended(paths.secondary, stage), release.secondary)
    &&& armed(l[k + 4], extended(paths.primary, stage))
    &&& armed(l[k + 5], extended(paths.secondary, stage))
    &&& kept_beside(
        l,
        k + 13,
        renamed(paths.primary, utf8(".ramiz-checksums.txt"@)),
        trust.0,
    )
    &&& kept_beside(
        l,
        k + 15,
        renamed(paths.primary, utf8(".ramiz-checksums.txt.minisig"@)),
        trust.1,
    )
    &&& kept_beside(
        l,
        k + 17,
        renamed(paths.primary, utf8(".ramiz-owner.json"@)),
        utf8(marker_json(proof_of(version, host, release, trust.0))),
    )
    &&& moved(l[k + 21], paths.primary, extended(paths.primary, aside))
    &&& moved(l[k + 22], paths.secondary, extended(paths.secondary, aside))
    &&& moved(l[k + 23], extended(paths.primary, stage), paths.primary)
    &&& moved(l[k + 24], extended(paths.secondary, stage), paths.secondary)
    &&& shown_at(l, k + 25, paths.primary, version)
    &&& shown_at(l, k + 27, paths.secondary, version)
}

/// A standalone update puts in place what was downloaded as the release that
/// was told of and was verified to be it, and nothing else; and what it keeps
/// to prove it is what the provider vouched with. A release without a digest
/// or a verified signature is not installed.
pub proof fn law_standalone_update_installs_the_verified_release(
    t: Trace,
    c: At,
    host: Seq<char>,
    paths: PairView,
    local: (MarkerView, Seq<u8>, Seq<u8>),
    metadata: MetadataView,
    result: ResultView,
)
    requires
        position(t.io, c.io),
        standalone_update_at(t, c, host, paths, local, metadata, result).0 is Ok,
        standalone_update_at(t, c, host, paths, local, metadata, result).1.io != -1,
        standalone_update_at(t, c, host, paths, local, metadata, result).1.provider != -1,
        standalone_update_at(t, c, host, paths, local, metadata, result).1.verifier != -1,
    ensures
        metadata.signature_verified,
        stripped(metadata.archive_sha256).len() > 0,
        exists|release: ReleaseView, trust: (Seq<u8>, Seq<u8>), k: int|
            {
                &&& t.provider[c.provider + 1] == ProviderEvent::Download(metadata, Ok(release))
                &&& release_verified(t, c.verifier, metadata, release)
                &&& t.provider[c.provider + 2] == ProviderEvent::TrustMaterial(Some(trust))
                &&& #[trigger] put_in_place(
                    t.io,
                    k,
                    standalone_update_at(t, c, host, paths, local, metadata, result).1.io - 1,
                    host,
                    paths,
                    metadata.version,
                    release,
                    trust,
                )
            },
{
    let (lock, i) = take_lock_at(t.io, c.io);
    let c1 = c.io_at(i);
    lemma_prepared_reads(t, c1, host, paths, local, metadata);
    let (prepared, c2) = prepared_at(t, c1, host, paths, local, metadata);
    let (release, trust) = prepared->Ok_0;
    let (pair, k) = capture_pair_at(t.io, c2.io, paths, metadata.version);
    let pair = pair->Ok_0;
    assert(position(t.io, c2.io));
    assert(position(t.io, k));
    let (r, j) = activate_at(t.io, k, host, pair, release, trust, result);
    law_activation_puts_each_executable_in_its_place(
        t.io,
        k,
        host,
        pair,
        release,
        trust,
        result,
    );
    assert(t.provider[c.provider + 1] == ProviderEvent::Download(metadata, Ok(release)));
    assert(release_verified(t, c.verifier, metadata, release));
    assert(t.provider[c.provider + 2] == ProviderEvent::TrustMaterial(Some(trust)));
    assert(put_in_place(
        t.io,
        k,
        standalone_update_at(t, c, host, paths, local, metadata, result).1.io - 1,
        host,
        paths,
        metadata.version,
        release,
        trust,
    ));
}

// ---------------------------------------------------------------------------
// What is adopted
// ---------------------------------------------------------------------------

/// From `at` on it was shown that the installed executables are those of the
/// signed release of the version that runs.
pub open spec fn proven_installed(
    t: Trace,
    at: At,
    host: Seq<char>,
    current: Seq<char>,
    paths: PairView,
) -> bool {
    exists|metadata: MetadataView, release: ReleaseView|
        {
            &&& t.io[at.io] == IoEvent::IsFile(paths.primary, true)
            &&& t.io[at.io + 1] == IoEvent::IsFile(paths.secondary, true)
            &&& t.provider[at.provider] == ProviderEvent::ExactRelease(
                current,
                host,
                Ok(metadata),
            )
            &&& metadata.repository == "agensfield/ramiz"@
            &&& metadata.version == current
            &&& metadata.host == host
            &&& metadata.signature_verified
            &&& t.provider[at.provider + 1] == ProviderEvent::Download(metadata, Ok(release))
            &&& #[trigger] release_verified(t, at.verifier, metadata, release)
            &&& t.io[at.io + 2] == IoEvent::ReadFile(paths.primary, Ok(release.primary))
            &&& t.io[at.io + 3] == IoEvent::ReadFile(paths.secondary, Ok(release.secondary))
        }
}

/// At `k` the release was verified.
pub open spec fn release_verified(
    t: Trace,
    k: int,
    metadata: MetadataView,
    release: ReleaseView,
) -> bool {
    t.verifier[k] matches VerifierEvent::Verify(m, r, Ok(_)) && m == metadata && r == release
}

/// What is taken for a standalone installation is byte for byte the signed
/// release of the version that runs.
pub proof fn law_standalone_is_proven_by_its_release(
    t: Trace,
    at: At,
    host: Seq<char>,
    current: Seq<char>,
    paths: PairView,
)
    requires
        proves_standalone_at(t, at, host, current, paths).0,
        proves_standalone_at(t, at, host, current, paths).1.io != -1,
        proves_standalone_at(t, at, host, current, paths).1.provider != -1,
        proves_standalone_at(t, at, host, current, paths).1.verifier != -1,
    ensures
        proven_installed(t, at, host, current, paths),
        proves_standalone_at(t, at, host, current, paths).1 == (At {
            io: at.io + 4,
            provider: at.provider + 2,
            verifier: at.verifier + 1,
        }),
{
    let metadata = (t.provider[at.provider]->ExactRelease_2)->Ok_0;
    let release = (t.provider[at.provider + 1]->Download_1)->Ok_0;
    assert(release_verified(t, at.verifier, metadata, release));
}

/// From `k` to `j` both executables were read, and what proves them was written
/// beside them and made private; then the lock was given back.
pub open spec fn adoption_kept(
    l: Seq<IoEvent>,
    k: int,
    j: int,
    host: Seq<char>,
    current: Seq<char>,
    paths: PairView,
    release: ReleaseView,
    trust: (Seq<u8>, Seq<u8>),
) -> bool {
    let manifest = renamed(paths.primary, utf8(".ramiz-checksums.txt"@));
    let signature = renamed(paths.primary, utf8(".ramiz-checksums.txt.minisig"@));
    let owner = renamed(paths.primary, utf8(".ramiz-owner.json"@));
    &&& 0 <= k
    &&& j == k + 9
    &&& j <= l.len()
    &&& l[k] == IoEvent::ReadFile(paths.primary, Ok(release.primary))
    &&& l[k + 1] == IoEvent::ReadFile(paths.secondary, Ok(release.secondary))
    &&& wrote(l[k + 2], manifest, trust.0)
    &&& wrote(l[k + 3], signature, trust.1)
    &&& wrote(
        l[k + 4],
        owner,
        utf8(marker_json(proof_of(current, host, release, trust.0))),
    )
    &&& protected(l[k + 5], manifest)
    &&& protected(l[k + 6], signature)
    &&& protected(l[k + 7], owner)
    &&& l[k + 8] is ReleaseLock
}

/// An adoption keeps what proves the executables that it found: the manifest
/// and the signature that the provider vouched with, and a marker with the
/// digests of the executables, of the version that runs.
pub proof fn law_adoption_keeps_what_proves_it(
    t: Trace,
    c: At,
    host: Seq<char>,
    current: Seq<char>,
    paths: PairView,
    lock: Seq<u8>,
)
    requires
        position(t.io, c.io),
        adopt_locked_at(t, c, host, current, paths, lock).0 is Ok,
        adopt_locked_at(t, c, host, current, paths, lock).1.io != -1,
        adopt_locked_at(t, c, host, current, paths, lock).1.provider != -1,
    ensures
        exists|release: ReleaseView, trust: (Seq<u8>, Seq<u8>), k: int|
            {
                &&& t.provider[adopt_locked_at(t, c, host, current, paths, lock).1.provider - 1]
                    == ProviderEvent::TrustMaterial(Some(trust))
                &&& #[trigger] adoption_kept(
                    t.io,
                    k,
                    adopt_locked_at(t, c, host, current, paths, lock).1.io,
                    host,
                    current,
                    paths,
                    release,
                    trust,
                )
            },
{
    let (ready, c1) = adoptable_at(t, c, host, current, paths);
    let (marker, trust) = ready->Ok_0;
    let end = adopt_locked_at(t, c, host, current, paths, lock).1;
    let (r, i) = adopt_files_at(t.io, c1.io, paths, marker, trust.0, trust.1);
    lemma_adopted_files(t.io, c1.io, paths, marker, trust.0, trust.1);
    let k = c1.io - 2;
    let release = ReleaseView {
        primary: (t.io[k]->ReadFile_1)->Ok_0,
        secondary: (t.io[k + 1]->ReadFile_1)->Ok_0,
    };
    assert(t.provider[end.provider - 1] == ProviderEvent::TrustMaterial(Some(trust)));
    assert(adoption_kept(t.io, k, end.io, host, current, paths, release, trust));
}

proof fn lemma_adopted_files(
    l: Seq<IoEvent>,
    i: int,
    paths: PairView,
    marker: MarkerView,
    checksums: Seq<u8>,
    signature: Seq<u8>,
)
    requires
        adopt_files_at(l, i, paths, marker, checksums, signature).0 is Ok,
        adopt_files_at(l, i, paths, marker, checksums, signature).1 != -1,
    ensures
        adopt_files_at(l, i, paths, marker, checksums, signature).1 == i + 6,
        0 <= i,
        i + 6 <= l.len(),
        wrote(l[i], renamed(paths.primary, utf8(".ramiz-checksums.txt"@)), checksums),
        wrote(l[i + 1], renamed(paths.primary, utf8(".ramiz-checksums.txt.minisig"@)), signature),
        wrote(
            l[i + 2],
            renamed(paths.primary, utf8(".ramiz-owner.json"@)),
            utf8(marker_json(marker)),
        ),
        protected(l[i + 3], renamed(paths.primary, utf8(".ramiz-checksums.txt"@))),
        protected(l[i + 4], renamed(paths.primary, utf8(".ramiz-checksums.txt.minisig"@))),
        protected(l[i + 5], renamed(paths.primary, utf8(".ramiz-owner.json"@))),
{
    reveal(adopt_files_at);
    reveal_with_fuel(protect_at, 4);
    let manifest = crate::update::marker::manifest_at(paths.primary);
    let detached = crate::update::marker::signature_at(paths.primary);
    let owner = crate::update::marker::marker_at(paths.primary);
    let all = seq![manifest, detached, owner];
    assert(all.skip(1) =~= seq![detached, owner]);
    assert(all.skip(1).skip(1) =~= seq![owner]);
    assert(all.skip(1).skip(1).skip(1) =~= Seq::<Seq<u8>>::empty());
}

} // verus!
