//! What a whole update applies is what it tells of.
use crate::path::{joined, name_of, renamed, steps};
use crate::text::{decimal, utf8};
use crate::update::activation::{activate_at, swap_at};
use crate::update::discover::{cargo_place, discover_at, install_root_at, resolve_at};
use crate::update::io::{latest_at, validate_at, IoEvent, ProviderEvent};
use crate::update::laws::{lemma_discover_reads, lemma_prepared_reads, position};
use crate::update::model::{
    pair_of, CommandView, Installer, MarkerView, MetadataView, PairView, ReleaseView, ResultView,
};
use crate::update::records::record_present_at;
use crate::update::service::{
    cargo_checked_at, fresh_result, local_material_at, pair_present_at, prepared_at, run_at, standalone_update_at, take_lock_at, At,
    RequestView, Trace,
};
use crate::update::told::{
    installed_at, installs, law_activation_puts_each_executable_in_its_place,
    lemma_commanded, lemma_swapped, law_cargo_installs_the_new_version,
    law_run_tells_what_was_done, law_standalone_update_installs_the_verified_release, newest_was,
    put_in_place, release_verified,
};
use crate::update::transaction::{capture_pair_at, PairState};
use vstd::prelude::*;

verus! {

/// The two executables that a result is about.
pub open spec fn both_of(result: ResultView) -> PairView {
    PairView { primary: result.executable, secondary: result.secondary_executable }
}

/// At `j` it was asked where Cargo installs, and it is below `root`.
pub open spec fn cargo_installs_below(l: Seq<IoEvent>, j: int, root: Seq<u8>) -> bool {
    exists|home: Seq<u8>|
        {
            &&& #[trigger] cargo_lives(l, j, home)
            &&& l[j + 1] == IoEvent::CargoInstallRoot(Some(root)) || (l[j + 1]
                == IoEvent::CargoInstallRoot(None) && root == home)
        }
}

/// At `j` it was asked where Cargo's home is.
pub open spec fn cargo_lives(l: Seq<IoEvent>, j: int, home: Seq<u8>) -> bool {
    0 <= j && j + 1 < l.len() && l[j] == IoEvent::CargoHome(Some(home))
}

/// What `path` was found to be at `k`.
pub open spec fn found_at(l: Seq<IoEvent>, k: int, path: Seq<u8>) -> Seq<u8> {
    match l[k] {
        IoEvent::Canonicalize(_, Ok(whole)) => whole,
        _ => path,
    }
}

/// An installation is updated by Cargo only where the executable lies in the
/// `bin` directory of the root that Cargo installs below, both executables are
/// there, and the root is the one that Cargo names.
pub proof fn law_cargo_root_holds_the_executable(
    l: Seq<IoEvent>,
    i: int,
    host: Seq<char>,
    current: Seq<char>,
    paths: PairView,
)
    requires
        position(l, i),
        cargo_checked_at(l, i, host, current, paths).0 is Ok,
        cargo_checked_at(l, i, host, current, paths).1 != -1,
    ensures
        ({
            let root = cargo_checked_at(l, i, host, current, paths).0->Ok_0;
            let j = cargo_checked_at(l, i, host, current, paths).1;
            let place = joined(
                joined(root, utf8("bin"@)),
                if name_of(paths.primary) is Some {
                    name_of(paths.primary)->Some_0
                } else {
                    Seq::empty()
                },
            );
            &&& cargo_installs_below(l, i, root)
            &&& l[i + 2] matches IoEvent::Canonicalize(path, _) && path == paths.primary
            &&& l[i + 3] matches IoEvent::Canonicalize(path, _) && path == place
            &&& steps(found_at(l, i + 2, paths.primary)) == steps(found_at(l, i + 3, place))
            &&& i + 4 <= j - 2
            &&& j <= l.len()
            &&& l[j - 2] == IoEvent::IsFile(paths.primary, true)
            &&& l[j - 1] == IoEvent::IsFile(paths.secondary, true)
        }),
{
    let (root, a) = install_root_at(l, i);
    let root = root->Some_0;
    let (primary, b) = resolve_at(l, a, paths.primary);
    let (expected, d) = resolve_at(l, b, cargo_place(root, paths.primary));
    let (proven, e) = record_present_at(l, d, root, Some(current), host);
    assert(e == -1 || (d != -1 && d <= e <= l.len())) by {
        reveal(record_present_at);
    }
    let (present, f) = pair_present_at(l, e, paths);
    assert(f == -1 || (e != -1 && f == e + 2));
    assert(d == i + 4);
    assert(cargo_lives(l, i, (l[i]->CargoHome_0)->Some_0));
}

/// From `j` to `k` Cargo named `root`, and `command` then installed there the
/// version that `result` reports, which both executables showed.
pub open spec fn was_installed(
    l: Seq<IoEvent>,
    j: int,
    k: int,
    root: Seq<u8>,
    binstall: bool,
    command: CommandView,
    result: ResultView,
) -> bool {
    let version = result.target_version->Some_0;
    &&& cargo_installs_below(l, j, root)
    &&& j < k
    &&& installs(command, binstall, version, root)
    &&& installed_at(l, k, command, both_of(result), version)
    &&& result.commands =~= seq![command]
}

/// An update by Cargo that was applied installed the version that is reported,
/// below the root that Cargo names, by the one command that is reported; and
/// both executables that are reported then showed that version.
pub proof fn law_cargo_run_installs_what_it_tells(
    t: Trace,
    c: At,
    host: Seq<char>,
    request: RequestView,
)
    requires
        position(t.io, c.io),
        !request.check,
        !request.adopt,
        run_at(t, c, host, request).0 matches Ok(result) && result.applied && result.installer
            == Installer::Cargo,
        run_at(t, c, host, request).1.io != -1,
        run_at(t, c, host, request).1.provider != -1,
    ensures
        exists|root: Seq<u8>, binstall: bool, command: CommandView, j: int, k: int| #[trigger]
            was_installed(
                t.io,
                j,
                k,
                root,
                binstall,
                command,
                run_at(t, c, host, request).0->Ok_0,
            ),
{
    let paths = pair_of(request.executable);
    let current = request.current_version;
    let result = run_at(t, c, host, request).0->Ok_0;
    let (installer, i) = discover_at(t.io, c.io, paths, host);
    lemma_discover_reads(t.io, c.io, paths, host);
    law_run_tells_what_was_done(t, c, host, request);
    lemma_installer_stands(t, c, host, request);
    assert(installer == Installer::Cargo);
    let (root, a) = cargo_checked_at(t.io, i, host, current, paths);
    let root = root->Ok_0;
    let metadata = (t.provider[c.provider]->Latest_1)->Ok_0;
    let version = metadata.version;
    let fresh = fresh_result(
        current,
        paths,
        Installer::Cargo,
        version,
        true,
    );
    assert(position(t.io, a)) by {
        reveal(record_present_at);
    }
    law_cargo_installs_the_new_version(t.io, a, host, current, paths, root, version, fresh);
    law_cargo_root_holds_the_executable(t.io, i, host, current, paths);
    lemma_commanded(t.io, a, host, current, paths, root, version, fresh);
    assert(both_of(result) == paths);
    let (binstall, command, k) = choose|binstall: bool, command: CommandView, k: int|
        #[trigger] installs(command, binstall, version, root) && a < k && #[trigger] installed_at(
            t.io,
            k,
            command,
            paths,
            version,
        ) && result.commands == fresh.commands.push(command);
    assert(was_installed(t.io, i, k, root, binstall, command, result));
}

/// From `j` on what proves a standalone installation was read beside
/// `executable`: the signed manifest and its signature.
pub open spec fn proof_read(
    l: Seq<IoEvent>,
    j: int,
    executable: Seq<u8>,
    checksums: Seq<u8>,
    signature: Seq<u8>,
) -> bool {
    &&& l[j] == IoEvent::IsFile(renamed(executable, utf8(".ramiz-owner.json"@)), true)
    &&& l[j + 1] == IoEvent::IsFile(renamed(executable, utf8(".ramiz-checksums.txt"@)), true)
    &&& l[j + 2] == IoEvent::IsFile(
        renamed(executable, utf8(".ramiz-checksums.txt.minisig"@)),
        true,
    )
    &&& l[j + 3] matches IoEvent::ReadString(path, Ok(_)) && path == renamed(
        executable,
        utf8(".ramiz-owner.json"@),
    )
    &&& l[j + 4] == IoEvent::ReadFile(
        renamed(executable, utf8(".ramiz-checksums.txt"@)),
        Ok(checksums),
    )
    &&& l[j + 5] == IoEvent::ReadFile(
        renamed(executable, utf8(".ramiz-checksums.txt.minisig"@)),
        Ok(signature),
    )
}

/// At `p` the provider vouched that the manifest with its signature is of the
/// release of that version for that platform.
pub open spec fn vouched(
    l: Seq<ProviderEvent>,
    p: int,
    checksums: Seq<u8>,
    signature: Seq<u8>,
    version: Seq<char>,
    host: Seq<char>,
) -> bool {
    l[p] matches ProviderEvent::ValidateLocalMaterial(a, b, v, h, Ok(_)) && a == checksums && b
        == signature && v == version && h == host
}

/// What proves the installation was read from `j` on and vouched for; then the
/// newest release was downloaded and verified, and it was put in place from `k`
/// to `e` as the version that `result` reports.
pub open spec fn was_replaced(
    t: Trace,
    c: At,
    j: int,
    k: int,
    e: int,
    host: Seq<char>,
    local: (Seq<u8>, Seq<u8>),
    metadata: MetadataView,
    release: ReleaseView,
    trust: (Seq<u8>, Seq<u8>),
    result: ResultView,
) -> bool {
    let current = result.current_version;
    &&& proof_read(t.io, j, result.executable, local.0, local.1)
    &&& vouched(t.provider, c.provider, local.0, local.1, current, host)
    &&& newest_was(t.provider, c.provider + 1, host, metadata)
    &&& metadata.signature_verified
    &&& vouched(t.provider, c.provider + 2, local.0, local.1, current, host)
    &&& t.provider[c.provider + 3] == ProviderEvent::Download(metadata, Ok(release))
    &&& release_verified(t, c.verifier, metadata, release)
    &&& t.provider[c.provider + 4] == ProviderEvent::TrustMaterial(Some(trust))
    &&& result.target_version == Some(metadata.version)
    &&& put_in_place(t.io, k, e, host, both_of(result), metadata.version, release, trust)
}

/// A standalone update that was applied put in place the release that is
/// reported: the newest one, downloaded as such and verified. Before that, the
/// manifest and the signature beside the executable were vouched for as those
/// of the version that runs.
pub proof fn law_standalone_run_installs_what_it_tells(
    t: Trace,
    c: At,
    host: Seq<char>,
    request: RequestView,
)
    requires
        position(t.io, c.io),
        !request.check,
        !request.adopt,
        run_at(t, c, host, request).0 matches Ok(result) && result.applied && result.installer
            == Installer::Standalone,
        run_at(t, c, host, request).1.io != -1,
        run_at(t, c, host, request).1.provider != -1,
        run_at(t, c, host, request).1.verifier != -1,
    ensures
        exists|
            j: int,
            k: int,
            checksums: Seq<u8>,
            signature: Seq<u8>,
            metadata: MetadataView,
            release: ReleaseView,
            trust: (Seq<u8>, Seq<u8>),
        |
            #[trigger] was_replaced(
                t,
                c,
                j,
                k,
                run_at(t, c, host, request).1.io - 1,
                host,
                (checksums, signature),
                metadata,
                release,
                trust,
                run_at(t, c, host, request).0->Ok_0,
            ),
{
    let paths = pair_of(request.executable);
    let current = request.current_version;
    let result = run_at(t, c, host, request).0->Ok_0;
    let (installer, i) = discover_at(t.io, c.io, paths, host);
    lemma_discover_reads(t.io, c.io, paths, host);
    law_run_tells_what_was_done(t, c, host, request);
    lemma_installer_stands(t, c, host, request);
    assert(installer == Installer::Standalone);
    let (local, a) = local_material_at(t.io, i, host, current, paths);
    let local = local->Ok_0;
    let metadata = (t.provider[c.provider + 1]->Latest_1)->Ok_0;
    let fresh = fresh_result(
        current,
        paths,
        Installer::Standalone,
        metadata.version,
        true,
    );
    let c2 = At { io: a, provider: c.provider + 2, verifier: c.verifier };
    assert(run_at(t, c, host, request) == standalone_update_at(
        t,
        c2,
        host,
        paths,
        local,
        metadata,
        fresh,
    ));
    assert(position(t.io, a));
    lemma_lost_update(t, c2, host, paths, local, metadata, fresh);
    assert(a != -1);
    assert(proof_read(t.io, i, paths.primary, local.1, local.2));
    law_standalone_update_installs_the_verified_release(
        t,
        c2,
        host,
        paths,
        local,
        metadata,
        fresh,
    );
    assert(both_of(result) == paths);
    lemma_swapped(t, c2, host, paths, local, metadata, fresh);
    let e = run_at(t, c, host, request).1.io - 1;
    let (release, trust, k) = choose|release: ReleaseView, trust: (Seq<u8>, Seq<u8>), k: int|
        {
            &&& t.provider[c2.provider + 1] == ProviderEvent::Download(metadata, Ok(release))
            &&& release_verified(t, c2.verifier, metadata, release)
            &&& t.provider[c2.provider + 2] == ProviderEvent::TrustMaterial(Some(trust))
            &&& #[trigger] put_in_place(
                t.io,
                k,
                e,
                host,
                paths,
                metadata.version,
                release,
                trust,
            )
        };
    assert(was_replaced(
        t,
        c,
        i,
        k,
        e,
        host,
        (local.1, local.2),
        metadata,
        release,
        trust,
        result,
    ));
}

proof fn lemma_lost_update(
    t: Trace,
    c: At,
    host: Seq<char>,
    paths: PairView,
    local: (MarkerView, Seq<u8>, Seq<u8>),
    metadata: MetadataView,
    result: ResultView,
)
    requires
        position(t.io, c.io),
        standalone_update_at(t, c, host, paths, local, metadata, result).0 is Ok,
        standalone_update_at(t, c, host, paths, local, metadata, result).1.io != -1,
        standalone_update_at(t, c, host, paths, local, metadata, result).1.provider != -1,
    ensures
        0 <= c.io,
        vouched(t.provider, c.provider, local.1, local.2, local.0.version, local.0.host),
{
    let (lock, i) = take_lock_at(t.io, c.io);
    let c1 = c.io_at(i);
    assert(position(t.io, i));
    lemma_prepared_reads(t, c1, host, paths, local, metadata);
    let (prepared, c2) = prepared_at(t, c1, host, paths, local, metadata);
    let (release, trust) = prepared->Ok_0;
    let (pair, k) = capture_pair_at(t.io, c2.io, paths, metadata.version);
    law_activation_puts_each_executable_in_its_place(
        t.io,
        k,
        host,
        pair->Ok_0,
        release,
        trust,
        result,
    );
}

proof fn lemma_installer_stands(t: Trace, c: At, host: Seq<char>, request: RequestView)
    requires
        !request.check,
        !request.adopt,
        run_at(t, c, host, request).0 is Ok,
    ensures
        run_at(t, c, host, request).0->Ok_0.installer == discover_at(
            t.io,
            c.io,
            pair_of(request.executable),
            host,
        ).0,
{
    let paths = pair_of(request.executable);
    let current = request.current_version;
    let (installer, i) = discover_at(t.io, c.io, paths, host);
    let c1 = c.io_at(i);
    if installer == Installer::Cargo {
        let (root, a) = cargo_checked_at(t.io, i, host, current, paths);
        let (answer, p) = latest_at(t.provider, c.provider, host);
        let metadata = answer->Ok_0;
        lemma_commanded(
            t.io,
            a,
            host,
            current,
            paths,
            root->Ok_0,
            metadata.version,
            fresh_result(current, paths, Installer::Cargo, metadata.version, true),
        );
    } else if installer == Installer::Standalone {
        let (local, a) = local_material_at(t.io, i, host, current, paths);
        let local = local->Ok_0;
        let (valid, p) = validate_at(
            t.provider,
            c.provider,
            local.1,
            local.2,
            local.0.version,
            local.0.host,
        );
        let (answer, q) = latest_at(t.provider, p, host);
        let metadata = answer->Ok_0;
        lemma_swapped(
            t,
            c.io_at(a).provider_at(q),
            host,
            paths,
            local,
            metadata,
            fresh_result(current, paths, Installer::Standalone, metadata.version, true),
        );
    }
}

/// A file was removed.
pub open spec fn removed(e: IoEvent, path: Seq<u8>) -> bool {
    e matches IoEvent::RemoveFile(p, Ok(_)) && p == path
}

/// An activation that succeeded leaves nothing of its own behind: the old
/// executables that were moved aside and whatever was staged are removed.
pub proof fn law_activation_leaves_nothing_behind(
    l: Seq<IoEvent>,
    i: int,
    host: Seq<char>,
    p: PairState,
    release: ReleaseView,
    trust: (Seq<u8>, Seq<u8>),
    result: ResultView,
)
    requires
        position(l, i),
        activate_at(l, i, host, p, release, trust, result).0 is Ok,
        activate_at(l, i, host, p, release, trust, result).1 != -1,
    ensures
        ({
            let j = activate_at(l, i, host, p, release, trust, result).1;
            &&& 0 <= i < j - 4
            &&& j <= l.len()
            &&& removed(l[j - 4], p.backup.primary)
            &&& removed(l[j - 3], p.backup.secondary)
            &&& removed(l[j - 2], p.stage.primary)
            &&& removed(l[j - 1], p.stage.secondary)
        }),
{
    law_activation_puts_each_executable_in_its_place(l, i, host, p, release, trust, result);
    reveal(activate_at);
    reveal(swap_at);
}

/// An update runs under a lock that is the user's own: another user's updates
/// are not in its way, and every update of one user takes the same one.
pub proof fn law_lock_is_the_users_own(l: Seq<IoEvent>, i: int)
    requires
        take_lock_at(l, i).0 is Ok,
        take_lock_at(l, i).1 != -1,
    ensures
        0 <= i,
        i + 1 < l.len(),
        l[i] matches IoEvent::EffectiveUser(user) && {
            let lock = utf8("/tmp/ramiz-update-"@ + decimal(user as nat) + ".lock"@);
            &&& take_lock_at(l, i).0->Ok_0 == lock
            &&& l[i + 1] matches IoEvent::AcquireLock(path, Ok(_)) && path == lock
        },
{
}

} // verus!
