//! What an adoption makes of a loose pair of executables.
use crate::outside::sha256_of;
use crate::path::{joined, renamed};
use crate::text::utf8;
use crate::update::adoption::{adopt_files_at, marker_for_at, protect_at};
use crate::update::discover::{cargo_owned_at, discover_at, in_cellar, marker_proves_at, resolve_at};
use crate::update::intact::{lemma_reads_untouched, touches, untouched};
use crate::update::io::IoEvent;
use crate::update::laws::{
    lemma_cargo_owned_reads, lemma_discover_reads, lemma_marker_reads,
    lemma_proves_standalone_reads, position, reads,
};
use crate::update::marker::{
    digest_of, law_hex_tells_apart, manifest_at, marker_at, marker_json, signature_at,
    version_like,
};
use crate::update::model::{pair_of, Installer, MarkerView, PairView, REPOSITORY};
use crate::update::service::{
    adopted_at, lock_of, proves_standalone_at, reads_back, run_at, sidecar_exists_at, take_lock_at,
    At, RequestView, Trace,
};
use vstd::prelude::*;
use vstd::utf8::{
    decode_utf8, encode_utf8_decode_utf8, encode_utf8_valid_utf8, is_ascii_chars,
    is_ascii_chars_encode_utf8, valid_utf8,
};

verus! {

// ---------------------------------------------------------------------------
// What the machine holds
// ---------------------------------------------------------------------------

/// What the file at `path` holds, where it is there.
pub open spec fn found(files: Map<Seq<u8>, Seq<u8>>, path: Seq<u8>) -> Option<Seq<u8>> {
    if files.dom().contains(path) {
        Some(files[path])
    } else {
        None
    }
}

/// A call and its answer fit the files before and after it: only the files
/// that it names may change, what was written is there, and what is read is
/// what is there.
pub open spec fn reflects(
    e: IoEvent,
    before: Map<Seq<u8>, Seq<u8>>,
    after: Map<Seq<u8>, Seq<u8>>,
) -> bool {
    &&& forall|p: Seq<u8>| !touches(e, p) ==> #[trigger] found(after, p) == found(before, p)
    &&& match e {
        IoEvent::WriteFile(p, bytes, Ok(_)) => found(after, p) == Some(bytes),
        IoEvent::SetOwnerOnly(p, _) => found(after, p) == found(before, p),
        IoEvent::ReadFile(p, r) => match found(before, p) {
            Some(bytes) => r == Ok::<Seq<u8>, crate::update::model::IoErrorView>(bytes),
            None => r is Err,
        },
        IoEvent::ReadString(p, r) => match found(before, p) {
            Some(bytes) => if valid_utf8(bytes) {
                r == Ok::<Seq<char>, crate::update::model::IoErrorView>(decode_utf8(bytes))
            } else {
                r is Err
            },
            None => r is Err,
        },
        IoEvent::IsFile(p, there) => there == (found(before, p) is Some),
        _ => true,
    }
}

/// From `i` to `j`, `disk` says which files are there at each position of the
/// log, and what they hold.
pub open spec fn mirrors(
    l: Seq<IoEvent>,
    i: int,
    j: int,
    disk: spec_fn(int) -> Map<Seq<u8>, Seq<u8>>,
) -> bool {
    forall|k: int| i <= k < j ==> reflects(#[trigger] l[k], disk(k), disk(k + 1))
}

proof fn lemma_kept(
    l: Seq<IoEvent>,
    i: int,
    j: int,
    disk: spec_fn(int) -> Map<Seq<u8>, Seq<u8>>,
    path: Seq<u8>,
)
    requires
        0 <= i <= j,
        untouched(l, i, j, path),
        mirrors(l, i, j, disk),
    ensures
        found(disk(j), path) == found(disk(i), path),
    decreases j - i,
{
    if i < j {
        assert(!touches(l[j - 1], path));
        assert(untouched(l, i, j - 1, path));
        lemma_kept(l, i, j - 1, disk, path);
        assert(reflects(l[j - 1], disk(j - 1), disk((j - 1) + 1)));
    }
}

// ---------------------------------------------------------------------------
// The files beside the executables
// ---------------------------------------------------------------------------

/// Neither executable lies where a sidecar does, and none of these where the
/// lock does.
pub open spec fn lies_apart(paths: PairView) -> bool {
    &&& forall|p: Seq<u8>| #[trigger] is_sidecar(paths, p) ==> p != paths.primary && p
        != paths.secondary
    &&& forall|user: u32|
        {
            let lock = #[trigger] lock_of(user);
            lock != paths.primary && lock != paths.secondary && !is_sidecar(paths, lock)
        }
}

/// `path` is that of a sidecar.
pub open spec fn is_sidecar(paths: PairView, path: Seq<u8>) -> bool {
    ||| path == manifest_at(paths.primary)
    ||| path == signature_at(paths.primary)
    ||| path == marker_at(paths.primary)
}

/// Beside one executable, names of different lengths make different paths.
proof fn lemma_renamed_apart(path: Seq<u8>, a: Seq<u8>, b: Seq<u8>)
    requires
        a.len() > 0,
        b.len() > 0,
        a[0] != crate::path::SLASH,
        b[0] != crate::path::SLASH,
        a.len() != b.len(),
    ensures
        renamed(path, a) != renamed(path, b),
{
    let base = if crate::path::name_of(path) is Some {
        crate::path::parent_of(path)->0
    } else {
        path
    };
    assert(renamed(path, a) == joined(base, a) && renamed(path, b) == joined(base, b));
    assert(joined(base, a).len() - a.len() == joined(base, b).len() - b.len());
}

proof fn lemma_sidecars_apart(primary: Seq<u8>)
    ensures
        manifest_at(primary) != signature_at(primary),
        manifest_at(primary) != marker_at(primary),
        signature_at(primary) != marker_at(primary),
{
    reveal_strlit(".ramiz-owner.json");
    reveal_strlit(".ramiz-checksums.txt");
    reveal_strlit(".ramiz-checksums.txt.minisig");
    let (owner, manifest, signature) = (
        ".ramiz-owner.json"@,
        ".ramiz-checksums.txt"@,
        ".ramiz-checksums.txt.minisig"@,
    );
    assert(is_ascii_chars(owner) && is_ascii_chars(manifest) && is_ascii_chars(signature));
    is_ascii_chars_encode_utf8(owner);
    is_ascii_chars_encode_utf8(manifest);
    is_ascii_chars_encode_utf8(signature);
    assert(utf8(owner)[0] == owner[0] as u8);
    assert(utf8(manifest)[0] == manifest[0] as u8);
    assert(utf8(signature)[0] == signature[0] as u8);
    lemma_renamed_apart(primary, utf8(manifest), utf8(signature));
    lemma_renamed_apart(primary, utf8(manifest), utf8(owner));
    lemma_renamed_apart(primary, utf8(signature), utf8(owner));
}

// ---------------------------------------------------------------------------
// What an adoption leaves
// ---------------------------------------------------------------------------

/// Writing the files of an adoption takes six calls.
proof fn lemma_files_end(
    l: Seq<IoEvent>,
    f: int,
    paths: PairView,
    marker: MarkerView,
    trust: (Seq<u8>, Seq<u8>),
)
    requires
        position(l, f),
        adopt_files_at(l, f, paths, marker, trust.0, trust.1).0 is Ok,
        adopt_files_at(l, f, paths, marker, trust.0, trust.1).1 != -1,
    ensures
        0 <= f,
        adopt_files_at(l, f, paths, marker, trust.0, trust.1).1 == f + 6,
{
    reveal_with_fuel(protect_at, 4);
    let (m, d, o) = (
        manifest_at(paths.primary),
        signature_at(paths.primary),
        marker_at(paths.primary),
    );
    assert(seq![m, d, o].skip(1) =~= seq![d, o]);
    assert(seq![d, o].skip(1) =~= seq![o]);
    assert(seq![o].skip(1) =~= Seq::<Seq<u8>>::empty());
}

/// In the six calls from `f` on the three sidecars were written and made
/// private.
proof fn lemma_files_adopted(
    l: Seq<IoEvent>,
    f: int,
    paths: PairView,
    marker: MarkerView,
    trust: (Seq<u8>, Seq<u8>),
    disk: spec_fn(int) -> Map<Seq<u8>, Seq<u8>>,
)
    requires
        0 <= f,
        adopt_files_at(l, f, paths, marker, trust.0, trust.1).0 is Ok,
        adopt_files_at(l, f, paths, marker, trust.0, trust.1).1 != -1,
        mirrors(l, f, f + 6, disk),
        lies_apart(paths),
    ensures
        adopt_files_at(l, f, paths, marker, trust.0, trust.1).1 == f + 6,
        f + 6 <= l.len(),
        untouched(l, f, f + 6, paths.primary),
        untouched(l, f, f + 6, paths.secondary),
        found(disk(f + 6), marker_at(paths.primary)) == Some(utf8(marker_json(marker))),
{
    reveal_with_fuel(protect_at, 4);
    let (m, d, o) = (
        manifest_at(paths.primary),
        signature_at(paths.primary),
        marker_at(paths.primary),
    );
    lemma_sidecars_apart(paths.primary);
    assert(is_sidecar(paths, m) && is_sidecar(paths, d) && is_sidecar(paths, o));
    assert(seq![m, d, o].skip(1) =~= seq![d, o]);
    assert(seq![d, o].skip(1) =~= seq![o]);
    assert(seq![o].skip(1) =~= Seq::<Seq<u8>>::empty());
    assert(l[f] matches IoEvent::WriteFile(p, _, _) && p == m);
    assert(l[f + 1] matches IoEvent::WriteFile(p, _, _) && p == d);
    assert(l[f + 2] matches IoEvent::WriteFile(p, _, Ok(_)) && p == o);
    assert(l[f + 3] matches IoEvent::SetOwnerOnly(p, _) && p == m);
    assert(l[f + 4] matches IoEvent::SetOwnerOnly(p, _) && p == d);
    assert(l[f + 5] matches IoEvent::SetOwnerOnly(p, _) && p == o);
    assert(reflects(l[f + 2], disk(f + 2), disk((f + 2) + 1)));
    assert(reflects(l[f + 3], disk(f + 3), disk((f + 3) + 1)));
    assert(reflects(l[f + 4], disk(f + 4), disk((f + 4) + 1)));
    assert(reflects(l[f + 5], disk(f + 5), disk((f + 5) + 1)));
    assert(!touches(l[f + 3], o) && !touches(l[f + 4], o));
    assert(found(disk(f + 3), o) == Some(utf8(marker_json(marker))));
    assert(found(disk(f + 4), o) == found(disk(f + 3), o));
    assert(found(disk(f + 5), o) == found(disk(f + 4), o));
}

/// After an adoption the marker that was written is there, and records the
/// digests of the executables that are there.
proof fn lemma_adopted(
    t: Trace,
    c: At,
    host: Seq<char>,
    request: RequestView,
    disk: spec_fn(int) -> Map<Seq<u8>, Seq<u8>>,
)
    requires
        position(t.io, c.io),
        request.adopt,
        !request.check,
        run_at(t, c, host, request).0 is Ok,
        run_at(t, c, host, request).1.io != -1,
        lies_apart(pair_of(request.executable)),
        mirrors(t.io, c.io, run_at(t, c, host, request).1.io, disk),
    ensures
        discover_at(t.io, c.io, pair_of(request.executable), host).0 == Installer::Unknown,
        discover_at(t.io, c.io, pair_of(request.executable), host).1 != -1,
        adopted_at(t, c, host, request).0 is Ok,
        ({
            let paths = pair_of(request.executable);
            let marker = adopted_at(t, c, host, request).0->Ok_0.0;
            let left = disk(run_at(t, c, host, request).1.io);
            &&& marker.repository == REPOSITORY@
            &&& marker.version == request.current_version
            &&& found(left, marker_at(paths.primary)) == Some(utf8(marker_json(marker)))
            &&& found(left, paths.primary) matches Some(bytes) && marker.primary_sha256
                == digest_of(bytes)
            &&& found(left, paths.secondary) matches Some(bytes) && marker.secondary_sha256
                == digest_of(bytes)
        }),
{
    let l = t.io;
    let paths = pair_of(request.executable);
    let current = request.current_version;
    let end = run_at(t, c, host, request).1.io;
    lemma_discover_reads(l, c.io, paths, host);
    let (installer, i) = discover_at(l, c.io, paths, host);
    let c1 = c.io_at(i);
    let (conflict, j) = sidecar_exists_at(l, i, paths.primary);
    assert(reads(l, i, j));
    let c2 = c1.io_at(j);
    lemma_proves_standalone_reads(t, c2, host, current, paths);
    let (proven, c3) = proves_standalone_at(t, c2, host, current, paths);
    let (lock, b) = take_lock_at(l, c3.io);
    let c4 = c3.io_at(b);
    lemma_discover_reads(l, b, paths, host);
    let (owner, a) = discover_at(l, b, paths, host);
    let c5 = c4.io_at(a);
    lemma_proves_standalone_reads(t, c5, host, current, paths);
    let (again, c6) = proves_standalone_at(t, c5, host, current, paths);
    let (trust, p) = crate::update::io::trust_material_at(t.provider, c6.provider);
    let trust = trust->0;
    let (marker, f) = marker_for_at(l, c6.io, paths, current, host, trust.0);
    let marker = marker->Ok_0;
    let (r, g) = adopt_files_at(l, f, paths, marker, trust.0, trust.1);
    assert(end == g + 1);
    lemma_files_end(l, f, paths, marker, trust);
    assert(f == c6.io + 2);
    assert(0 <= c.io <= i <= j <= c3.io <= b <= a <= c6.io);
    let (bytes, other) = (l[c6.io]->ReadFile_1->Ok_0, l[c6.io + 1]->ReadFile_1->Ok_0);
    assert(l[f - 2] == IoEvent::ReadFile(paths.primary, Ok(bytes)));
    assert(l[f - 1] == IoEvent::ReadFile(paths.secondary, Ok(other)));
    lemma_files_adopted(l, f, paths, marker, trust, disk);
    assert(l[g] matches IoEvent::ReleaseLock(p, _) && p == lock->Ok_0);
    assert(reflects(l[f - 2], disk(f - 2), disk((f - 2) + 1)));
    assert(reflects(l[f - 1], disk(f - 1), disk((f - 1) + 1)));
    assert(reflects(l[g], disk(g), disk(g + 1)));
    lemma_kept(l, f, g, disk, paths.primary);
    lemma_kept(l, f, g, disk, paths.secondary);
    assert(!touches(l[f - 2], paths.primary) && !touches(l[f - 1], paths.primary));
    assert(!touches(l[f - 1], paths.secondary));
    assert(found(disk(f - 1), paths.primary) == found(disk(f - 2), paths.primary));
    assert(found(disk(f), paths.primary) == found(disk(f - 1), paths.primary));
    assert(found(disk(f), paths.secondary) == found(disk(f - 1), paths.secondary));
    assert(found(disk(g + 1), paths.primary) == found(disk(g), paths.primary));
    assert(found(disk(g + 1), paths.secondary) == found(disk(g), paths.secondary));
    assert(found(disk(g + 1), marker_at(paths.primary)) == found(
        disk(g),
        marker_at(paths.primary),
    ));
}

// ---------------------------------------------------------------------------
// The law
// ---------------------------------------------------------------------------

/// A package manager owns the installation.
pub open spec fn managed_at(l: Seq<IoEvent>, i: int, paths: PairView, host: Seq<char>) -> bool {
    let (resolved, i) = resolve_at(l, i, paths.primary);
    in_cellar(resolved) || cargo_owned_at(l, i, paths.primary, resolved, host).0
}

/// Two files are there and have the same SHA-256 digest.
pub open spec fn same_digest(a: Option<Seq<u8>>, b: Option<Seq<u8>>) -> bool {
    match (a, b) {
        (Some(x), Some(y)) => sha256_of(x) == sha256_of(y),
        _ => false,
    }
}

/// The installation is as an adoption left it: the manifest and its signature
/// are there, and both executables have the digests that they had.
pub open spec fn is_whole(
    left: Map<Seq<u8>, Seq<u8>>,
    now: Map<Seq<u8>, Seq<u8>>,
    paths: PairView,
) -> bool {
    &&& found(now, manifest_at(paths.primary)) is Some
    &&& found(now, signature_at(paths.primary)) is Some
    &&& same_digest(found(left, paths.primary), found(now, paths.primary))
    &&& same_digest(found(left, paths.secondary), found(now, paths.secondary))
}

/// What a marker proves of the files that are there.
proof fn lemma_marker_weighed(
    l: Seq<IoEvent>,
    i: int,
    marker: MarkerView,
    paths: PairView,
    left: Map<Seq<u8>, Seq<u8>>,
    disk: spec_fn(int) -> Map<Seq<u8>, Seq<u8>>,
)
    requires
        position(l, i),
        marker.repository == REPOSITORY@,
        version_like(marker.version),
        found(left, paths.primary) matches Some(bytes) && marker.primary_sha256 == digest_of(bytes),
        found(left, paths.secondary) matches Some(bytes) && marker.secondary_sha256 == digest_of(
            bytes,
        ),
        marker_proves_at(l, i, marker, paths).1 != -1,
        mirrors(l, i, marker_proves_at(l, i, marker, paths).1, disk),
    ensures
        marker_proves_at(l, i, marker, paths).0 == is_whole(left, disk(i), paths),
{
    let (proven, end) = marker_proves_at(l, i, marker, paths);
    let (m, d) = (manifest_at(paths.primary), signature_at(paths.primary));
    assert(0 <= i < end <= l.len());
    lemma_marker_reads(l, i, marker, paths);
    assert(reflects(l[i], disk(i), disk(i + 1)));
    if i + 1 < end {
        lemma_all_kept(l, i, i + 1, disk);
        assert(reflects(l[i + 1], disk(i + 1), disk((i + 1) + 1)));
        assert(found(disk(i + 1), d) == found(disk(i), d));
    }
    if i + 2 < end {
        lemma_all_kept(l, i, i + 2, disk);
        assert(reflects(l[i + 2], disk(i + 2), disk((i + 2) + 1)));
        assert(found(disk(i + 2), paths.primary) == found(disk(i), paths.primary));
    }
    if i + 3 < end {
        lemma_all_kept(l, i, i + 3, disk);
        assert(reflects(l[i + 3], disk(i + 3), disk((i + 3) + 1)));
        assert(found(disk(i + 3), paths.secondary) == found(disk(i), paths.secondary));
        let (x, y) = (found(left, paths.primary)->0, found(disk(i), paths.primary)->0);
        if digest_of(x) == digest_of(y) {
            law_hex_tells_apart(sha256_of(x), sha256_of(y));
        }
        let (x, y) = (found(left, paths.secondary)->0, found(disk(i), paths.secondary)->0);
        if digest_of(x) == digest_of(y) {
            law_hex_tells_apart(sha256_of(x), sha256_of(y));
        }
    }
}

/// Discovery after an adoption gives a standalone installation as long as it
/// is whole. Once the manifest or its signature is gone, or an executable is
/// gone or, SHA-256 collisions aside, changed, it gives an unknown one. That
/// holds whatever else happened in between, as long as the marker that was
/// written is still there and no package manager took the installation over.
/// It needs the executables to lie apart from the sidecars and the lock, as
/// they do under their ordinary names, and that the marker which the adoption
/// wrote reads back, as every adoption promises of its own.
#[verifier::spinoff_prover]
#[verifier::rlimit(80)]
pub proof fn law_adopted_pair_is_discovered(
    t: Trace,
    c: At,
    host: Seq<char>,
    request: RequestView,
    j: int,
    disk: spec_fn(int) -> Map<Seq<u8>, Seq<u8>>,
)
    requires
        position(t.io, c.io),
        request.adopt,
        !request.check,
        run_at(t, c, host, request).0 is Ok,
        run_at(t, c, host, request).1.io != -1,
        reads_back(adopted_at(t, c, host, request).0),
        version_like(request.current_version),
        lies_apart(pair_of(request.executable)),
        mirrors(t.io, c.io, run_at(t, c, host, request).1.io, disk),
        run_at(t, c, host, request).1.io <= j,
        discover_at(t.io, j, pair_of(request.executable), host).1 != -1,
        mirrors(t.io, j, discover_at(t.io, j, pair_of(request.executable), host).1, disk),
        found(disk(j), marker_at(pair_of(request.executable).primary)) == found(
            disk(run_at(t, c, host, request).1.io),
            marker_at(pair_of(request.executable).primary),
        ),
        managed_at(t.io, j, pair_of(request.executable), host) == managed_at(
            t.io,
            c.io,
            pair_of(request.executable),
            host,
        ),
    ensures
        discover_at(t.io, j, pair_of(request.executable), host).0 == (if is_whole(
            disk(run_at(t, c, host, request).1.io),
            disk(j),
            pair_of(request.executable),
        ) {
            Installer::Standalone
        } else {
            Installer::Unknown
        }),
{
    let l = t.io;
    let paths = pair_of(request.executable);
    let left = disk(run_at(t, c, host, request).1.io);
    let marker = adopted_at(t, c, host, request).0->Ok_0.0;
    lemma_adopted(t, c, host, request, disk);
    reveal(discover_at);
    let (installer, end) = discover_at(l, j, paths, host);
    assert(!managed_at(l, c.io, paths, host));
    let (resolved, a) = resolve_at(l, j, paths.primary);
    let (cargo, b) = cargo_owned_at(l, a, paths.primary, resolved, host);
    lemma_cargo_owned_reads(l, a, paths.primary, resolved, host);
    assert(reads(l, j, a) && reads(l, a, b));
    let (read, k) = crate::update::discover::read_marker_at(l, b, paths.primary);
    lemma_marker_reads(l, k, read->0, paths);
    assert(0 <= j <= a <= b < k <= end);
    lemma_all_kept(l, j, b, disk);
    assert(reflects(l[b], disk(b), disk(b + 1)));
    assert(found(disk(b), marker_at(paths.primary)) == Some(utf8(marker_json(marker))));
    encode_utf8_valid_utf8(marker_json(marker));
    encode_utf8_decode_utf8(marker_json(marker));
    assert(read == Some(marker));
    lemma_marker_weighed(l, k, marker, paths, left, disk);
    lemma_all_kept(l, j, k, disk);
    assert(is_whole(left, disk(k), paths) == is_whole(left, disk(j), paths)) by {
        assert(found(disk(k), manifest_at(paths.primary)) == found(
            disk(j),
            manifest_at(paths.primary),
        ));
        assert(found(disk(k), signature_at(paths.primary)) == found(
            disk(j),
            signature_at(paths.primary),
        ));
        assert(found(disk(k), paths.primary) == found(disk(j), paths.primary));
        assert(found(disk(k), paths.secondary) == found(disk(j), paths.secondary));
    }
}

/// While calls only look, every file holds what it held.
proof fn lemma_all_kept(
    l: Seq<IoEvent>,
    i: int,
    j: int,
    disk: spec_fn(int) -> Map<Seq<u8>, Seq<u8>>,
)
    requires
        0 <= i <= j,
        reads(l, i, j),
        mirrors(l, i, j, disk),
    ensures
        forall|p: Seq<u8>| #[trigger] found(disk(j), p) == found(disk(i), p),
{
    assert forall|p: Seq<u8>| #[trigger] found(disk(j), p) == found(disk(i), p) by {
        lemma_reads_untouched(l, i, j, p);
        lemma_kept(l, i, j, disk, p);
    }
}

} // verus!
