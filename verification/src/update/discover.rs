//! Who owns an installation.
use crate::path::{
    component_views, components, file_name, join, joined, name_of, path_starts_with, same_path,
    steps, Component, Step,
};
use crate::text::{begins, copy, same, same_bytes, utf8, utf8_of};
use crate::update::io::{
    canonicalize_at, cargo_home_at, cargo_install_root_at, extends, is_file_at, read_file_at,
    read_string_at, IoEvent, UpdateIo,
};
use crate::update::marker::{
    digest, digest_of, manifest_at, manifest_path, marker_at, marker_of, marker_path,
    parse_marker, safe_version, signature_at, signature_path, version_like,
};
use crate::update::model::{
    BinaryPair, Installer, IoError, IoErrorView, MarkerView, PairView, StandaloneMarker,
    REPOSITORY,
};
use crate::update::records::{cargo_record_present, record_present_at};
use vstd::prelude::*;

verus! {

// ---------------------------------------------------------------------------
// Homebrew
// ---------------------------------------------------------------------------

/// From step `k` on, `Cellar` is followed by `ramiz`. A step after `Cellar` is
/// passed over.
pub open spec fn cellar_from(path: Seq<Step>, k: int) -> bool
    decreases path.len() - k,
{
    if k < 0 || k >= path.len() {
        false
    } else if path[k] == Step::Normal(utf8("Cellar"@)) {
        k + 1 < path.len() && (path[k + 1] == Step::Normal(utf8("ramiz"@)) || cellar_from(
            path,
            k + 2,
        ))
    } else {
        cellar_from(path, k + 1)
    }
}

/// A path below one of Homebrew's cellars, in the one of Ramiz.
pub open spec fn in_cellar(path: Seq<u8>) -> bool {
    &&& begins(steps(path), steps(utf8("/opt/homebrew/Cellar"@))) || begins(
        steps(path),
        steps(utf8("/usr/local/Cellar"@)),
    ) || begins(steps(path), steps(utf8("/home/linuxbrew/.linuxbrew/Cellar"@)))
    &&& cellar_from(steps(path), 0)
}

fn is_named(component: &Component, name: &str) -> (r: bool)
    ensures
        r == (component@ == Step::Normal(utf8(name@))),
{
    match component {
        Component::Normal(bytes) => same_bytes(bytes.as_slice(), utf8_of(name)),
        _ => false,
    }
}

/// `path` lies in Homebrew's cellar of Ramiz.
pub fn is_homebrew_path(path: &[u8]) -> (r: bool)
    ensures
        r == in_cellar(path@),
{
    if !path_starts_with(path, utf8_of("/opt/homebrew/Cellar")) && !path_starts_with(
        path,
        utf8_of("/usr/local/Cellar"),
    ) && !path_starts_with(path, utf8_of("/home/linuxbrew/.linuxbrew/Cellar")) {
        return false;
    }
    let all = components(path);
    let ghost views = component_views(all@);
    let mut k: usize = 0;
    while k < all.len()
        invariant
            views == component_views(all@),
            views == steps(path@),
            begins(steps(path@), steps(utf8("/opt/homebrew/Cellar"@))) || begins(
                steps(path@),
                steps(utf8("/usr/local/Cellar"@)),
            ) || begins(steps(path@), steps(utf8("/home/linuxbrew/.linuxbrew/Cellar"@))),
            cellar_from(views, 0) == cellar_from(views, k as int),
        decreases all@.len() - k,
    {
        assert(views[k as int] == all@[k as int]@);
        if is_named(&all[k], "Cellar") {
            if all.len() - k < 2 {
                return false;
            }
            assert(views[k + 1] == all@[k + 1]@);
            if is_named(&all[k + 1], "ramiz") {
                return true;
            }
            k = k + 2;
        } else {
            k = k + 1;
        }
    }
    false
}

// ---------------------------------------------------------------------------
// Cargo
// ---------------------------------------------------------------------------

/// The answer where there is one, else `fallback`.
pub open spec fn or_else<T>(r: Result<T, IoErrorView>, fallback: T) -> T {
    match r {
        Ok(value) => value,
        Err(_) => fallback,
    }
}

/// The absolute path, or the path itself where that cannot be told.
pub open spec fn resolve_at(l: Seq<IoEvent>, i: int, path: Seq<u8>) -> (Seq<u8>, int) {
    let (r, i) = canonicalize_at(l, i, path);
    (or_else(r, path), i)
}

/// The absolute path of `path`, or `path` itself where that cannot be told.
pub fn resolve<I: UpdateIo>(io: &mut I, path: &[u8]) -> (r: Vec<u8>)
    ensures
        extends(final(io).log(), old(io).log()),
        forall|l: Seq<IoEvent>|
            extends(l, final(io).log()) ==> #[trigger] resolve_at(
                l,
                old(io).log().len() as int,
                path@,
            ) == (r@, final(io).log().len() as int),
{
    match io.canonicalize(path) {
        Ok(resolved) => resolved,
        Err(_) => copy(path),
    }
}

/// Where Cargo installs, if that can be told.
pub open spec fn install_root_at(l: Seq<IoEvent>, i: int) -> (Option<Seq<u8>>, int) {
    let (home, i) = cargo_home_at(l, i);
    match home {
        None => (None, i),
        Some(home) => {
            let (root, i) = cargo_install_root_at(l, i);
            match root {
                Some(root) => (Some(root), i),
                None => (Some(home), i),
            }
        },
    }
}

/// Where Cargo installs, if that can be told.
pub fn install_root<I: UpdateIo>(io: &mut I) -> (r: Option<Vec<u8>>)
    ensures
        extends(final(io).log(), old(io).log()),
        forall|l: Seq<IoEvent>|
            extends(l, final(io).log()) ==> #[trigger] install_root_at(
                l,
                old(io).log().len() as int,
            ) == (
                crate::update::model::bytes_option(r),
                final(io).log().len() as int,
            ),
{
    match io.cargo_home() {
        None => None,
        Some(home) => match io.cargo_install_root() {
            Some(root) => Some(root),
            None => Some(home),
        },
    }
}

/// Where an executable of that name lies when Cargo installed it.
pub open spec fn cargo_place(root: Seq<u8>, executable: Seq<u8>) -> Seq<u8> {
    joined(
        joined(root, utf8("bin"@)),
        match name_of(executable) {
            Some(name) => name,
            None => Seq::empty(),
        },
    )
}

/// Where an executable of that name lies when Cargo installed it below `root`.
pub fn cargo_place_of(root: &[u8], executable: &[u8]) -> (r: Vec<u8>)
    ensures
        r@ == cargo_place(root@, executable@),
{
    let directory = join(root, utf8_of("bin"));
    match file_name(executable) {
        Some(name) => join(directory.as_slice(), name.as_slice()),
        None => {
            let name: Vec<u8> = Vec::new();
            assert(name@ =~= Seq::<u8>::empty());
            join(directory.as_slice(), name.as_slice())
        },
    }
}

/// The executable lies where Cargo installs, and Cargo's records prove it.
#[verifier::opaque]
pub open spec fn cargo_owned_at(
    l: Seq<IoEvent>,
    i: int,
    executable: Seq<u8>,
    resolved: Seq<u8>,
    host: Seq<char>,
) -> (bool, int) {
    let (root, i) = install_root_at(l, i);
    match root {
        None => (false, i),
        Some(root) => {
            let (expected, i) = resolve_at(l, i, cargo_place(root, executable));
            if steps(resolved) == steps(expected) || steps(executable) == steps(expected) {
                record_present_at(l, i, root, None, host)
            } else {
                (false, i)
            }
        },
    }
}

/// `executable` lies where Cargo installs, and Cargo's records prove it.
pub fn cargo_owned<I: UpdateIo>(io: &mut I, executable: &[u8], resolved: &[u8], host: &str) -> (r:
    bool)
    ensures
        extends(final(io).log(), old(io).log()),
        forall|l: Seq<IoEvent>|
            extends(l, final(io).log()) ==> #[trigger] cargo_owned_at(
                l,
                old(io).log().len() as int,
                executable@,
                resolved@,
                host@,
            ) == (r, final(io).log().len() as int),
{
    proof {
        reveal(cargo_owned_at);
    }
    let root = match install_root(io) {
        Some(root) => root,
        None => return false,
    };
    let place = cargo_place_of(root.as_slice(), executable);
    let expected = resolve(io, place.as_slice());
    if same_path(resolved, expected.as_slice()) || same_path(executable, expected.as_slice()) {
        cargo_record_present(io, root.as_slice(), None, host)
    } else {
        false
    }
}

// ---------------------------------------------------------------------------
// Standalone
// ---------------------------------------------------------------------------

/// A marker proves an installation: it is of this repository, the signed
/// manifest lies beside it, and both executables have the digests it records.
pub open spec fn marker_proves_at(l: Seq<IoEvent>, i: int, marker: MarkerView, paths: PairView) -> (
    bool,
    int,
) {
    if marker.repository != REPOSITORY@ || !version_like(marker.version) {
        (false, i)
    } else {
        let (manifest, i) = is_file_at(l, i, manifest_at(paths.primary));
        let (signature, i) = if manifest {
            is_file_at(l, i, signature_at(paths.primary))
        } else {
            (false, i)
        };
        if !signature {
            (false, i)
        } else {
            let (primary, i) = read_file_at(l, i, paths.primary);
            match primary {
                Err(_) => (false, i),
                Ok(primary) => {
                    let (secondary, i) = read_file_at(l, i, paths.secondary);
                    match secondary {
                        Err(_) => (false, i),
                        Ok(secondary) => (
                            digest_of(primary) == marker.primary_sha256 && digest_of(secondary)
                                == marker.secondary_sha256,
                            i,
                        ),
                    }
                },
            }
        }
    }
}

/// `marker` proves the installation of `paths`.
pub fn marker_proves_installation<I: UpdateIo>(
    io: &mut I,
    marker: &StandaloneMarker,
    paths: &BinaryPair,
) -> (r: bool)
    ensures
        extends(final(io).log(), old(io).log()),
        forall|l: Seq<IoEvent>|
            extends(l, final(io).log()) ==> #[trigger] marker_proves_at(
                l,
                old(io).log().len() as int,
                marker@,
                paths@,
            ) == (r, final(io).log().len() as int),
{
    let primary = paths.primary.as_slice();
    if !same(marker.repository.as_str(), REPOSITORY) || !safe_version(marker.version.as_str()) {
        return false;
    }
    if !io.is_file(manifest_path(primary).as_slice()) || !io.is_file(
        signature_path(primary).as_slice(),
    ) {
        return false;
    }
    let primary_bytes = match io.read_file(primary) {
        Ok(bytes) => bytes,
        Err(_) => return false,
    };
    let secondary_bytes = match io.read_file(paths.secondary.as_slice()) {
        Ok(bytes) => bytes,
        Err(_) => return false,
    };
    same(digest(primary_bytes.as_slice()).as_str(), marker.primary_sha256.as_str()) && same(
        digest(secondary_bytes.as_slice()).as_str(),
        marker.secondary_sha256.as_str(),
    )
}

/// The marker beside an executable, where there is a well-formed one.
pub open spec fn read_marker_at(l: Seq<IoEvent>, i: int, executable: Seq<u8>) -> (
    Option<MarkerView>,
    int,
) {
    let (text, i) = read_string_at(l, i, marker_at(executable));
    match text {
        Err(_) => (None, i),
        Ok(text) => (marker_of(text), i),
    }
}

/// The view of an optional marker.
pub open spec fn marker_option(o: Option<StandaloneMarker>) -> Option<MarkerView> {
    match o {
        Some(marker) => Some(marker@),
        None => None,
    }
}

/// The marker beside `executable`, where there is a well-formed one.
pub fn read_marker<I: UpdateIo>(io: &mut I, executable: &[u8]) -> (r: Option<StandaloneMarker>)
    ensures
        extends(final(io).log(), old(io).log()),
        forall|l: Seq<IoEvent>|
            extends(l, final(io).log()) ==> #[trigger] read_marker_at(
                l,
                old(io).log().len() as int,
                executable@,
            ) == (marker_option(r), final(io).log().len() as int),
{
    match io.read_string(marker_path(executable).as_slice()) {
        Err(_) => None,
        Ok(text) => parse_marker(text.as_str()),
    }
}

/// The marker, the manifest and its signature are what they were, and the
/// marker still proves the installation.
#[verifier::opaque]
pub open spec fn unchanged_at(
    l: Seq<IoEvent>,
    i: int,
    paths: PairView,
    marker: MarkerView,
    checksums: Seq<u8>,
    signature: Seq<u8>,
) -> (bool, int) {
    let (current, i) = read_marker_at(l, i, paths.primary);
    match current {
        None => (false, i),
        Some(current) => if current.repository != marker.repository || current.version
            != marker.version || current.host != marker.host {
            (false, i)
        } else {
            let (manifest, i) = read_file_at(l, i, manifest_at(paths.primary));
            if manifest != Ok::<Seq<u8>, IoErrorView>(checksums) {
                (false, i)
            } else {
                let (detached, i) = read_file_at(l, i, signature_at(paths.primary));
                if detached != Ok::<Seq<u8>, IoErrorView>(signature) {
                    (false, i)
                } else {
                    marker_proves_at(l, i, current, paths)
                }
            }
        },
    }
}

/// An answer carries exactly `bytes`.
pub fn answers_bytes(r: &Result<Vec<u8>, IoError>, bytes: &[u8]) -> (same: bool)
    ensures
        same == (crate::update::io::bytes_answer(*r) == Ok::<Seq<u8>, IoErrorView>(bytes@)),
{
    match r {
        Ok(found) => same_bytes(found.as_slice(), bytes),
        Err(_) => false,
    }
}

/// The installation is what it was when `marker`, `checksums` and `signature`
/// were read.
pub fn standalone_snapshot_unchanged<I: UpdateIo>(
    io: &mut I,
    paths: &BinaryPair,
    marker: &StandaloneMarker,
    checksums: &[u8],
    signature: &[u8],
) -> (r: bool)
    ensures
        extends(final(io).log(), old(io).log()),
        forall|l: Seq<IoEvent>|
            extends(l, final(io).log()) ==> #[trigger] unchanged_at(
                l,
                old(io).log().len() as int,
                paths@,
                marker@,
                checksums@,
                signature@,
            ) == (r, final(io).log().len() as int),
{
    proof {
        reveal(unchanged_at);
    }
    let primary = paths.primary.as_slice();
    let current = match read_marker(io, primary) {
        Some(marker) => marker,
        None => return false,
    };
    if !same(current.repository.as_str(), marker.repository.as_str()) || !same(
        current.version.as_str(),
        marker.version.as_str(),
    ) || !same(current.host.as_str(), marker.host.as_str()) {
        return false;
    }
    let manifest = io.read_file(manifest_path(primary).as_slice());
    if !answers_bytes(&manifest, checksums) {
        return false;
    }
    let detached = io.read_file(signature_path(primary).as_slice());
    if !answers_bytes(&detached, signature) {
        return false;
    }
    marker_proves_installation(io, &current, paths)
}

// ---------------------------------------------------------------------------
// All together
// ---------------------------------------------------------------------------

/// The owner of an installation: Homebrew by its place, Cargo by its records,
/// a standalone one by its marker, else nobody known.
#[verifier::opaque]
pub open spec fn discover_at(l: Seq<IoEvent>, i: int, paths: PairView, host: Seq<char>) -> (
    Installer,
    int,
) {
    let (resolved, i) = resolve_at(l, i, paths.primary);
    if in_cellar(resolved) {
        (Installer::Homebrew, i)
    } else {
        let (cargo, i) = cargo_owned_at(l, i, paths.primary, resolved, host);
        if cargo {
            (Installer::Cargo, i)
        } else {
            let (marker, i) = read_marker_at(l, i, paths.primary);
            match marker {
                None => (Installer::Unknown, i),
                Some(marker) => {
                    let (proven, i) = marker_proves_at(l, i, marker, paths);
                    if proven {
                        (Installer::Standalone, i)
                    } else {
                        (Installer::Unknown, i)
                    }
                },
            }
        }
    }
}

/// The owner of the installation of `paths`.
pub fn discover_installer<I: UpdateIo>(io: &mut I, paths: &BinaryPair, host: &str) -> (r: Installer)
    ensures
        extends(final(io).log(), old(io).log()),
        forall|l: Seq<IoEvent>|
            extends(l, final(io).log()) ==> #[trigger] discover_at(
                l,
                old(io).log().len() as int,
                paths@,
                host@,
            ) == (r, final(io).log().len() as int),
{
    proof {
        reveal(discover_at);
    }
    let primary = paths.primary.as_slice();
    let resolved = resolve(io, primary);
    if is_homebrew_path(resolved.as_slice()) {
        return Installer::Homebrew;
    }
    if cargo_owned(io, primary, resolved.as_slice(), host) {
        return Installer::Cargo;
    }
    if let Some(marker) = read_marker(io, primary) {
        if marker_proves_installation(io, &marker, paths) {
            return Installer::Standalone;
        }
    }
    Installer::Unknown
}

} // verus!
