//! Taking a loose pair of executables over as a standalone installation.
use crate::text::{utf8, utf8_of};
use crate::update::io::{
    extends, outcome, read_file_at, remove_file_at, set_owner_only_at, write_file_at, IoEvent,
    UpdateIo,
};
use crate::update::marker::{
    digest, manifest_at, manifest_path, marker_at, marker_json, marker_of, marker_path, marker_text,
    signature_at, signature_path,
};
use crate::update::model::{
    failure, BinaryPair, FailureView, IoErrorView, MarkerView, PairView, ReleaseView,
    StandaloneMarker, UpdateFailure, REPOSITORY,
};
use crate::update::sidecars::release_marker;
use vstd::prelude::*;

verus! {

/// The marker of the executables as they are.
pub open spec fn marker_for_at(
    l: Seq<IoEvent>,
    i: int,
    paths: PairView,
    version: Seq<char>,
    host: Seq<char>,
    checksums: Seq<u8>,
) -> (Result<MarkerView, FailureView>, int) {
    let (primary, i) = read_file_at(l, i, paths.primary);
    match primary {
        Err(error) => (
            Err(failure("standalone_proof_failed"@, error.message, paths.primary)),
            i,
        ),
        Ok(primary) => {
            let (secondary, i) = read_file_at(l, i, paths.secondary);
            match secondary {
                Err(error) => (
                    Err(failure("standalone_proof_failed"@, error.message, paths.secondary)),
                    i,
                ),
                Ok(secondary) => (
                    Ok(
                        release_marker(
                            version,
                            host,
                            (ReleaseView { primary, secondary }),
                            checksums,
                        ),
                    ),
                    i,
                ),
            }
        },
    }
}

/// Removes the files of an adoption, whatever becomes of each removal.
pub open spec fn withdraw_at(l: Seq<IoEvent>, i: int, files: Seq<Seq<u8>>) -> int
    decreases files.len(),
{
    if files.len() == 0 {
        i
    } else {
        let (_, i) = remove_file_at(l, i, files[0]);
        withdraw_at(l, i, files.skip(1))
    }
}

/// Makes the files private one after the other, up to the first failure.
pub open spec fn protect_at(l: Seq<IoEvent>, i: int, files: Seq<Seq<u8>>) -> (
    Result<(), IoErrorView>,
    int,
)
    decreases files.len(),
{
    if files.len() == 0 {
        (Ok(()), i)
    } else {
        let (r, i) = set_owner_only_at(l, i, files[0]);
        match r {
            Err(error) => (Err(error), i),
            Ok(_) => protect_at(l, i, files.skip(1)),
        }
    }
}

/// A failure to write the files of an adoption.
pub open spec fn adoption_failure(error: IoErrorView, paths: PairView) -> FailureView {
    failure("adoption_failed"@, error.message, paths.primary)
}

/// Writes the manifest, its signature and the marker and makes them private.
/// On a failure whatever was written before it is removed again.
pub open spec fn adopt_files_at(
    l: Seq<IoEvent>,
    i: int,
    paths: PairView,
    marker: MarkerView,
    checksums: Seq<u8>,
    signature: Seq<u8>,
) -> (Result<(), FailureView>, int) {
    let manifest = manifest_at(paths.primary);
    let detached = signature_at(paths.primary);
    let owner = marker_at(paths.primary);
    let (r, i) = write_file_at(l, i, manifest, checksums);
    match r {
        Err(error) => (Err(adoption_failure(error, paths)), i),
        Ok(_) => {
            let (r, i) = write_file_at(l, i, detached, signature);
            match r {
                Err(error) => (
                    Err(adoption_failure(error, paths)),
                    withdraw_at(l, i, seq![manifest]),
                ),
                Ok(_) => {
                    let (r, i) = write_file_at(l, i, owner, utf8(marker_json(marker)));
                    match r {
                        Err(error) => (
                            Err(adoption_failure(error, paths)),
                            withdraw_at(l, i, seq![manifest, detached]),
                        ),
                        Ok(_) => {
                            let (r, i) = protect_at(l, i, seq![manifest, detached, owner]);
                            match r {
                                Err(error) => (
                                    Err(adoption_failure(error, paths)),
                                    withdraw_at(l, i, seq![manifest, detached, owner]),
                                ),
                                Ok(_) => (Ok(()), i),
                            }
                        },
                    }
                },
            }
        },
    }
}

/// The marker of the executables as they are.
pub fn marker_for<I: UpdateIo>(
    io: &mut I,
    paths: &BinaryPair,
    version: &str,
    host: &str,
    checksums: &[u8],
) -> (r: Result<StandaloneMarker, UpdateFailure>)
    ensures
        extends(final(io).log(), old(io).log()),
        forall|l: Seq<IoEvent>|
            extends(l, final(io).log()) ==> #[trigger] marker_for_at(
                l,
                old(io).log().len() as int,
                paths@,
                version@,
                host@,
                checksums@,
            ) == (outcome(r), final(io).log().len() as int),
{
    let path = paths.primary.as_slice();
    let primary = match io.read_file(path) {
        Ok(bytes) => bytes,
        Err(error) => {
            return Err(UpdateFailure::new("standalone_proof_failed", error.message, path));
        },
    };
    let path = paths.secondary.as_slice();
    let secondary = match io.read_file(path) {
        Ok(bytes) => bytes,
        Err(error) => {
            return Err(UpdateFailure::new("standalone_proof_failed", error.message, path));
        },
    };
    Ok(
        StandaloneMarker {
            repository: REPOSITORY.to_owned(),
            version: version.to_owned(),
            host: host.to_owned(),
            primary_sha256: digest(primary.as_slice()),
            secondary_sha256: digest(secondary.as_slice()),
            archive_sha256: digest(checksums),
        },
    )
}

/// Writes the manifest, its signature and the marker and makes them private.
/// The marker that was written reads back.
pub fn write_adoption_material<I: UpdateIo>(
    io: &mut I,
    paths: &BinaryPair,
    marker: &StandaloneMarker,
    checksums: &[u8],
    signature: &[u8],
) -> (r: Result<(), UpdateFailure>)
    ensures
        extends(final(io).log(), old(io).log()),
        forall|l: Seq<IoEvent>|
            extends(l, final(io).log()) ==> #[trigger] adopt_files_at(
                l,
                old(io).log().len() as int,
                paths@,
                marker@,
                checksums@,
                signature@,
            ) == (outcome(r), final(io).log().len() as int),
        r is Ok ==> marker_of(marker_json(marker@)) == Some(marker@),
{
    let primary = paths.primary.as_slice();
    let manifest = manifest_path(primary);
    let detached = signature_path(primary);
    let owner = marker_path(primary);
    let ghost (m, d, o) = (manifest@, detached@, owner@);
    assert(seq![m].skip(1) =~= Seq::<Seq<u8>>::empty());
    assert(seq![m, d].skip(1) =~= seq![d]);
    assert(seq![d].skip(1) =~= Seq::<Seq<u8>>::empty());
    assert(seq![m, d, o].skip(1) =~= seq![d, o]);
    assert(seq![d, o].skip(1) =~= seq![o]);
    assert(seq![o].skip(1) =~= Seq::<Seq<u8>>::empty());
    proof {
        reveal_with_fuel(withdraw_at, 4);
        reveal_with_fuel(protect_at, 4);
    }
    if let Err(error) = io.write_file(manifest.as_slice(), checksums) {
        return Err(UpdateFailure::new("adoption_failed", error.message, primary));
    }
    if let Err(error) = io.write_file(detached.as_slice(), signature) {
        let _ = io.remove_file(manifest.as_slice());
        return Err(UpdateFailure::new("adoption_failed", error.message, primary));
    }
    let text = marker_text(marker);
    if let Err(error) = io.write_file(owner.as_slice(), utf8_of(text.as_str())) {
        let _ = io.remove_file(manifest.as_slice());
        let _ = io.remove_file(detached.as_slice());
        return Err(UpdateFailure::new("adoption_failed", error.message, primary));
    }
    let protected = match io.set_owner_only(manifest.as_slice()) {
        Err(error) => Err(error),
        Ok(()) => match io.set_owner_only(detached.as_slice()) {
            Err(error) => Err(error),
            Ok(()) => io.set_owner_only(owner.as_slice()),
        },
    };
    if let Err(error) = protected {
        let _ = io.remove_file(manifest.as_slice());
        let _ = io.remove_file(detached.as_slice());
        let _ = io.remove_file(owner.as_slice());
        return Err(UpdateFailure::new("adoption_failed", error.message, primary));
    }
    Ok(())
}

} // verus!
