//! The files beside a standalone installation, replaced as one.
use crate::text::{copy, text_views};
use crate::update::io::{
    extends, outcome, remove_file_at, set_owner_only_at, write_file_at, IoEvent, UpdateIo,
};
use crate::update::marker::{
    digest, digest_of, manifest_at, manifest_path, marker_at, marker_json, marker_path,
    marker_text, signature_at, signature_path,
};
use crate::update::model::{
    bytes_option, failure, text_result, BinaryPair, DownloadedRelease, FailureView, IoErrorView,
    MarkerView, PairView, ReleaseView, StandaloneMarker, UpdateFailure, REPOSITORY,
};
use crate::update::transaction::{
    no_problems, note, noted, settle, settled, snapshot_at, snapshot_optional,
};
use crate::text::{utf8, utf8_of};
use vstd::prelude::*;

verus! {

/// A file that is replaced: what it held, what it will hold, and whether the
/// replacement has begun.
pub struct Sidecar {
    pub path: Vec<u8>,
    pub old_bytes: Option<Vec<u8>>,
    pub new_bytes: Vec<u8>,
    pub mutated: bool,
}

/// The model of a [`Sidecar`].
#[verifier::ext_equal]
pub struct SidecarView {
    pub path: Seq<u8>,
    pub old_bytes: Option<Seq<u8>>,
    pub new_bytes: Seq<u8>,
    pub mutated: bool,
}

impl View for Sidecar {
    type V = SidecarView;

    open spec fn view(&self) -> SidecarView {
        SidecarView {
            path: self.path@,
            old_bytes: bytes_option(self.old_bytes),
            new_bytes: self.new_bytes@,
            mutated: self.mutated,
        }
    }
}

/// The manifest, its signature and the owner marker, replaced as one.
pub struct AuxTransaction {
    pub files: Vec<Sidecar>,
}

/// The views of a list of sidecars.
pub open spec fn sidecar_views(v: Seq<Sidecar>) -> Seq<SidecarView> {
    v.map_values(|s: Sidecar| s@)
}

impl View for AuxTransaction {
    type V = Seq<SidecarView>;

    open spec fn view(&self) -> Seq<SidecarView> {
        sidecar_views(self.files@)
    }
}

/// The marker of a release installed on a host.
pub open spec fn release_marker(
    version: Seq<char>,
    host: Seq<char>,
    release: ReleaseView,
    checksums: Seq<u8>,
) -> MarkerView {
    MarkerView {
        repository: REPOSITORY@,
        version,
        host,
        primary_sha256: digest_of(release.primary),
        secondary_sha256: digest_of(release.secondary),
        archive_sha256: digest_of(checksums),
    }
}

/// A sidecar whose replacement has not begun, with what it holds now.
pub open spec fn capture_sidecar_at(l: Seq<IoEvent>, i: int, path: Seq<u8>, new_bytes: Seq<u8>) -> (
    Result<SidecarView, FailureView>,
    int,
) {
    let (old_bytes, i) = snapshot_at(l, i, path);
    match old_bytes {
        Err(error) => (Err(failure("staging_snapshot_failed"@, error.message, path)), i),
        Ok(old_bytes) => (Ok(SidecarView { path, old_bytes, new_bytes, mutated: false }), i),
    }
}

/// Reads the three sidecars and prepares their replacement.
pub open spec fn capture_sidecars_at(
    l: Seq<IoEvent>,
    i: int,
    paths: PairView,
    version: Seq<char>,
    host: Seq<char>,
    release: ReleaseView,
    trust: (Seq<u8>, Seq<u8>),
) -> (Result<Seq<SidecarView>, FailureView>, int) {
    let marker = utf8(marker_json(release_marker(version, host, release, trust.0)));
    let (manifest, i) = capture_sidecar_at(l, i, manifest_at(paths.primary), trust.0);
    match manifest {
        Err(failure) => (Err(failure), i),
        Ok(manifest) => {
            let (signature, i) = capture_sidecar_at(l, i, signature_at(paths.primary), trust.1);
            match signature {
                Err(failure) => (Err(failure), i),
                Ok(signature) => {
                    let (owner, i) = capture_sidecar_at(l, i, marker_at(paths.primary), marker);
                    match owner {
                        Err(failure) => (Err(failure), i),
                        Ok(owner) => (Ok(seq![manifest, signature, owner]), i),
                    }
                },
            }
        },
    }
}

/// Puts one sidecar back as it was: removes it, and writes what it held.
pub open spec fn restore_sidecar_at(
    l: Seq<IoEvent>,
    i: int,
    file: SidecarView,
    problems: Seq<Seq<char>>,
) -> (Seq<Seq<char>>, int) {
    if !file.mutated {
        (problems, i)
    } else {
        let (r, i) = remove_file_at(l, i, file.path);
        let problems = noted(problems, r, file.path, ": remove: "@);
        match file.old_bytes {
            None => (problems, i),
            Some(bytes) => {
                let (r, i) = write_file_at(l, i, file.path, bytes);
                let problems = noted(problems, r, file.path, ": restore: "@);
                let (r, i) = set_owner_only_at(l, i, file.path);
                (noted(problems, r, file.path, ": permissions: "@), i)
            },
        }
    }
}

/// Puts the sidecars from `k` on back as they were.
pub open spec fn restore_sidecars_from(
    l: Seq<IoEvent>,
    i: int,
    files: Seq<SidecarView>,
    k: int,
    problems: Seq<Seq<char>>,
) -> (Result<(), Seq<char>>, int)
    decreases files.len() - k,
{
    if k < 0 || k >= files.len() {
        (settled(problems), i)
    } else {
        let (problems, i) = restore_sidecar_at(l, i, files[k], problems);
        restore_sidecars_from(l, i, files, k + 1, problems)
    }
}

/// Puts every sidecar whose replacement has begun back as it was.
pub open spec fn restore_sidecars_at(l: Seq<IoEvent>, i: int, files: Seq<SidecarView>) -> (
    Result<(), Seq<char>>,
    int,
) {
    restore_sidecars_from(l, i, files, 0, Seq::empty())
}

/// A sidecar whose replacement has begun.
pub open spec fn begun(file: SidecarView) -> SidecarView {
    SidecarView { mutated: true, ..file }
}

/// Writes one sidecar and makes it private.
pub open spec fn replace_sidecar_at(l: Seq<IoEvent>, i: int, file: SidecarView) -> (
    Result<(), IoErrorView>,
    int,
) {
    let (r, i) = write_file_at(l, i, file.path, file.new_bytes);
    match r {
        Err(error) => (Err(error), i),
        Ok(_) => set_owner_only_at(l, i, file.path),
    }
}

/// Replaces the sidecars from `k` on; on a failure, puts every one back whose
/// replacement has begun.
pub open spec fn replace_sidecars_from(
    l: Seq<IoEvent>,
    i: int,
    files: Seq<SidecarView>,
    k: int,
) -> (Result<(), FailureView>, Seq<SidecarView>, int)
    decreases files.len() - k,
{
    if k < 0 || k >= files.len() {
        (Ok(()), files, i)
    } else {
        let marked = files.update(k, begun(files[k]));
        let (r, i) = replace_sidecar_at(l, i, files[k]);
        match r {
            Err(error) => {
                let (restored, i) = restore_sidecars_at(l, i, marked);
                (
                    Err(
                        failure("staging_failed"@, error.message, files[k].path).after_cleanup(
                            restored,
                        ),
                    ),
                    marked,
                    i,
                )
            },
            Ok(_) => replace_sidecars_from(l, i, marked, k + 1),
        }
    }
}

/// Replaces the sidecars.
pub open spec fn replace_sidecars_at(l: Seq<IoEvent>, i: int, files: Seq<SidecarView>) -> (
    Result<(), FailureView>,
    Seq<SidecarView>,
    int,
) {
    replace_sidecars_from(l, i, files, 0)
}

/// The view of a captured sidecar.
pub open spec fn sidecar_answer(r: Result<Sidecar, UpdateFailure>) -> Result<
    SidecarView,
    FailureView,
> {
    match r {
        Ok(file) => Ok(file@),
        Err(failure) => Err(failure@),
    }
}

/// The view of the captured sidecars.
pub open spec fn sidecars_answer(r: Result<AuxTransaction, UpdateFailure>) -> Result<
    Seq<SidecarView>,
    FailureView,
> {
    match r {
        Ok(aux) => Ok(aux@),
        Err(failure) => Err(failure@),
    }
}

fn capture_sidecar<I: UpdateIo>(io: &mut I, path: Vec<u8>, new_bytes: Vec<u8>) -> (r: Result<
    Sidecar,
    UpdateFailure,
>)
    ensures
        extends(final(io).log(), old(io).log()),
        forall|l: Seq<IoEvent>|
            extends(l, final(io).log()) ==> #[trigger] capture_sidecar_at(
                l,
                old(io).log().len() as int,
                path@,
                new_bytes@,
            ) == (sidecar_answer(r), final(io).log().len() as int),
{
    match snapshot_optional(io, path.as_slice()) {
        Ok(old_bytes) => Ok(Sidecar { path, old_bytes, new_bytes, mutated: false }),
        Err(error) => Err(
            UpdateFailure::new("staging_snapshot_failed", error.message, path.as_slice()),
        ),
    }
}

impl AuxTransaction {
    /// Reads the three sidecars and prepares their replacement.
    pub fn capture<I: UpdateIo>(
        io: &mut I,
        paths: &BinaryPair,
        version: &str,
        host: &str,
        release: &DownloadedRelease,
        trust: &(Vec<u8>, Vec<u8>),
    ) -> (r: Result<Self, UpdateFailure>)
        ensures
            extends(final(io).log(), old(io).log()),
            forall|l: Seq<IoEvent>|
                extends(l, final(io).log()) ==> #[trigger] capture_sidecars_at(
                    l,
                    old(io).log().len() as int,
                    paths@,
                    version@,
                    host@,
                    release@,
                    (trust.0@, trust.1@),
                ) == (sidecars_answer(r), final(io).log().len() as int),
    {
        let marker = StandaloneMarker {
            repository: REPOSITORY.to_owned(),
            version: version.to_owned(),
            host: host.to_owned(),
            primary_sha256: digest(release.primary.as_slice()),
            secondary_sha256: digest(release.secondary.as_slice()),
            archive_sha256: digest(trust.0.as_slice()),
        };
        let marker_bytes = copy(utf8_of(marker_text(&marker).as_str()));
        let primary = paths.primary.as_slice();
        let manifest = match capture_sidecar(
            io,
            manifest_path(primary),
            copy(trust.0.as_slice()),
        ) {
            Ok(file) => file,
            Err(failure) => return Err(failure),
        };
        let signature = match capture_sidecar(
            io,
            signature_path(primary),
            copy(trust.1.as_slice()),
        ) {
            Ok(file) => file,
            Err(failure) => return Err(failure),
        };
        let owner = match capture_sidecar(io, marker_path(primary), marker_bytes) {
            Ok(file) => file,
            Err(failure) => return Err(failure),
        };
        let ghost shown = seq![manifest@, signature@, owner@];
        let mut files: Vec<Sidecar> = Vec::new();
        files.push(manifest);
        files.push(signature);
        files.push(owner);
        assert(sidecar_views(files@) =~= shown);
        Ok(AuxTransaction { files })
    }

    /// Replaces the sidecars; on a failure, puts them back.
    pub fn apply<I: UpdateIo>(&mut self, io: &mut I) -> (r: Result<(), UpdateFailure>)
        ensures
            extends(final(io).log(), old(io).log()),
            forall|l: Seq<IoEvent>|
                extends(l, final(io).log()) ==> #[trigger] replace_sidecars_at(
                    l,
                    old(io).log().len() as int,
                    old(self)@,
                ) == (outcome(r), final(self)@, final(io).log().len() as int),
    {
        let ghost start = self@;
        let ghost i0 = io.log().len() as int;
        let ghost log0 = io.log();
        let mut k: usize = 0;
        while k < self.files.len()
            invariant
                k <= self.files@.len(),
                start == old(self)@,
                log0 == old(io).log(),
                i0 == log0.len(),
                extends(io.log(), log0),
                forall|l: Seq<IoEvent>|
                    extends(l, io.log()) ==> #[trigger] replace_sidecars_from(l, i0, start, 0)
                        == replace_sidecars_from(l, io.log().len() as int, self@, k as int),
            decreases self.files@.len() - k,
        {
            let ghost before = self@;
            let ghost i1 = io.log().len() as int;
            let mut file = self.files.remove(k);
            let ghost shown = file@;
            assert(before[k as int] == shown);
            file.mutated = true;
            let r = match io.write_file(file.path.as_slice(), file.new_bytes.as_slice()) {
                Err(error) => Err(error),
                Ok(()) => io.set_owner_only(file.path.as_slice()),
            };
            let path = copy(file.path.as_slice());
            self.files.insert(k, file);
            assert(self@ =~= before.update(k as int, begun(shown)));
            if let Err(error) = r {
                let restored = self.rollback(io);
                return Err(
                    UpdateFailure::new(
                        "staging_failed",
                        error.message,
                        path.as_slice(),
                    ).with_cleanup(restored),
                );
            }
            k = k + 1;
        }
        Ok(())
    }

    /// Puts every sidecar whose replacement has begun back as it was.
    pub fn rollback<I: UpdateIo>(&self, io: &mut I) -> (r: Result<(), String>)
        ensures
            extends(final(io).log(), old(io).log()),
            forall|l: Seq<IoEvent>|
                extends(l, final(io).log()) ==> #[trigger] restore_sidecars_at(
                    l,
                    old(io).log().len() as int,
                    self@,
                ) == (text_result(r), final(io).log().len() as int),
    {
        let ghost i0 = io.log().len() as int;
        let ghost log0 = io.log();
        let mut problems = no_problems();
        for k in 0..self.files.len()
            invariant
                extends(io.log(), log0),
                forall|l: Seq<IoEvent>|
                    extends(l, io.log()) ==> #[trigger] restore_sidecars_from(
                        l,
                        i0,
                        self@,
                        0,
                        Seq::empty(),
                    ) == restore_sidecars_from(
                        l,
                        io.log().len() as int,
                        self@,
                        k as int,
                        text_views(problems@),
                    ),
        {
            let file = &self.files[k];
            assert(self@[k as int] == file@);
            if file.mutated {
                let path = file.path.as_slice();
                note(&mut problems, io.remove_file(path), path, ": remove: ");
                if let Some(bytes) = &file.old_bytes {
                    note(&mut problems, io.write_file(path, bytes.as_slice()), path, ": restore: ");
                    note(&mut problems, io.set_owner_only(path), path, ": permissions: ");
                }
            }
        }
        settle(problems)
    }
}

} // verus!
