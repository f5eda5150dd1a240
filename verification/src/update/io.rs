//! What an update asks of the world, and the record of it.
//!
//! Each trait has a log, which grows by one event per call: the arguments and
//! the answer. An implementation owes nothing else. `.._at` functions read a
//! log back: at position `i` stands the answer to exactly that call, and the
//! position moves on; where the log holds something else the position is lost
//! and becomes -1.
use crate::text::text_views;
use crate::update::model::{
    bytes_option, CommandOutput, DownloadedRelease, FailureView, IoError, IoErrorView,
    MetadataView, OutputView, ReleaseMetadata, ReleaseView, UpdateFailure,
};
use vstd::prelude::*;

verus! {

/// A call of [`UpdateIo`] and its answer.
pub enum IoEvent {
    CargoHome(Option<Seq<u8>>),
    CargoInstallRoot(Option<Seq<u8>>),
    EffectiveUser(u32),
    Canonicalize(Seq<u8>, Result<Seq<u8>, IoErrorView>),
    IsFile(Seq<u8>, bool),
    PathExists(Seq<u8>, bool),
    ReadFile(Seq<u8>, Result<Seq<u8>, IoErrorView>),
    ReadString(Seq<u8>, Result<Seq<char>, IoErrorView>),
    CommandAvailable(Seq<char>, bool),
    Run(Seq<u8>, Seq<Seq<char>>, Result<OutputView, IoErrorView>),
    WriteFile(Seq<u8>, Seq<u8>, Result<(), IoErrorView>),
    CreateStagedFile(Seq<u8>, Seq<u8>, Result<(), IoErrorView>),
    SetOwnerOnly(Seq<u8>, Result<(), IoErrorView>),
    SetExecutable(Seq<u8>, Result<(), IoErrorView>),
    Rename(Seq<u8>, Seq<u8>, Result<(), IoErrorView>),
    RemoveFile(Seq<u8>, Result<(), IoErrorView>),
    AcquireLock(Seq<u8>, Result<(), IoErrorView>),
    ReleaseLock(Seq<u8>, Result<(), IoErrorView>),
}

/// A call of [`ReleaseProvider`] and its answer.
pub enum ProviderEvent {
    Latest(Seq<char>, Result<MetadataView, FailureView>),
    ExactRelease(Seq<char>, Seq<char>, Result<MetadataView, FailureView>),
    Download(MetadataView, Result<ReleaseView, FailureView>),
    TrustMaterial(Option<(Seq<u8>, Seq<u8>)>),
    ValidateLocalMaterial(Seq<u8>, Seq<u8>, Seq<char>, Seq<char>, Result<(), FailureView>),
}

/// A call of [`ArtifactVerifier`] and its answer.
pub enum VerifierEvent {
    Verify(MetadataView, ReleaseView, Result<(), FailureView>),
}

/// The view of an answer that carries bytes.
pub open spec fn bytes_answer(r: Result<Vec<u8>, IoError>) -> Result<Seq<u8>, IoErrorView> {
    match r {
        Ok(bytes) => Ok(bytes@),
        Err(error) => Err(error@),
    }
}

/// The view of an answer that carries text.
pub open spec fn text_answer(r: Result<String, IoError>) -> Result<Seq<char>, IoErrorView> {
    match r {
        Ok(text) => Ok(text@),
        Err(error) => Err(error@),
    }
}

/// The view of an answer that carries what a program left behind.
pub open spec fn output_answer(r: Result<CommandOutput, IoError>) -> Result<
    OutputView,
    IoErrorView,
> {
    match r {
        Ok(output) => Ok(output@),
        Err(error) => Err(error@),
    }
}

/// The view of an answer that carries nothing.
pub open spec fn done(r: Result<(), IoError>) -> Result<(), IoErrorView> {
    match r {
        Ok(_) => Ok(()),
        Err(error) => Err(error@),
    }
}

/// The view of a result of the update.
pub open spec fn outcome<T: View>(r: Result<T, UpdateFailure>) -> Result<T::V, FailureView> {
    match r {
        Ok(value) => Ok(value@),
        Err(failure) => Err(failure@),
    }
}

/// The view of a pair of trust files.
pub open spec fn material(r: Option<(Vec<u8>, Vec<u8>)>) -> Option<(Seq<u8>, Seq<u8>)> {
    match r {
        Some((checksums, signature)) => Some((checksums@, signature@)),
        None => None,
    }
}

// ---------------------------------------------------------------------------
// The traits
// ---------------------------------------------------------------------------

/// All effects that an update has on the machine.
pub trait UpdateIo {
    /// The calls made so far.
    closed spec fn log(&self) -> Seq<IoEvent> {
        arbitrary()
    }

    /// The home directory of Cargo.
    fn cargo_home(&mut self) -> (r: Option<Vec<u8>>)
        ensures
            final(self).log() == old(self).log().push(IoEvent::CargoHome(bytes_option(r))),
    ;

    /// The directory that Cargo installs below.
    fn cargo_install_root(&mut self) -> (r: Option<Vec<u8>>)
        ensures
            final(self).log() == old(self).log().push(IoEvent::CargoInstallRoot(bytes_option(r))),
    ;

    /// The user that the update runs as.
    fn effective_user(&mut self) -> (r: u32)
        ensures
            final(self).log() == old(self).log().push(IoEvent::EffectiveUser(r)),
    ;

    /// The absolute path of `path` with every link resolved.
    fn canonicalize(&mut self, path: &[u8]) -> (r: Result<Vec<u8>, IoError>)
        ensures
            final(self).log() == old(self).log().push(IoEvent::Canonicalize(
                path@,
                bytes_answer(r),
            )),
    ;

    /// `path` is a regular file.
    fn is_file(&mut self, path: &[u8]) -> (r: bool)
        ensures
            final(self).log() == old(self).log().push(IoEvent::IsFile(path@, r)),
    ;

    /// Something is at `path`.
    fn path_exists(&mut self, path: &[u8]) -> (r: bool)
        ensures
            final(self).log() == old(self).log().push(IoEvent::PathExists(path@, r)),
    ;

    /// The contents of the file at `path`.
    fn read_file(&mut self, path: &[u8]) -> (r: Result<Vec<u8>, IoError>)
        ensures
            final(self).log() == old(self).log().push(IoEvent::ReadFile(path@, bytes_answer(r))),
    ;

    /// The contents of the text file at `path`.
    fn read_string(&mut self, path: &[u8]) -> (r: Result<String, IoError>)
        ensures
            final(self).log() == old(self).log().push(IoEvent::ReadString(path@, text_answer(r))),
    ;

    /// A program called `command` can be run.
    fn command_available(&mut self, command: &str) -> (r: bool)
        ensures
            final(self).log() == old(self).log().push(IoEvent::CommandAvailable(command@, r)),
    ;

    /// Runs a program to its end.
    fn run(&mut self, command: &[u8], args: &Vec<String>) -> (r: Result<CommandOutput, IoError>)
        ensures
            final(self).log() == old(self).log().push(IoEvent::Run(
                command@,
                text_views(args@),
                output_answer(r),
            )),
    ;

    /// Writes a file, replacing what it held.
    fn write_file(&mut self, path: &[u8], bytes: &[u8]) -> (r: Result<(), IoError>)
        ensures
            final(self).log() == old(self).log().push(IoEvent::WriteFile(path@, bytes@, done(r))),
    ;

    /// Writes a file that must not exist yet.
    fn create_staged_file(&mut self, path: &[u8], bytes: &[u8]) -> (r: Result<(), IoError>)
        ensures
            final(self).log() == old(self).log().push(IoEvent::CreateStagedFile(
                path@,
                bytes@,
                done(r),
            )),
    ;

    /// Lets only the owner read and write a file.
    fn set_owner_only(&mut self, path: &[u8]) -> (r: Result<(), IoError>)
        ensures
            final(self).log() == old(self).log().push(IoEvent::SetOwnerOnly(path@, done(r))),
    ;

    /// Makes a file executable.
    fn set_executable(&mut self, path: &[u8]) -> (r: Result<(), IoError>)
        ensures
            final(self).log() == old(self).log().push(IoEvent::SetExecutable(path@, done(r))),
    ;

    /// Moves a file, replacing what is at `to`.
    fn rename(&mut self, from: &[u8], to: &[u8]) -> (r: Result<(), IoError>)
        ensures
            final(self).log() == old(self).log().push(IoEvent::Rename(from@, to@, done(r))),
    ;

    /// Removes a file; that there is none is no failure.
    fn remove_file(&mut self, path: &[u8]) -> (r: Result<(), IoError>)
        ensures
            final(self).log() == old(self).log().push(IoEvent::RemoveFile(path@, done(r))),
    ;

    /// Takes the lock that one update at a time holds.
    fn acquire_lock(&mut self, path: &[u8]) -> (r: Result<(), IoError>)
        ensures
            final(self).log() == old(self).log().push(IoEvent::AcquireLock(path@, done(r))),
    ;

    /// Gives the lock back.
    fn release_lock(&mut self, path: &[u8]) -> (r: Result<(), IoError>)
        ensures
            final(self).log() == old(self).log().push(IoEvent::ReleaseLock(path@, done(r))),
    ;
}

/// Where releases come from.
pub trait ReleaseProvider {
    /// The calls made so far.
    closed spec fn log(&self) -> Seq<ProviderEvent> {
        arbitrary()
    }

    /// The newest release for `host`.
    fn latest(&mut self, host: &str) -> (r: Result<ReleaseMetadata, UpdateFailure>)
        ensures
            final(self).log() == old(self).log().push(ProviderEvent::Latest(host@, outcome(r))),
    ;

    /// The release of exactly `version` for `host`.
    fn exact_release(&mut self, version: &str, host: &str) -> (r: Result<
        ReleaseMetadata,
        UpdateFailure,
    >)
        ensures
            final(self).log() == old(self).log().push(
                ProviderEvent::ExactRelease(version@, host@, outcome(r)),
            ),
    ;

    /// The executables of a release, checked against its signed manifest.
    fn download(&mut self, metadata: &ReleaseMetadata) -> (r: Result<
        DownloadedRelease,
        UpdateFailure,
    >)
        ensures
            final(self).log() == old(self).log().push(
                ProviderEvent::Download(metadata@, outcome(r)),
            ),
    ;

    /// The manifest of the release looked at last, and its signature.
    fn trust_material(&mut self) -> (r: Option<(Vec<u8>, Vec<u8>)>)
        ensures
            final(self).log() == old(self).log().push(ProviderEvent::TrustMaterial(material(r))),
    ;

    /// A manifest and a signature kept beside an installation prove its
    /// version.
    fn validate_local_material(
        &mut self,
        checksums: &[u8],
        signature: &[u8],
        version: &str,
        host: &str,
    ) -> (r: Result<(), UpdateFailure>)
        ensures
            final(self).log() == old(self).log().push(
                ProviderEvent::ValidateLocalMaterial(
                    checksums@,
                    signature@,
                    version@,
                    host@,
                    outcome(r),
                ),
            ),
    ;
}

/// A last look at what was downloaded.
pub trait ArtifactVerifier {
    /// The calls made so far.
    closed spec fn log(&self) -> Seq<VerifierEvent> {
        arbitrary()
    }

    /// The release may be installed.
    fn verify(&mut self, metadata: &ReleaseMetadata, release: &DownloadedRelease) -> (r: Result<
        (),
        UpdateFailure,
    >)
        ensures
            final(self).log() == old(self).log().push(
                VerifierEvent::Verify(metadata@, release@, outcome(r)),
            ),
    ;
}

// ---------------------------------------------------------------------------
// Reading the logs back
// ---------------------------------------------------------------------------

/// `l` continues `p`.
pub open spec fn extends<E>(l: Seq<E>, p: Seq<E>) -> bool {
    &&& p.len() <= l.len()
    &&& forall|k: int| #![trigger l[k]] #![trigger p[k]] 0 <= k < p.len() ==> l[k] == p[k]
}

pub open spec fn cargo_home_at(l: Seq<IoEvent>, i: int) -> (Option<Seq<u8>>, int) {
    if 0 <= i < l.len() {
        match l[i] {
            IoEvent::CargoHome(r) => (r, i + 1),
            _ => (arbitrary(), -1),
        }
    } else {
        (arbitrary(), -1)
    }
}

pub open spec fn cargo_install_root_at(l: Seq<IoEvent>, i: int) -> (Option<Seq<u8>>, int) {
    if 0 <= i < l.len() {
        match l[i] {
            IoEvent::CargoInstallRoot(r) => (r, i + 1),
            _ => (arbitrary(), -1),
        }
    } else {
        (arbitrary(), -1)
    }
}

pub open spec fn effective_user_at(l: Seq<IoEvent>, i: int) -> (u32, int) {
    if 0 <= i < l.len() {
        match l[i] {
            IoEvent::EffectiveUser(r) => (r, i + 1),
            _ => (arbitrary(), -1),
        }
    } else {
        (arbitrary(), -1)
    }
}

pub open spec fn canonicalize_at(
    l: Seq<IoEvent>,
    i: int,
    path: Seq<u8>,
) -> (Result<Seq<u8>, IoErrorView>, int) {
    if 0 <= i < l.len() {
        match l[i] {
            IoEvent::Canonicalize(path_, r) => if path_ == path {
                (r, i + 1)
            } else {
                (r, -1)
            },
            _ => (arbitrary(), -1),
        }
    } else {
        (arbitrary(), -1)
    }
}

pub open spec fn is_file_at(l: Seq<IoEvent>, i: int, path: Seq<u8>) -> (bool, int) {
    if 0 <= i < l.len() {
        match l[i] {
            IoEvent::IsFile(path_, r) => if path_ == path {
                (r, i + 1)
            } else {
                (r, -1)
            },
            _ => (arbitrary(), -1),
        }
    } else {
        (arbitrary(), -1)
    }
}

pub open spec fn path_exists_at(l: Seq<IoEvent>, i: int, path: Seq<u8>) -> (bool, int) {
    if 0 <= i < l.len() {
        match l[i] {
            IoEvent::PathExists(path_, r) => if path_ == path {
                (r, i + 1)
            } else {
                (r, -1)
            },
            _ => (arbitrary(), -1),
        }
    } else {
        (arbitrary(), -1)
    }
}

pub open spec fn read_file_at(
    l: Seq<IoEvent>,
    i: int,
    path: Seq<u8>,
) -> (Result<Seq<u8>, IoErrorView>, int) {
    if 0 <= i < l.len() {
        match l[i] {
            IoEvent::ReadFile(path_, r) => if path_ == path {
                (r, i + 1)
            } else {
                (r, -1)
            },
            _ => (arbitrary(), -1),
        }
    } else {
        (arbitrary(), -1)
    }
}

pub open spec fn read_string_at(
    l: Seq<IoEvent>,
    i: int,
    path: Seq<u8>,
) -> (Result<Seq<char>, IoErrorView>, int) {
    if 0 <= i < l.len() {
        match l[i] {
            IoEvent::ReadString(path_, r) => if path_ == path {
                (r, i + 1)
            } else {
                (r, -1)
            },
            _ => (arbitrary(), -1),
        }
    } else {
        (arbitrary(), -1)
    }
}

pub open spec fn command_available_at(l: Seq<IoEvent>, i: int, command: Seq<char>) -> (bool, int) {
    if 0 <= i < l.len() {
        match l[i] {
            IoEvent::CommandAvailable(command_, r) => if command_ == command {
                (r, i + 1)
            } else {
                (r, -1)
            },
            _ => (arbitrary(), -1),
        }
    } else {
        (arbitrary(), -1)
    }
}

pub open spec fn run_at(
    l: Seq<IoEvent>,
    i: int,
    command: Seq<u8>,
    args: Seq<Seq<char>>,
) -> (Result<OutputView, IoErrorView>, int) {
    if 0 <= i < l.len() {
        match l[i] {
            IoEvent::Run(command_, args_, r) => if command_ == command && args_ == args {
                (r, i + 1)
            } else {
                (r, -1)
            },
            _ => (arbitrary(), -1),
        }
    } else {
        (arbitrary(), -1)
    }
}

pub open spec fn write_file_at(
    l: Seq<IoEvent>,
    i: int,
    path: Seq<u8>,
    bytes: Seq<u8>,
) -> (Result<(), IoErrorView>, int) {
    if 0 <= i < l.len() {
        match l[i] {
            IoEvent::WriteFile(path_, bytes_, r) => if path_ == path && bytes_ == bytes {
                (r, i + 1)
            } else {
                (r, -1)
            },
            _ => (arbitrary(), -1),
        }
    } else {
        (arbitrary(), -1)
    }
}

pub open spec fn create_staged_file_at(
    l: Seq<IoEvent>,
    i: int,
    path: Seq<u8>,
    bytes: Seq<u8>,
) -> (Result<(), IoErrorView>, int) {
    if 0 <= i < l.len() {
        match l[i] {
            IoEvent::CreateStagedFile(path_, bytes_, r) => if path_ == path && bytes_ == bytes {
                (r, i + 1)
            } else {
                (r, -1)
            },
            _ => (arbitrary(), -1),
        }
    } else {
        (arbitrary(), -1)
    }
}

pub open spec fn set_owner_only_at(
    l: Seq<IoEvent>,
    i: int,
    path: Seq<u8>,
) -> (Result<(), IoErrorView>, int) {
    if 0 <= i < l.len() {
        match l[i] {
            IoEvent::SetOwnerOnly(path_, r) => if path_ == path {
                (r, i + 1)
            } else {
                (r, -1)
            },
            _ => (arbitrary(), -1),
        }
    } else {
        (arbitrary(), -1)
    }
}

pub open spec fn set_executable_at(
    l: Seq<IoEvent>,
    i: int,
    path: Seq<u8>,
) -> (Result<(), IoErrorView>, int) {
    if 0 <= i < l.len() {
        match l[i] {
            IoEvent::SetExecutable(path_, r) => if path_ == path {
                (r, i + 1)
            } else {
                (r, -1)
            },
            _ => (arbitrary(), -1),
        }
    } else {
        (arbitrary(), -1)
    }
}

pub open spec fn rename_at(
    l: Seq<IoEvent>,
    i: int,
    from: Seq<u8>,
    to: Seq<u8>,
) -> (Result<(), IoErrorView>, int) {
    if 0 <= i < l.len() {
        match l[i] {
            IoEvent::Rename(from_, to_, r) => if from_ == from && to_ == to {
                (r, i + 1)
            } else {
                (r, -1)
            },
            _ => (arbitrary(), -1),
        }
    } else {
        (arbitrary(), -1)
    }
}

pub open spec fn remove_file_at(
    l: Seq<IoEvent>,
    i: int,
    path: Seq<u8>,
) -> (Result<(), IoErrorView>, int) {
    if 0 <= i < l.len() {
        match l[i] {
            IoEvent::RemoveFile(path_, r) => if path_ == path {
                (r, i + 1)
            } else {
                (r, -1)
            },
            _ => (arbitrary(), -1),
        }
    } else {
        (arbitrary(), -1)
    }
}

pub open spec fn acquire_lock_at(
    l: Seq<IoEvent>,
    i: int,
    path: Seq<u8>,
) -> (Result<(), IoErrorView>, int) {
    if 0 <= i < l.len() {
        match l[i] {
            IoEvent::AcquireLock(path_, r) => if path_ == path {
                (r, i + 1)
            } else {
                (r, -1)
            },
            _ => (arbitrary(), -1),
        }
    } else {
        (arbitrary(), -1)
    }
}

pub open spec fn release_lock_at(
    l: Seq<IoEvent>,
    i: int,
    path: Seq<u8>,
) -> (Result<(), IoErrorView>, int) {
    if 0 <= i < l.len() {
        match l[i] {
            IoEvent::ReleaseLock(path_, r) => if path_ == path {
                (r, i + 1)
            } else {
                (r, -1)
            },
            _ => (arbitrary(), -1),
        }
    } else {
        (arbitrary(), -1)
    }
}

pub open spec fn latest_at(
    l: Seq<ProviderEvent>,
    i: int,
    host: Seq<char>,
) -> (Result<MetadataView, FailureView>, int) {
    if 0 <= i < l.len() {
        match l[i] {
            ProviderEvent::Latest(host_, r) => if host_ == host {
                (r, i + 1)
            } else {
                (r, -1)
            },
            _ => (arbitrary(), -1),
        }
    } else {
        (arbitrary(), -1)
    }
}

pub open spec fn exact_release_at(
    l: Seq<ProviderEvent>,
    i: int,
    version: Seq<char>,
    host: Seq<char>,
) -> (Result<MetadataView, FailureView>, int) {
    if 0 <= i < l.len() {
        match l[i] {
            ProviderEvent::ExactRelease(
                version_,
                host_,
                r,
            ) => if version_ == version && host_ == host {
                (r, i + 1)
            } else {
                (r, -1)
            },
            _ => (arbitrary(), -1),
        }
    } else {
        (arbitrary(), -1)
    }
}

pub open spec fn download_at(
    l: Seq<ProviderEvent>,
    i: int,
    metadata: MetadataView,
) -> (Result<ReleaseView, FailureView>, int) {
    if 0 <= i < l.len() {
        match l[i] {
            ProviderEvent::Download(metadata_, r) => if metadata_ == metadata {
                (r, i + 1)
            } else {
                (r, -1)
            },
            _ => (arbitrary(), -1),
        }
    } else {
        (arbitrary(), -1)
    }
}

pub open spec fn trust_material_at(
    l: Seq<ProviderEvent>,
    i: int,
) -> (Option<(Seq<u8>, Seq<u8>)>, int) {
    if 0 <= i < l.len() {
        match l[i] {
            ProviderEvent::TrustMaterial(r) => (r, i + 1),
            _ => (arbitrary(), -1),
        }
    } else {
        (arbitrary(), -1)
    }
}

pub open spec fn validate_at(
    l: Seq<ProviderEvent>,
    i: int,
    checksums: Seq<u8>,
    signature: Seq<u8>,
    version: Seq<char>,
    host: Seq<char>,
) -> (Result<(), FailureView>, int) {
    if 0 <= i < l.len() {
        match l[i] {
            ProviderEvent::ValidateLocalMaterial(
                checksums_,
                signature_,
                version_,
                host_,
                r,
            ) => if checksums_ == checksums && signature_ == signature && version_ == version && host_ == host {
                (r, i + 1)
            } else {
                (r, -1)
            },
            _ => (arbitrary(), -1),
        }
    } else {
        (arbitrary(), -1)
    }
}

pub open spec fn verify_at(
    l: Seq<VerifierEvent>,
    i: int,
    metadata: MetadataView,
    release: ReleaseView,
) -> (Result<(), FailureView>, int) {
    if 0 <= i < l.len() {
        match l[i] {
            VerifierEvent::Verify(metadata_, release_, r) => if metadata_ == metadata && release_
                == release {
                (r, i + 1)
            } else {
                (r, -1)
            },
        }
    } else {
        (arbitrary(), -1)
    }
}

} // verus!
