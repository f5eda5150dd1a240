//! Installer-aware self-update.
//!
//! Everything the update needs from outside goes through three traits: the
//! machine ([`UpdateIo`]), the release source ([`ReleaseProvider`]) and the
//! check of what was downloaded ([`ArtifactVerifier`]). Each keeps a log of
//! the calls made and the answers given; what the update does is stated as a
//! function of those logs.
pub mod activation;
pub mod adoption;
pub mod apart;
pub mod applied;
pub mod archive;
pub mod cargo;
pub mod chosen;
pub mod config;
pub mod discover;
pub mod evidence;
pub mod guarantees;
pub mod intact;
pub mod io;
pub mod laws;
pub mod marker;
pub mod model;
pub mod owned;
pub mod records;
pub mod release;
pub mod service;
pub mod sidecars;
pub mod told;
pub mod toml;
pub mod transaction;
pub mod trust;

pub use io::{ArtifactVerifier, ReleaseProvider, UpdateIo};
pub use model::{
    BinaryPair, CommandOutput, CommandSpec, DownloadedRelease, Installer, IoError, IoErrorKind,
    ReleaseMetadata, StandaloneMarker, UpdateFailure, UpdateRequest, UpdateResult,
    HOMEBREW_COMMAND, MINISIGN_PUBLIC_KEY, REPOSITORY,
};
pub use release::GithubReleaseProvider;
pub use service::UpdateService;
pub use trust::PinnedMinisignVerifier;
