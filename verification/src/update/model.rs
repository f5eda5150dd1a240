//! The values an update works on.
use crate::outside::{lossy, lossy_text};
use crate::path::{file_name, name_of, renamed, with_file_name};
use crate::text::{copy, copy_texts, same_bytes, text_views, utf8, utf8_of};
use vstd::prelude::*;

verus! {

/// The repository that releases come from.
pub const REPOSITORY: &'static str = "agensfield/ramiz";

/// What a user of Homebrew runs instead.
pub const HOMEBREW_COMMAND: &'static str = "brew upgrade agensfield/tap/ramiz";

/// The key that release manifests are signed with.
pub const MINISIGN_PUBLIC_KEY: &'static str =
    "untrusted comment: minisign public key DBDB291231A7A8D0\nRWTQqKcxEinb25UAhVtTVlhpVt+R7u8I3fVmbnl35gb3OO1dH6q7hR6d";

// ---------------------------------------------------------------------------
// Requests and results
// ---------------------------------------------------------------------------

/// What the user asks for.
#[derive(Clone, Debug)]
pub struct UpdateRequest {
    /// Only report whether an update is available.
    pub check: bool,
    /// Take a loose pair of executables over as a standalone installation.
    pub adopt: bool,
    /// The path of the running executable.
    pub executable: Vec<u8>,
    /// The version that is running.
    pub current_version: String,
}

impl UpdateRequest {
    /// A request that adopts nothing.
    pub fn new(check: bool, executable: &[u8], current_version: &str) -> (r: Self)
        ensures
            r.check == check,
            !r.adopt,
            r.executable@ == executable@,
            r.current_version@ == current_version@,
    {
        UpdateRequest {
            check,
            adopt: false,
            executable: copy(executable),
            current_version: current_version.to_owned(),
        }
    }

    /// The same request with `adopt` as given.
    pub fn with_adopt(self, adopt: bool) -> (r: Self)
        ensures
            r == (UpdateRequest { adopt, ..self }),
    {
        UpdateRequest {
            check: self.check,
            adopt,
            executable: self.executable,
            current_version: self.current_version,
        }
    }
}

/// Who owns the installed executables.
#[derive(Clone, Copy, Debug, PartialEq, Eq, Structural)]
pub enum Installer {
    Homebrew,
    Cargo,
    Standalone,
    Unknown,
}

/// A program and its arguments.
#[derive(Clone, Debug, PartialEq, Eq)]
pub struct CommandSpec {
    pub program: String,
    pub args: Vec<String>,
}

/// The model of a [`CommandSpec`].
#[verifier::ext_equal]
pub struct CommandView {
    pub program: Seq<char>,
    pub args: Seq<Seq<char>>,
}

impl View for CommandSpec {
    type V = CommandView;

    open spec fn view(&self) -> CommandView {
        CommandView { program: self.program@, args: text_views(self.args@) }
    }
}

/// The command that updates through cargo-binstall.
pub open spec fn binstall_command(version: Seq<char>, root: Seq<u8>) -> CommandView {
    CommandView {
        program: "cargo-binstall"@,
        args: seq!["ramiz"@, "--version"@, version, "--force"@, "--root"@, lossy_text(root)],
    }
}

/// The command that updates through `cargo install`.
pub open spec fn install_command(version: Seq<char>, root: Seq<u8>) -> CommandView {
    CommandView {
        program: "cargo"@,
        args: seq![
            "install"@,
            "ramiz"@,
            "--version"@,
            version,
            "--locked"@,
            "--force"@,
            "--root"@,
            lossy_text(root),
        ],
    }
}

/// The command that a user of Homebrew runs.
pub open spec fn brew_command() -> CommandView {
    CommandView { program: "brew"@, args: seq!["upgrade"@, "agensfield/tap/ramiz"@] }
}

impl CommandSpec {
    /// Installs exactly `version` below `root` with cargo-binstall.
    pub fn cargo_binstall(version: &str, root: &[u8]) -> (r: Self)
        ensures
            r@ == binstall_command(version@, root@),
    {
        let mut args: Vec<String> = Vec::new();
        args.push("ramiz".to_owned());
        args.push("--version".to_owned());
        args.push(version.to_owned());
        args.push("--force".to_owned());
        args.push("--root".to_owned());
        args.push(lossy(root));
        let r = CommandSpec { program: "cargo-binstall".to_owned(), args };
        assert(r@ =~= binstall_command(version@, root@));
        r
    }

    /// Installs exactly `version` below `root` with `cargo install`.
    pub fn cargo_install(version: &str, root: &[u8]) -> (r: Self)
        ensures
            r@ == install_command(version@, root@),
    {
        let mut args: Vec<String> = Vec::new();
        args.push("install".to_owned());
        args.push("ramiz".to_owned());
        args.push("--version".to_owned());
        args.push(version.to_owned());
        args.push("--locked".to_owned());
        args.push("--force".to_owned());
        args.push("--root".to_owned());
        args.push(lossy(root));
        let r = CommandSpec { program: "cargo".to_owned(), args };
        assert(r@ =~= install_command(version@, root@));
        r
    }

    /// What a user of Homebrew runs.
    pub fn brew() -> (r: Self)
        ensures
            r@ == brew_command(),
    {
        let mut args: Vec<String> = Vec::new();
        args.push("upgrade".to_owned());
        args.push("agensfield/tap/ramiz".to_owned());
        let r = CommandSpec { program: "brew".to_owned(), args };
        assert(r@ =~= brew_command());
        r
    }

    /// The same command again.
    pub fn duplicate(&self) -> (r: Self)
        ensures
            r@ == self@,
    {
        let r = CommandSpec { program: self.program.clone(), args: copy_texts(&self.args) };
        assert(r@ =~= self@);
        r
    }
}

/// What an update did.
#[derive(Clone, Debug, PartialEq, Eq)]
pub struct UpdateResult {
    pub installer: Installer,
    pub current_version: String,
    pub target_version: Option<String>,
    pub available: bool,
    pub applied: bool,
    pub changed: bool,
    pub executable: Vec<u8>,
    pub secondary_executable: Vec<u8>,
    pub commands: Vec<CommandSpec>,
    pub message: String,
}

/// The model of an [`UpdateResult`].
#[verifier::ext_equal]
pub struct ResultView {
    pub installer: Installer,
    pub current_version: Seq<char>,
    pub target_version: Option<Seq<char>>,
    pub available: bool,
    pub applied: bool,
    pub changed: bool,
    pub executable: Seq<u8>,
    pub secondary_executable: Seq<u8>,
    pub commands: Seq<CommandView>,
    pub message: Seq<char>,
}

/// The view of an optional text.
pub open spec fn text_option(o: Option<String>) -> Option<Seq<char>> {
    match o {
        Some(text) => Some(text@),
        None => None,
    }
}

/// A copy of a text that may be missing.
pub fn copy_text(o: &Option<String>) -> (r: Option<String>)
    ensures
        text_option(r) == text_option(*o),
{
    match o {
        Some(text) => Some(text.clone()),
        None => None,
    }
}

/// The view of an optional byte string.
pub open spec fn bytes_option(o: Option<Vec<u8>>) -> Option<Seq<u8>> {
    match o {
        Some(bytes) => Some(bytes@),
        None => None,
    }
}

impl View for UpdateResult {
    type V = ResultView;

    open spec fn view(&self) -> ResultView {
        ResultView {
            installer: self.installer,
            current_version: self.current_version@,
            target_version: text_option(self.target_version),
            available: self.available,
            applied: self.applied,
            changed: self.changed,
            executable: self.executable@,
            secondary_executable: self.secondary_executable@,
            commands: self.commands@.map_values(|c: CommandSpec| c@),
            message: self.message@,
        }
    }
}

/// Why an update was refused or failed.
#[derive(Clone, Debug, PartialEq, Eq)]
pub struct UpdateFailure {
    pub code: &'static str,
    pub message: String,
    pub installer: Option<Installer>,
    pub executable: Vec<u8>,
    pub command: Option<CommandSpec>,
    pub applied: bool,
    pub changed: bool,
    pub rollback: Option<String>,
    pub cleanup: Option<String>,
}

/// The model of an [`UpdateFailure`].
#[verifier::ext_equal]
pub struct FailureView {
    pub code: Seq<char>,
    pub message: Seq<char>,
    pub installer: Option<Installer>,
    pub executable: Seq<u8>,
    pub command: Option<CommandView>,
    pub applied: bool,
    pub changed: bool,
    pub rollback: Option<Seq<char>>,
    pub cleanup: Option<Seq<char>>,
}

impl View for UpdateFailure {
    type V = FailureView;

    open spec fn view(&self) -> FailureView {
        FailureView {
            code: self.code@,
            message: self.message@,
            installer: self.installer,
            executable: self.executable@,
            command: match self.command {
                Some(command) => Some(command@),
                None => None,
            },
            applied: self.applied,
            changed: self.changed,
            rollback: text_option(self.rollback),
            cleanup: text_option(self.cleanup),
        }
    }
}

/// A failure about an executable, with nothing further known.
pub open spec fn failure(code: Seq<char>, message: Seq<char>, executable: Seq<u8>) -> FailureView {
    FailureView {
        code,
        message,
        installer: None,
        executable,
        command: None,
        applied: false,
        changed: false,
        rollback: None,
        cleanup: None,
    }
}

impl FailureView {
    /// The same failure, of an installation by `installer`.
    pub open spec fn of_installer(self, installer: Installer) -> FailureView {
        FailureView { installer: Some(installer), ..self }
    }

    /// The same failure, of `command`.
    pub open spec fn of_command(self, command: CommandView) -> FailureView {
        FailureView { command: Some(command), ..self }
    }

    /// The same failure, with what went wrong undoing the change.
    pub open spec fn after_rollback(self, rollback: Result<(), Seq<char>>) -> FailureView {
        match rollback {
            Ok(_) => self,
            Err(detail) => FailureView { rollback: Some(detail), ..self },
        }
    }

    /// The same failure, with what could not be cleaned up.
    pub open spec fn after_cleanup(self, cleanup: Result<(), Seq<char>>) -> FailureView {
        match cleanup {
            Ok(_) => self,
            Err(detail) => FailureView { cleanup: Some(detail), ..self },
        }
    }

    /// The same failure, of an update that took effect.
    pub open spec fn in_effect(self) -> FailureView {
        FailureView { applied: true, changed: true, ..self }
    }
}

/// The view of a result that carries nothing or a text.
pub open spec fn text_result(r: Result<(), String>) -> Result<(), Seq<char>> {
    match r {
        Ok(_) => Ok(()),
        Err(text) => Err(text@),
    }
}

impl UpdateFailure {
    /// A failure about `executable`, with nothing further known.
    pub fn new(code: &'static str, message: String, executable: &[u8]) -> (r: Self)
        ensures
            r@ == failure(code@, message@, executable@),
    {
        UpdateFailure {
            code,
            message,
            installer: None,
            executable: copy(executable),
            command: None,
            applied: false,
            changed: false,
            rollback: None,
            cleanup: None,
        }
    }

    /// A failure of the release source.
    pub fn of_release(code: &'static str, message: String) -> (r: Self)
        ensures
            r@ == release_failure(code@, message@),
    {
        UpdateFailure::new(code, message, utf8_of("ramiz"))
    }

    pub fn with_installer(self, installer: Installer) -> (r: Self)
        ensures
            r@ == self@.of_installer(installer),
    {
        let mut r = self;
        r.installer = Some(installer);
        r
    }

    pub fn with_command(self, command: CommandSpec) -> (r: Self)
        ensures
            r@ == self@.of_command(command@),
    {
        let mut r = self;
        r.command = Some(command);
        r
    }

    pub fn with_rollback(self, rollback: Result<(), String>) -> (r: Self)
        ensures
            r@ == self@.after_rollback(text_result(rollback)),
    {
        let mut r = self;
        if let Err(detail) = rollback {
            r.rollback = Some(detail);
        }
        r
    }

    pub fn with_cleanup(self, cleanup: Result<(), String>) -> (r: Self)
        ensures
            r@ == self@.after_cleanup(text_result(cleanup)),
    {
        let mut r = self;
        if let Err(detail) = cleanup {
            r.cleanup = Some(detail);
        }
        r
    }

    pub fn applied(self) -> (r: Self)
        ensures
            r@ == self@.in_effect(),
    {
        let mut r = self;
        r.applied = true;
        r.changed = true;
        r
    }

    /// The text shown to a user.
    pub fn text(&self) -> (r: String)
        ensures
            r@ == self@.message,
    {
        self.message.clone()
    }
}

/// A failure of the release source.
pub open spec fn release_failure(code: Seq<char>, message: Seq<char>) -> FailureView {
    failure(code, message, utf8("ramiz"@))
}

// ---------------------------------------------------------------------------
// Releases
// ---------------------------------------------------------------------------

/// What the owner marker of a standalone installation records.
#[derive(Clone, Debug)]
pub struct StandaloneMarker {
    pub repository: String,
    pub version: String,
    pub host: String,
    pub primary_sha256: String,
    pub secondary_sha256: String,
    pub archive_sha256: String,
}

/// The model of a [`StandaloneMarker`].
#[verifier::ext_equal]
pub struct MarkerView {
    pub repository: Seq<char>,
    pub version: Seq<char>,
    pub host: Seq<char>,
    pub primary_sha256: Seq<char>,
    pub secondary_sha256: Seq<char>,
    pub archive_sha256: Seq<char>,
}

impl View for StandaloneMarker {
    type V = MarkerView;

    open spec fn view(&self) -> MarkerView {
        MarkerView {
            repository: self.repository@,
            version: self.version@,
            host: self.host@,
            primary_sha256: self.primary_sha256@,
            secondary_sha256: self.secondary_sha256@,
            archive_sha256: self.archive_sha256@,
        }
    }
}

/// What the release source says of a release.
#[derive(Clone, Debug)]
pub struct ReleaseMetadata {
    pub repository: String,
    pub version: String,
    pub host: String,
    pub primary_asset: String,
    pub secondary_asset: String,
    pub archive_sha256: String,
    pub signature_verified: bool,
}

/// The model of a [`ReleaseMetadata`].
#[verifier::ext_equal]
pub struct MetadataView {
    pub repository: Seq<char>,
    pub version: Seq<char>,
    pub host: Seq<char>,
    pub primary_asset: Seq<char>,
    pub secondary_asset: Seq<char>,
    pub archive_sha256: Seq<char>,
    pub signature_verified: bool,
}

impl View for ReleaseMetadata {
    type V = MetadataView;

    open spec fn view(&self) -> MetadataView {
        MetadataView {
            repository: self.repository@,
            version: self.version@,
            host: self.host@,
            primary_asset: self.primary_asset@,
            secondary_asset: self.secondary_asset@,
            archive_sha256: self.archive_sha256@,
            signature_verified: self.signature_verified,
        }
    }
}

/// The two executables of a release.
#[derive(Clone, Debug)]
pub struct DownloadedRelease {
    pub primary: Vec<u8>,
    pub secondary: Vec<u8>,
}

/// The model of a [`DownloadedRelease`].
#[verifier::ext_equal]
pub struct ReleaseView {
    pub primary: Seq<u8>,
    pub secondary: Seq<u8>,
}

impl View for DownloadedRelease {
    type V = ReleaseView;

    open spec fn view(&self) -> ReleaseView {
        ReleaseView { primary: self.primary@, secondary: self.secondary@ }
    }
}

// ---------------------------------------------------------------------------
// The machine
// ---------------------------------------------------------------------------

/// The kinds of file system error that the update tells apart.
#[derive(Clone, Copy, Debug, PartialEq, Eq, Structural)]
pub enum IoErrorKind {
    NotFound,
    AlreadyExists,
    PermissionDenied,
    Unsupported,
    Other,
}

/// A file system error: its kind and its message.
#[derive(Clone, Debug)]
pub struct IoError {
    pub kind: IoErrorKind,
    pub message: String,
}

/// The model of an [`IoError`].
#[verifier::ext_equal]
pub struct IoErrorView {
    pub kind: IoErrorKind,
    pub message: Seq<char>,
}

impl View for IoError {
    type V = IoErrorView;

    open spec fn view(&self) -> IoErrorView {
        IoErrorView { kind: self.kind, message: self.message@ }
    }
}

/// What a program that ran to its end left behind.
#[derive(Clone, Debug)]
pub struct CommandOutput {
    /// It reported success.
    pub success: bool,
    /// How it ended, in words.
    pub status: String,
    pub stdout: Vec<u8>,
    pub stderr: Vec<u8>,
}

/// The model of a [`CommandOutput`].
#[verifier::ext_equal]
pub struct OutputView {
    pub success: bool,
    pub status: Seq<char>,
    pub stdout: Seq<u8>,
    pub stderr: Seq<u8>,
}

impl View for CommandOutput {
    type V = OutputView;

    open spec fn view(&self) -> OutputView {
        OutputView {
            success: self.success,
            status: self.status@,
            stdout: self.stdout@,
            stderr: self.stderr@,
        }
    }
}

/// The two executables of an installation: `ramiz` and `git-ramiz`.
#[derive(Clone, Debug)]
pub struct BinaryPair {
    pub primary: Vec<u8>,
    pub secondary: Vec<u8>,
}

/// The model of a [`BinaryPair`].
#[verifier::ext_equal]
pub struct PairView {
    pub primary: Seq<u8>,
    pub secondary: Seq<u8>,
}

impl View for BinaryPair {
    type V = PairView;

    open spec fn view(&self) -> PairView {
        PairView { primary: self.primary@, secondary: self.secondary@ }
    }
}

/// The pair that an executable belongs to: whichever of the two runs, the
/// other lies beside it.
pub open spec fn pair_of(executable: Seq<u8>) -> PairView {
    if name_of(executable) == Some(utf8("git-ramiz"@)) {
        PairView {
            primary: renamed(executable, utf8("ramiz"@)),
            secondary: executable,
        }
    } else {
        PairView {
            primary: executable,
            secondary: renamed(executable, utf8("git-ramiz"@)),
        }
    }
}

impl BinaryPair {
    /// The pair that `executable` belongs to.
    pub fn from_executable(executable: &[u8]) -> (r: Self)
        ensures
            r@ == pair_of(executable@),
    {
        let companion = match file_name(executable) {
            Some(name) => same_bytes(name.as_slice(), utf8_of("git-ramiz")),
            None => false,
        };
        if companion {
            BinaryPair {
                primary: with_file_name(executable, utf8_of("ramiz")),
                secondary: copy(executable),
            }
        } else {
            BinaryPair {
                primary: copy(executable),
                secondary: with_file_name(executable, utf8_of("git-ramiz")),
            }
        }
    }

    /// The same pair again.
    pub fn duplicate(&self) -> (r: Self)
        ensures
            r@ == self@,
    {
        BinaryPair {
            primary: copy(self.primary.as_slice()),
            secondary: copy(self.secondary.as_slice()),
        }
    }
}

} // verus!
