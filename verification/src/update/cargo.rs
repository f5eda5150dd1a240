//! Updating through Cargo, and putting everything back where that fails.
use crate::json::{alike, document, document_of, is_alike, is_sound, sound, DEPTH};
use crate::outside::{lossy, lossy_text, utf8_text};
use crate::text::{copy, is_blank, stripped, text2, text_views, trim, utf8, utf8_of};
use crate::update::activation::applied_result;
use crate::update::io::{
    done, extends, outcome, remove_file_at, run_at, set_executable_at, write_file_at, IoEvent,
    UpdateIo,
};
use crate::update::model::{
    bytes_option, failure, BinaryPair, CommandOutput, CommandSpec, CommandView, FailureView,
    Installer, IoError, IoErrorKind, IoErrorView, OutputView, PairView, ResultView, UpdateFailure,
    UpdateResult,
};
use crate::update::records::{
    legacy_at, legacy_path, list_at, list_path, open_stream, other_documents, read_records,
    read_records_at, select_documents, sound_stream, stream_at, stream_path, Records, RecordsView,
};
use crate::update::transaction::{
    snapshot_at, snapshot_optional, verify_binaries, verify_binaries_at,
};
use vstd::prelude::*;
use vstd::utf8::{decode_utf8, valid_utf8};

verus! {

// ---------------------------------------------------------------------------
// What else Cargo recorded
// ---------------------------------------------------------------------------

/// The one value of a JSON file that can be opened at every level.
pub open spec fn sound_document(bytes: Seq<u8>) -> Option<Seq<char>> {
    if !valid_utf8(bytes) {
        None
    } else {
        match document_of(decode_utf8(bytes)) {
            None => None,
            Some(raw) => if sound(raw, DEPTH as nat) {
                Some(raw)
            } else {
                None
            },
        }
    }
}

/// A `.crates2.json` that records nothing.
pub open spec fn no_installs() -> Seq<u8> {
    utf8("{\"installs\":{}}"@)
}

/// What `.crates2.json` records of other packages is the same.
pub open spec fn legacy_kept(before: Option<Seq<u8>>, now: Seq<u8>) -> bool {
    let before = match before {
        Some(bytes) => bytes,
        None => no_installs(),
    };
    match (sound_document(before), sound_document(now)) {
        (Some(a), Some(b)) => alike(a, b, "ramiz "@, DEPTH as nat),
        _ => false,
    }
}

/// Two lists of JSON documents are the same.
pub open spec fn same_documents(a: Seq<Seq<char>>, b: Seq<Seq<char>>) -> bool {
    &&& a.len() == b.len()
    &&& forall|i: int|
        0 <= i < a.len() ==> alike(#[trigger] a[i], b[i], "ramiz "@, DEPTH as nat)
}

/// What the stream of cargo-binstall records of other packages is the same.
pub open spec fn stream_kept(before: Option<Seq<u8>>, now: Seq<u8>) -> bool {
    let before = match before {
        Some(bytes) => sound_stream(bytes),
        None => Some(Seq::empty()),
    };
    match (before, sound_stream(now)) {
        (Some(a), Some(b)) => same_documents(other_documents(a), other_documents(b)),
        _ => false,
    }
}

/// Nothing that `.crates2.json` and the stream say of other packages has
/// changed since `before`. One that is no longer there says nothing.
pub open spec fn others_kept(
    before: RecordsView,
    legacy: Option<Seq<u8>>,
    stream: Option<Seq<u8>>,
) -> bool {
    &&& legacy is Some ==> legacy_kept(before.legacy, legacy->0)
    &&& stream is Some ==> stream_kept(before.stream, stream->0)
}

fn open_document(bytes: &[u8]) -> (r: Option<String>)
    ensures
        match r {
            Some(raw) => sound_document(bytes@) == Some(raw@),
            None => sound_document(bytes@) is None,
        },
{
    let text = match utf8_text(bytes) {
        Ok(text) => text,
        Err(_) => return None,
    };
    match document(text.as_str()) {
        None => None,
        Some(raw) => {
            if is_sound(raw.as_str(), DEPTH) {
                Some(raw)
            } else {
                None
            }
        },
    }
}

/// What `.crates2.json` records of other packages is the same.
pub fn unrelated_cargo_json_equal(before: &Option<Vec<u8>>, now: &[u8]) -> (r: bool)
    ensures
        r == legacy_kept(bytes_option(*before), now@),
{
    let first = match before {
        Some(bytes) => open_document(bytes.as_slice()),
        None => open_document(utf8_of("{\"installs\":{}}")),
    };
    match (first, open_document(now)) {
        (Some(a), Some(b)) => is_alike(a.as_str(), b.as_str(), "ramiz ", DEPTH),
        _ => false,
    }
}

fn is_stream_kept(before: &Option<Vec<u8>>, now: &[u8]) -> (r: bool)
    ensures
        r == stream_kept(bytes_option(*before), now@),
{
    let first = match before {
        Some(bytes) => open_stream(bytes.as_slice()),
        None => {
            let none: Vec<String> = Vec::new();
            assert(text_views(none@) =~= Seq::empty());
            Some(none)
        },
    };
    match (first, open_stream(now)) {
        (Some(a), Some(b)) => {
            let a = select_documents(&a, false);
            let b = select_documents(&b, false);
            let ghost (x, y) = (text_views(a@), text_views(b@));
            if a.len() != b.len() {
                assert(x.len() != y.len());
                return false;
            }
            for i in 0..a.len()
                invariant
                    x == text_views(a@),
                    y == text_views(b@),
                    a@.len() == b@.len(),
                    same_documents(x, y) == stream_kept(bytes_option(*before), now@),
                    forall|k: int|
                        0 <= k < i ==> alike(#[trigger] x[k], y[k], "ramiz "@, DEPTH as nat),
            {
                assert(x[i as int] == a@[i as int]@ && y[i as int] == b@[i as int]@);
                if !is_alike(a[i].as_str(), b[i].as_str(), "ramiz ", DEPTH) {
                    return false;
                }
            }
            true
        },
        _ => false,
    }
}

/// Nothing that `.crates2.json` and the stream say of other packages has
/// changed since `before`.
pub fn are_others_kept(
    before: &Records,
    legacy: &Option<Vec<u8>>,
    stream: &Option<Vec<u8>>,
) -> (r: bool)
    ensures
        r == others_kept(before@, bytes_option(*legacy), bytes_option(*stream)),
{
    if let Some(bytes) = legacy {
        if !unrelated_cargo_json_equal(&before.legacy, bytes.as_slice()) {
            return false;
        }
    }
    if let Some(bytes) = stream {
        if !is_stream_kept(&before.stream, bytes.as_slice()) {
            return false;
        }
    }
    true
}

// ---------------------------------------------------------------------------
// Backup
// ---------------------------------------------------------------------------

/// What an installation by Cargo was before the update.
pub struct CargoBackup {
    pub paths: BinaryPair,
    pub root: Vec<u8>,
    pub primary: Option<Vec<u8>>,
    pub secondary: Option<Vec<u8>>,
    pub records: Records,
}

/// The model of a [`CargoBackup`].
#[verifier::ext_equal]
pub struct BackupView {
    pub paths: PairView,
    pub root: Seq<u8>,
    pub primary: Option<Seq<u8>>,
    pub secondary: Option<Seq<u8>>,
    pub records: RecordsView,
}

impl View for CargoBackup {
    type V = BackupView;

    open spec fn view(&self) -> BackupView {
        BackupView {
            paths: self.paths@,
            root: self.root@,
            primary: bytes_option(self.primary),
            secondary: bytes_option(self.secondary),
            records: self.records@,
        }
    }
}

/// A record that can prove an installation is there: `.crates2.json`, or else
/// the stream.
pub open spec fn record_found_at(l: Seq<IoEvent>, i: int, root: Seq<u8>) -> (
    Result<bool, IoErrorView>,
    int,
) {
    let (legacy, i) = snapshot_at(l, i, legacy_at(root));
    match legacy {
        Err(error) => (Err(error), i),
        Ok(Some(_)) => (Ok(true), i),
        Ok(None) => {
            let (stream, i) = snapshot_at(l, i, stream_at(root));
            match stream {
                Err(error) => (Err(error), i),
                Ok(stream) => (Ok(stream is Some), i),
            }
        },
    }
}

/// Reads both executables and the records. One of the records that can prove
/// an installation has to be there.
#[verifier::opaque]
pub open spec fn capture_backup_at(l: Seq<IoEvent>, i: int, paths: PairView, root: Seq<u8>) -> (
    Result<BackupView, FailureView>,
    int,
) {
    let (found, i) = record_found_at(l, i, root);
    match found {
        Err(error) => (Err(failure("cargo_snapshot_failed"@, error.message, root)), i),
        Ok(false) => (
            Err(
                failure(
                    "cargo_record_unproven"@,
                    "a Cargo installation record is required"@,
                    root,
                ),
            ),
            i,
        ),
        Ok(true) => {
            let (primary, i) = snapshot_at(l, i, paths.primary);
            match primary {
                Err(error) => (
                    Err(failure("cargo_snapshot_failed"@, error.message, paths.primary)),
                    i,
                ),
                Ok(primary) => {
                    let (secondary, i) = snapshot_at(l, i, paths.secondary);
                    match secondary {
                        Err(error) => (
                            Err(failure("cargo_snapshot_failed"@, error.message, paths.secondary)),
                            i,
                        ),
                        Ok(secondary) => {
                            let (records, i) = read_records_at(l, i, root);
                            match records {
                                Err(problem) => (
                                    Err(
                                        failure(
                                            "cargo_snapshot_failed"@,
                                            problem.error.message,
                                            problem.path,
                                        ),
                                    ),
                                    i,
                                ),
                                Ok(records) => (
                                    Ok(BackupView { paths, root, primary, secondary, records }),
                                    i,
                                ),
                            }
                        },
                    }
                },
            }
        },
    }
}

/// Writes an executable back, or removes it where there was none.
pub open spec fn restore_binary_at(
    l: Seq<IoEvent>,
    i: int,
    path: Seq<u8>,
    bytes: Option<Seq<u8>>,
) -> (Result<(), IoErrorView>, int) {
    match bytes {
        None => remove_file_at(l, i, path),
        Some(bytes) => {
            let (r, i) = write_file_at(l, i, path, bytes);
            match r {
                Err(error) => (Err(error), i),
                Ok(_) => set_executable_at(l, i, path),
            }
        },
    }
}

/// Writes a record back, or removes it where there was none.
pub open spec fn restore_record_at(
    l: Seq<IoEvent>,
    i: int,
    path: Seq<u8>,
    bytes: Option<Seq<u8>>,
) -> (Result<(), IoErrorView>, int) {
    match bytes {
        None => remove_file_at(l, i, path),
        Some(bytes) => write_file_at(l, i, path, bytes),
    }
}

/// Writes the three records back.
pub open spec fn restore_records_at(l: Seq<IoEvent>, i: int, backup: BackupView) -> (
    Result<(), IoErrorView>,
    int,
) {
    let (r, i) = restore_record_at(l, i, legacy_at(backup.root), backup.records.legacy);
    match r {
        Err(error) => (Err(error), i),
        Ok(_) => {
            let (r, i) = restore_record_at(l, i, list_at(backup.root), backup.records.list);
            match r {
                Err(error) => (Err(error), i),
                Ok(_) => restore_record_at(
                    l,
                    i,
                    stream_at(backup.root),
                    backup.records.stream,
                ),
            }
        },
    }
}

/// Reads `.crates2.json` and the stream, which other packages share.
pub open spec fn shared_records_at(l: Seq<IoEvent>, i: int, root: Seq<u8>) -> (
    Result<(Option<Seq<u8>>, Option<Seq<u8>>), IoErrorView>,
    int,
) {
    let (legacy, i) = snapshot_at(l, i, legacy_at(root));
    match legacy {
        Err(error) => (Err(error), i),
        Ok(legacy) => {
            let (stream, i) = snapshot_at(l, i, stream_at(root));
            match stream {
                Err(error) => (Err(error), i),
                Ok(stream) => (Ok((legacy, stream)), i),
            }
        },
    }
}

/// Puts the executables back, and the records too unless they changed for
/// another package meanwhile.
#[verifier::opaque]
pub open spec fn restore_backup_at(l: Seq<IoEvent>, i: int, backup: BackupView) -> (
    Result<(), IoErrorView>,
    int,
) {
    let (r, i) = restore_binary_at(l, i, backup.paths.primary, backup.primary);
    match r {
        Err(error) => (Err(error), i),
        Ok(_) => {
            let (r, i) = restore_binary_at(l, i, backup.paths.secondary, backup.secondary);
            match r {
                Err(error) => (Err(error), i),
                Ok(_) => {
                    let (now, i) = shared_records_at(l, i, backup.root);
                    match now {
                        Err(error) => (Err(error), i),
                        Ok((legacy, stream)) => if !others_kept(backup.records, legacy, stream) {
                            (
                                Err(
                                    IoErrorView {
                                        kind: IoErrorKind::Other,
                                        message:
                                            "unrelated Cargo installation changed while updating"@,
                                    },
                                ),
                                i,
                            )
                        } else {
                            restore_records_at(l, i, backup)
                        },
                    }
                },
            }
        },
    }
}

/// The view of a captured backup.
pub open spec fn backup_answer(r: Result<CargoBackup, UpdateFailure>) -> Result<
    BackupView,
    FailureView,
> {
    match r {
        Ok(backup) => Ok(backup@),
        Err(failure) => Err(failure@),
    }
}

fn restore_binary<I: UpdateIo>(io: &mut I, path: &[u8], bytes: &Option<Vec<u8>>) -> (r: Result<
    (),
    IoError,
>)
    ensures
        extends(final(io).log(), old(io).log()),
        forall|l: Seq<IoEvent>|
            extends(l, final(io).log()) ==> #[trigger] restore_binary_at(
                l,
                old(io).log().len() as int,
                path@,
                bytes_option(*bytes),
            ) == (done(r), final(io).log().len() as int),
{
    match bytes {
        None => io.remove_file(path),
        Some(bytes) => {
            if let Err(error) = io.write_file(path, bytes.as_slice()) {
                return Err(error);
            }
            io.set_executable(path)
        },
    }
}

fn restore_record<I: UpdateIo>(io: &mut I, path: &[u8], bytes: &Option<Vec<u8>>) -> (r: Result<
    (),
    IoError,
>)
    ensures
        extends(final(io).log(), old(io).log()),
        forall|l: Seq<IoEvent>|
            extends(l, final(io).log()) ==> #[trigger] restore_record_at(
                l,
                old(io).log().len() as int,
                path@,
                bytes_option(*bytes),
            ) == (done(r), final(io).log().len() as int),
{
    match bytes {
        None => io.remove_file(path),
        Some(bytes) => io.write_file(path, bytes.as_slice()),
    }
}

fn is_record_found<I: UpdateIo>(io: &mut I, root: &[u8]) -> (r: Result<bool, IoError>)
    ensures
        extends(final(io).log(), old(io).log()),
        forall|l: Seq<IoEvent>|
            extends(l, final(io).log()) ==> #[trigger] record_found_at(
                l,
                old(io).log().len() as int,
                root@,
            ) == (
                match r {
                    Ok(found) => Ok::<bool, IoErrorView>(found),
                    Err(error) => Err(error@),
                },
                final(io).log().len() as int,
            ),
{
    match snapshot_optional(io, legacy_path(root).as_slice()) {
        Err(error) => return Err(error),
        Ok(Some(_)) => return Ok(true),
        Ok(None) => {},
    }
    match snapshot_optional(io, stream_path(root).as_slice()) {
        Err(error) => Err(error),
        Ok(stream) => Ok(stream.is_some()),
    }
}

impl CargoBackup {
    /// Reads both executables and the records below `root`.
    pub fn capture<I: UpdateIo>(io: &mut I, paths: &BinaryPair, root: &[u8]) -> (r: Result<
        Self,
        UpdateFailure,
    >)
        ensures
            extends(final(io).log(), old(io).log()),
            forall|l: Seq<IoEvent>|
                extends(l, final(io).log()) ==> #[trigger] capture_backup_at(
                    l,
                    old(io).log().len() as int,
                    paths@,
                    root@,
                ) == (backup_answer(r), final(io).log().len() as int),
    {
        proof {
            reveal(capture_backup_at);
        }
        match is_record_found(io, root) {
            Ok(true) => {},
            Ok(false) => {
                return Err(
                    UpdateFailure::new(
                        "cargo_record_unproven",
                        "a Cargo installation record is required".to_owned(),
                        root,
                    ),
                );
            },
            Err(error) => {
                return Err(UpdateFailure::new("cargo_snapshot_failed", error.message, root));
            },
        }
        let path = paths.primary.as_slice();
        let primary = match snapshot_optional(io, path) {
            Ok(bytes) => bytes,
            Err(error) => {
                return Err(UpdateFailure::new("cargo_snapshot_failed", error.message, path));
            },
        };
        let path = paths.secondary.as_slice();
        let secondary = match snapshot_optional(io, path) {
            Ok(bytes) => bytes,
            Err(error) => {
                return Err(UpdateFailure::new("cargo_snapshot_failed", error.message, path));
            },
        };
        let records = match read_records(io, root) {
            Ok(records) => records,
            Err(problem) => {
                return Err(
                    UpdateFailure::new(
                        "cargo_snapshot_failed",
                        problem.error.message,
                        problem.path.as_slice(),
                    ),
                );
            },
        };
        Ok(
            CargoBackup { paths: paths.duplicate(), root: copy(root), primary, secondary, records },
        )
    }

    /// Puts the executables back, and the records too unless they changed for
    /// another package meanwhile.
    pub fn restore<I: UpdateIo>(&self, io: &mut I) -> (r: Result<(), IoError>)
        ensures
            extends(final(io).log(), old(io).log()),
            forall|l: Seq<IoEvent>|
                extends(l, final(io).log()) ==> #[trigger] restore_backup_at(
                    l,
                    old(io).log().len() as int,
                    self@,
                ) == (done(r), final(io).log().len() as int),
    {
        proof {
            reveal(restore_backup_at);
        }
        if let Err(error) = restore_binary(io, self.paths.primary.as_slice(), &self.primary) {
            return Err(error);
        }
        if let Err(error) = restore_binary(io, self.paths.secondary.as_slice(), &self.secondary) {
            return Err(error);
        }
        let root = self.root.as_slice();
        let legacy = match snapshot_optional(io, legacy_path(root).as_slice()) {
            Ok(bytes) => bytes,
            Err(error) => return Err(error),
        };
        let stream = match snapshot_optional(io, stream_path(root).as_slice()) {
            Ok(bytes) => bytes,
            Err(error) => return Err(error),
        };
        if !are_others_kept(&self.records, &legacy, &stream) {
            return Err(
                IoError {
                    kind: IoErrorKind::Other,
                    message: "unrelated Cargo installation changed while updating".to_owned(),
                },
            );
        }
        if let Err(error) = restore_record(io, legacy_path(root).as_slice(), &self.records.legacy) {
            return Err(error);
        }
        if let Err(error) = restore_record(io, list_path(root).as_slice(), &self.records.list) {
            return Err(error);
        }
        restore_record(io, stream_path(root).as_slice(), &self.records.stream)
    }
}

// ---------------------------------------------------------------------------
// Installing
// ---------------------------------------------------------------------------

/// What is said of an installer that failed.
pub open spec fn process_problem(output: OutputView) -> Seq<char> {
    let said = stripped(lossy_text(output.stderr));
    if said.len() == 0 {
        "installer exited with "@ + output.status
    } else {
        "installer failed: "@ + said
    }
}

/// What is said of an installer that failed.
pub fn process_failure(output: &CommandOutput) -> (r: String)
    ensures
        r@ == process_problem(output@),
{
    let said = lossy(output.stderr.as_slice());
    if is_blank(said.as_str()) {
        text2("installer exited with ", output.status.as_str())
    } else {
        text2("installer failed: ", trim(said.as_str()).as_str())
    }
}

/// A failure of the command that updates an installation by Cargo.
pub open spec fn command_failure(failure: FailureView, command: CommandView) -> FailureView {
    failure.of_installer(Installer::Cargo).of_command(command)
}

/// A result that says the update took effect through `command`.
pub open spec fn commanded_result(result: ResultView, command: CommandView) -> ResultView {
    ResultView { commands: result.commands.push(command), ..applied_result(result) }
}

/// Runs the installer and tries both executables out.
#[verifier::opaque]
pub open spec fn install_at(
    l: Seq<IoEvent>,
    i: int,
    command: CommandView,
    paths: PairView,
    version: Seq<char>,
    result: ResultView,
) -> (Result<ResultView, FailureView>, int) {
    let (ran, i) = run_at(l, i, utf8(command.program), command.args);
    match ran {
        Err(error) => (
            Err(
                command_failure(
                    failure("installer_failed"@, error.message, paths.primary),
                    command,
                ),
            ),
            i,
        ),
        Ok(output) => if !output.success {
            (
                Err(
                    command_failure(
                        failure("installer_failed"@, process_problem(output), paths.primary),
                        command,
                    ),
                ),
                i,
            )
        } else {
            let (r, i) = verify_binaries_at(l, i, paths, version);
            match r {
                Err(failure) => (Err(command_failure(failure, command)), i),
                Ok(_) => (Ok(commanded_result(result, command)), i),
            }
        },
    }
}

/// Runs the installer and tries both executables out.
pub fn install<I: UpdateIo>(
    io: &mut I,
    command: &CommandSpec,
    paths: &BinaryPair,
    version: &str,
    result: UpdateResult,
) -> (r: Result<UpdateResult, UpdateFailure>)
    ensures
        extends(final(io).log(), old(io).log()),
        forall|l: Seq<IoEvent>|
            extends(l, final(io).log()) ==> #[trigger] install_at(
                l,
                old(io).log().len() as int,
                command@,
                paths@,
                version@,
                result@,
            ) == (outcome(r), final(io).log().len() as int),
{
    proof {
        reveal(install_at);
    }
    let primary = paths.primary.as_slice();
    let output = match io.run(utf8_of(command.program.as_str()), &command.args) {
        Ok(output) => output,
        Err(error) => {
            return Err(
                UpdateFailure::new("installer_failed", error.message, primary).with_installer(
                    Installer::Cargo,
                ).with_command(command.duplicate()),
            );
        },
    };
    if !output.success {
        return Err(
            UpdateFailure::new(
                "installer_failed",
                process_failure(&output),
                primary,
            ).with_installer(Installer::Cargo).with_command(command.duplicate()),
        );
    }
    if let Err(failure) = verify_binaries(io, paths, version) {
        return Err(
            failure.with_installer(Installer::Cargo).with_command(command.duplicate()),
        );
    }
    let mut result = result;
    let ghost before = result@;
    result.applied = true;
    result.changed = true;
    result.commands.push(command.duplicate());
    result.message = "update applied".to_owned();
    assert(result@.commands =~= before.commands.push(command@));
    Ok(result)
}

} // verus!
