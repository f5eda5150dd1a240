//! Updates of installations by every installer, on a machine made of a map.
use ramiz::update::{
    ArtifactVerifier, CommandOutput, DownloadedRelease, Installer, IoError, IoErrorKind,
    ReleaseMetadata, ReleaseProvider, UpdateFailure, UpdateIo, UpdateRequest, UpdateService,
};
use ramiz::update::cargo::CargoBackup;
use ramiz::update::model::BinaryPair;
use sha2::{Digest, Sha256};
use std::collections::{HashMap, HashSet};

fn p(text: &str) -> Vec<u8> {
    text.as_bytes().to_vec()
}

fn at(root: &[u8], tail: &str) -> Vec<u8> {
    ramiz::path::join(root, tail.as_bytes())
}

fn beside(path: &[u8], name: &str) -> Vec<u8> {
    ramiz::path::with_file_name(path, name.as_bytes())
}

fn shown(path: &[u8]) -> String {
    String::from_utf8_lossy(path).into_owned()
}

fn problem(kind: IoErrorKind, message: &str) -> IoError {
    IoError {
        kind,
        message: message.into(),
    }
}

fn success_output() -> CommandOutput {
    CommandOutput {
        success: true,
        status: "exit status: 0".into(),
        stdout: Vec::new(),
        stderr: Vec::new(),
    }
}

fn failure_output() -> CommandOutput {
    CommandOutput {
        success: false,
        status: "exit status: 1".into(),
        stdout: Vec::new(),
        stderr: Vec::new(),
    }
}

#[derive(Default)]
struct FakeIo {
    files: HashMap<Vec<u8>, Vec<u8>>,
    cargo_home: Option<Vec<u8>>,
    available_commands: HashSet<String>,
    commands: Vec<(Vec<u8>, Vec<String>)>,
    installed_version: String,
    fail_stage_secondary: bool,
    fail_final_secondary_verification: bool,
    fail_installer: bool,
    fail_aux_signature_permissions: bool,
    fail_restore: bool,
    fail_read_sidecar: bool,
    unreadable_path: Option<Vec<u8>>,
    mutate_on_lock: bool,
    mutate_cargo_on_lock: bool,
    mutate_unrelated_record: bool,
    lock_held: bool,
    fail_release: bool,
    locks: Vec<Vec<u8>>,
    given_back: Vec<Vec<u8>>,
}

impl FakeIo {
    fn file(&mut self, path: impl AsRef<[u8]>, contents: impl AsRef<[u8]>) {
        self.files
            .insert(path.as_ref().to_vec(), contents.as_ref().to_vec());
    }

    fn has(&self, path: &[u8]) -> bool {
        self.files.contains_key(path)
    }
}

impl UpdateIo for FakeIo {
    fn cargo_home(&mut self) -> Option<Vec<u8>> {
        self.cargo_home.clone()
    }

    fn cargo_install_root(&mut self) -> Option<Vec<u8>> {
        self.cargo_home.clone()
    }

    fn effective_user(&mut self) -> u32 {
        501
    }

    fn canonicalize(&mut self, path: &[u8]) -> Result<Vec<u8>, IoError> {
        Ok(path.to_vec())
    }

    fn is_file(&mut self, path: &[u8]) -> bool {
        self.has(path)
    }

    fn path_exists(&mut self, path: &[u8]) -> bool {
        self.has(path)
    }

    fn read_file(&mut self, path: &[u8]) -> Result<Vec<u8>, IoError> {
        if self.unreadable_path.as_deref() == Some(path) {
            return Err(problem(IoErrorKind::PermissionDenied, "permission denied"));
        }
        if self.fail_read_sidecar && shown(path).contains(".ramiz-checksums") {
            return Err(problem(IoErrorKind::PermissionDenied, "permission denied"));
        }
        match self.files.get(path) {
            Some(bytes) => Ok(bytes.clone()),
            None => Err(problem(IoErrorKind::NotFound, "entity not found")),
        }
    }

    fn read_string(&mut self, path: &[u8]) -> Result<String, IoError> {
        match self.files.get(path) {
            Some(bytes) => Ok(shown(bytes)),
            None => Err(problem(IoErrorKind::NotFound, "entity not found")),
        }
    }

    fn command_available(&mut self, command: &str) -> bool {
        self.available_commands.contains(command)
    }

    fn run(&mut self, command: &[u8], args: &Vec<String>) -> Result<CommandOutput, IoError> {
        self.commands.push((command.to_vec(), args.clone()));
        let name = shown(command);
        let binstall = name == "cargo-binstall" || name.ends_with("/cargo-binstall");
        let installing = args.first().map(String::as_str) == Some("install") || binstall;
        if self.fail_installer && installing {
            return Ok(failure_output());
        }
        if installing {
            let version = args
                .windows(2)
                .find(|pair| pair[0] == "--version")
                .map_or("1.1.0".to_owned(), |pair| pair[1].clone());
            let root = args
                .windows(2)
                .find(|pair| pair[0] == "--root")
                .map_or(p("/cargo"), |pair| p(&pair[1]));
            if binstall {
                binstall_records_in(&mut self.files, &root, &version);
            } else {
                legacy_cargo_records_in(&mut self.files, &root, &version);
            }
        }
        if self.mutate_unrelated_record && installing {
            self.files.insert(
                p("/cargo/.crates2.json"),
                br#"{"installs":{"ramiz 1.1.0 (registry+https://github.com/rust-lang/crates.io-index)":{"bins":["ramiz","git-ramiz"]},"other 1.0.0 (registry+https://github.com/rust-lang/crates.io-index)":{"bins":["other"]}}}"#.to_vec(),
            );
            self.files.insert(
                p("/cargo/binstall/crates-v1.json"),
                br#"{"name":"ramiz","version_req":"=1.1.0","current_version":"1.1.0","source":{"source_type":"Registry","url":"https://github.com/rust-lang/crates.io-index"},"target":"test-host","bins":["ramiz","git-ramiz"]}{"name":"other","version_req":"=1.0.0","current_version":"1.0.0","source":{"source_type":"Registry","url":"https://github.com/rust-lang/crates.io-index"},"target":"test-host","bins":["other"]}"#.to_vec(),
            );
        }
        if args.first().map(String::as_str) == Some("--version") {
            if self.fail_final_secondary_verification
                && name.ends_with("/git-ramiz")
                && !name.contains("stage")
            {
                return Ok(failure_output());
            }
            let mut output = success_output();
            output.stdout = format!("ramiz {}\n", self.installed_version).into_bytes();
            return Ok(output);
        }
        Ok(success_output())
    }

    fn write_file(&mut self, path: &[u8], bytes: &[u8]) -> Result<(), IoError> {
        if self.fail_stage_secondary && shown(path).contains("git-ramiz.stage") {
            return Err(problem(IoErrorKind::Other, "injected stage failure"));
        }
        self.files.insert(path.to_vec(), bytes.to_vec());
        Ok(())
    }

    fn create_staged_file(&mut self, path: &[u8], bytes: &[u8]) -> Result<(), IoError> {
        self.write_file(path, bytes)
    }

    fn set_owner_only(&mut self, path: &[u8]) -> Result<(), IoError> {
        if self.fail_aux_signature_permissions
            && shown(path).ends_with("/.ramiz-checksums.txt.minisig")
        {
            return Err(problem(
                IoErrorKind::Other,
                "injected sidecar permission failure",
            ));
        }
        Ok(())
    }

    fn set_executable(&mut self, _path: &[u8]) -> Result<(), IoError> {
        Ok(())
    }

    fn rename(&mut self, from: &[u8], to: &[u8]) -> Result<(), IoError> {
        if self.fail_restore && shown(from).contains("previous") {
            return Err(problem(IoErrorKind::Other, "injected rollback failure"));
        }
        let Some(bytes) = self.files.remove(from) else {
            return Err(problem(IoErrorKind::NotFound, "entity not found"));
        };
        self.files.insert(to.to_vec(), bytes);
        Ok(())
    }

    fn remove_file(&mut self, path: &[u8]) -> Result<(), IoError> {
        self.files.remove(path);
        Ok(())
    }

    fn acquire_lock(&mut self, path: &[u8]) -> Result<(), IoError> {
        if self.lock_held {
            return Err(problem(IoErrorKind::AlreadyExists, "held"));
        }
        self.lock_held = true;
        self.locks.push(path.to_vec());
        if self.mutate_on_lock {
            let primary = p("/standalone/bin/ramiz");
            let companion = p("/standalone/bin/git-ramiz");
            if self.files.contains_key(&primary) {
                self.file(&primary, "newer ramiz");
                self.file(&companion, "old git-ramiz");
                self.file(
                    beside(&primary, ".ramiz-owner.json"),
                    marker_for(b"newer ramiz", b"old git-ramiz"),
                );
                self.file(beside(&primary, ".ramiz-checksums.txt"), "new checksums");
                self.file(
                    beside(&primary, ".ramiz-checksums.txt.minisig"),
                    "new signature",
                );
            }
        }
        if self.mutate_cargo_on_lock {
            legacy_cargo_records_in(&mut self.files, b"/cargo", "2.0.0");
        }
        Ok(())
    }

    fn release_lock(&mut self, path: &[u8]) -> Result<(), IoError> {
        self.lock_held = false;
        self.given_back.push(path.to_vec());
        if self.fail_release {
            return Err(problem(IoErrorKind::Other, "injected release failure"));
        }
        Ok(())
    }
}

struct FakeProvider {
    metadata: ReleaseMetadata,
    release: DownloadedRelease,
}

impl ReleaseProvider for FakeProvider {
    fn latest(&mut self, _host: &str) -> Result<ReleaseMetadata, UpdateFailure> {
        Ok(self.metadata.clone())
    }

    fn exact_release(
        &mut self,
        version: &str,
        host: &str,
    ) -> Result<ReleaseMetadata, UpdateFailure> {
        let metadata = self.latest(host)?;
        ramiz::update::release::exact_release_from_latest(metadata, version)
    }

    fn download(
        &mut self,
        _metadata: &ReleaseMetadata,
    ) -> Result<DownloadedRelease, UpdateFailure> {
        Ok(self.release.clone())
    }

    fn trust_material(&mut self) -> Option<(Vec<u8>, Vec<u8>)> {
        Some((b"checksums".to_vec(), b"signature".to_vec()))
    }

    fn validate_local_material(
        &mut self,
        _checksums: &[u8],
        _signature: &[u8],
        _version: &str,
        _host: &str,
    ) -> Result<(), UpdateFailure> {
        Ok(())
    }
}

struct FakeVerifier;

impl ArtifactVerifier for FakeVerifier {
    fn verify(
        &mut self,
        _metadata: &ReleaseMetadata,
        _release: &DownloadedRelease,
    ) -> Result<(), UpdateFailure> {
        Ok(())
    }
}

fn metadata() -> ReleaseMetadata {
    ReleaseMetadata {
        repository: "agensfield/ramiz".into(),
        version: "1.1.0".into(),
        host: "test-host".into(),
        primary_asset: "ramiz-test".into(),
        secondary_asset: "git-ramiz-test".into(),
        archive_sha256: "sha256".into(),
        signature_verified: true,
    }
}

fn service(io: FakeIo) -> UpdateService<FakeIo, FakeProvider, FakeVerifier> {
    UpdateService {
        io,
        provider: FakeProvider {
            metadata: metadata(),
            release: DownloadedRelease {
                primary: b"new ramiz".to_vec(),
                secondary: b"new git-ramiz".to_vec(),
            },
        },
        verifier: FakeVerifier,
        host: "test-host".into(),
    }
}

fn marker_for(primary: &[u8], secondary: &[u8]) -> String {
    let digest = |bytes: &[u8]| {
        let mut encoded = String::with_capacity(64);
        for byte in Sha256::digest(bytes) {
            encoded.push_str(&format!("{byte:02x}"));
        }
        encoded
    };
    format!(
        r#"{{"repository":"agensfield/ramiz","version":"1.0.0","host":"test-host","primary_sha256":"{}","secondary_sha256":"{}","archive_sha256":"{}"}}"#,
        digest(primary),
        digest(secondary),
        digest(b"checksums")
    )
}

fn cargo_v1_manifest(version: &str) -> String {
    format!(
        "[v1]\n\"other 1.0.0 (git+https://example.invalid/other)\" = [\n    \"other\",\n]\n\"ramiz {version} (registry+https://github.com/rust-lang/crates.io-index)\" = [\n    \"git-ramiz\",\n    \"ramiz\",\n]\n"
    )
}

fn legacy_cargo_manifest(version: &str) -> String {
    format!(
        r#"{{"installs":{{"ramiz {version} (registry+https://github.com/rust-lang/crates.io-index)":{{"bins":["ramiz","git-ramiz"]}}}}}}"#
    )
}

fn binstall_manifest(version: &str, target: &str) -> String {
    format!(
        r#"{{"name":"ramiz","version_req":"={version}","current_version":"{version}","source":{{"source_type":"Registry","url":"https://github.com/rust-lang/crates.io-index"}},"target":"{target}","bins":["ramiz","git-ramiz"]}}{{"name":"other","version_req":"=1.0.0","current_version":"1.0.0","source":{{"source_type":"Registry","url":"https://github.com/rust-lang/crates.io-index"}},"target":"test-host","bins":["other"]}}"#
    )
}

fn legacy_cargo_records_in(files: &mut HashMap<Vec<u8>, Vec<u8>>, root: &[u8], version: &str) {
    files.insert(at(root, ".crates.toml"), cargo_v1_manifest(version).into());
    files.insert(
        at(root, ".crates2.json"),
        legacy_cargo_manifest(version).into(),
    );
}

fn binstall_records_in(files: &mut HashMap<Vec<u8>, Vec<u8>>, root: &[u8], version: &str) {
    files.insert(at(root, ".crates.toml"), cargo_v1_manifest(version).into());
    files.insert(
        at(root, "binstall/crates-v1.json"),
        binstall_manifest(version, "test-host").into(),
    );
}

fn legacy_cargo_records(io: &mut FakeIo, root: &[u8], version: &str) {
    legacy_cargo_records_in(&mut io.files, root, version);
}

fn binstall_records(io: &mut FakeIo, root: &[u8], version: &str) {
    binstall_records_in(&mut io.files, root, version);
}

#[test]
fn homebrew_refusal_contains_exact_upgrade_command() {
    let mut io = FakeIo::default();
    let executable = p("/opt/homebrew/Cellar/ramiz/1.0.0/bin/ramiz");
    io.file(&executable, "old");
    let mut service = service(io);
    let error = service
        .run(&UpdateRequest::new(false, &executable, "1.0.0"))
        .unwrap_err();
    assert_eq!(error.code, "homebrew_owned");
    assert_eq!(error.installer, Some(Installer::Homebrew));
    let command = error.command.unwrap();
    assert_eq!(command.program, "brew");
    assert_eq!(command.args, ["upgrade", "agensfield/tap/ramiz"]);
    assert!(error.message.contains("brew upgrade agensfield/tap/ramiz"));
}

#[test]
fn unknown_manager_refuses_without_adoption() {
    let executable = p("/custom/bin/ramiz");
    let companion = p("/custom/bin/git-ramiz");
    let mut io = FakeIo::default();
    io.file(&executable, "old");
    io.file(&companion, "old companion");
    let mut service = service(io);
    let error = service
        .run(&UpdateRequest::new(false, &executable, "1.0.0"))
        .unwrap_err();
    assert_eq!(error.code, "unknown_installer");
    assert_eq!(error.installer, Some(Installer::Unknown));
}

#[test]
fn cargo_prefers_binstall_and_pins_exact_version() {
    let cargo_home = p("/cargo");
    let executable = at(&cargo_home, "bin/ramiz");
    let companion = at(&cargo_home, "bin/git-ramiz");
    let mut io = FakeIo {
        cargo_home: Some(cargo_home.clone()),
        ..FakeIo::default()
    };
    io.available_commands.insert("cargo-binstall".into());
    io.file(&executable, "old");
    io.file(&companion, "old");
    binstall_records(&mut io, &cargo_home, "1.0.0");
    io.installed_version = "1.1.0".into();
    let mut service = service(io);
    let result = service
        .run(&UpdateRequest::new(false, &executable, "1.0.0"))
        .unwrap();
    assert!(result.applied);
    assert_eq!(result.commands.len(), 1);
    assert_eq!(result.commands[0].program, "cargo-binstall");
    assert_eq!(
        result.commands[0].args,
        ["ramiz", "--version", "1.1.0", "--force", "--root", "/cargo"]
    );
    assert!(shown(&service.io.commands[0].0).ends_with("cargo-binstall"));
}

#[test]
fn cargo_binstall_v123_shape_is_accepted_without_crates2() {
    let cargo_home = p("/cargo");
    let executable = at(&cargo_home, "bin/ramiz");
    let companion = at(&cargo_home, "bin/git-ramiz");
    let mut io = FakeIo {
        cargo_home: Some(cargo_home.clone()),
        installed_version: "1.1.0".into(),
        ..FakeIo::default()
    };
    io.available_commands.insert("cargo-binstall".into());
    io.file(&executable, "old");
    io.file(&companion, "old");
    binstall_records(&mut io, &cargo_home, "1.0.0");
    let mut service = service(io);
    assert_eq!(
        service
            .run(&UpdateRequest::new(false, &executable, "1.0.0"))
            .unwrap()
            .installer,
        Installer::Cargo
    );
}

#[test]
fn unpinned_binstall_requirement_proves_the_installed_version() {
    for requirement in ["*", "^1"] {
        let cargo_home = p("/cargo");
        let executable = at(&cargo_home, "bin/ramiz");
        let companion = at(&cargo_home, "bin/git-ramiz");
        let mut io = FakeIo {
            cargo_home: Some(cargo_home.clone()),
            ..FakeIo::default()
        };
        io.file(&executable, "old");
        io.file(&companion, "old");
        binstall_records(&mut io, &cargo_home, "1.0.0");
        let selected = binstall_manifest("1.0.0", "test-host").replacen(
            r#""version_req":"=1.0.0""#,
            &format!(r#""version_req":"{requirement}""#),
            1,
        );
        io.file(at(&cargo_home, "binstall/crates-v1.json"), selected);
        let mut service = service(io);
        let result = service
            .run(&UpdateRequest::new(true, &executable, "1.0.0"))
            .unwrap();
        assert_eq!(result.installer, Installer::Cargo);
    }
}

#[test]
fn cargo_binstall_conflicting_ramiz_provenance_is_unknown() {
    let cargo_home = p("/cargo");
    let executable = at(&cargo_home, "bin/ramiz");
    let companion = at(&cargo_home, "bin/git-ramiz");
    let mut io = FakeIo {
        cargo_home: Some(cargo_home.clone()),
        ..FakeIo::default()
    };
    io.file(&executable, "old");
    io.file(&companion, "old companion");
    binstall_records(&mut io, &cargo_home, "1.0.0");
    io.file(
        at(&cargo_home, "binstall/crates-v1.json"),
        r#"{"name":"ramiz","version_req":"=1.0.0","current_version":"1.0.0","source":{"source_type":"Git","url":"https://example.invalid/ramiz"},"target":"test-host","bins":["ramiz","git-ramiz"]}"#,
    );
    let mut service = service(io);
    let error = service
        .run(&UpdateRequest::new(false, &executable, "1.0.0"))
        .unwrap_err();
    assert_eq!(error.code, "unknown_installer");
    assert_eq!(error.installer, Some(Installer::Unknown));
}

#[test]
fn conflicting_manager_versions_never_authorize_an_installer() {
    let cargo_home = p("/cargo");
    let executable = at(&cargo_home, "bin/ramiz");
    let companion = at(&cargo_home, "bin/git-ramiz");
    let mut io = FakeIo {
        cargo_home: Some(cargo_home.clone()),
        ..FakeIo::default()
    };
    io.file(&executable, "old");
    io.file(&companion, "old companion");
    legacy_cargo_records(&mut io, &cargo_home, "1.0.0");
    io.file(at(&cargo_home, ".crates.toml"), cargo_v1_manifest("2.0.0"));
    io.file(
        at(&cargo_home, "binstall/crates-v1.json"),
        binstall_manifest("2.0.0", "test-host"),
    );
    let mut service = service(io);
    let error = service
        .run(&UpdateRequest::new(false, &executable, "1.0.0"))
        .unwrap_err();
    assert_eq!(error.code, "cargo_record_unproven");
    assert!(service.io.commands.is_empty());
}

#[test]
fn cargo_version_change_while_acquiring_lock_refuses_before_installer() {
    let cargo_home = p("/cargo");
    let executable = at(&cargo_home, "bin/ramiz");
    let companion = at(&cargo_home, "bin/git-ramiz");
    let mut io = FakeIo {
        cargo_home: Some(cargo_home.clone()),
        mutate_cargo_on_lock: true,
        ..FakeIo::default()
    };
    io.file(&executable, "old");
    io.file(&companion, "old companion");
    legacy_cargo_records(&mut io, &cargo_home, "1.0.0");
    let mut service = service(io);
    let error = service
        .run(&UpdateRequest::new(false, &executable, "1.0.0"))
        .unwrap_err();
    assert_eq!(error.code, "installation_changed");
    assert!(service.io.commands.is_empty());
}

#[test]
fn malformed_present_legacy_record_fails_closed() {
    let cargo_home = p("/cargo");
    let executable = at(&cargo_home, "bin/ramiz");
    let companion = at(&cargo_home, "bin/git-ramiz");
    let mut io = FakeIo {
        cargo_home: Some(cargo_home.clone()),
        ..FakeIo::default()
    };
    io.file(&executable, "old");
    io.file(&companion, "old companion");
    binstall_records(&mut io, &cargo_home, "1.0.0");
    io.file(at(&cargo_home, ".crates2.json"), "{broken");
    let mut service = service(io);
    let error = service
        .run(&UpdateRequest::new(false, &executable, "1.0.0"))
        .unwrap_err();
    assert_eq!(error.code, "unknown_installer");
    assert!(service.io.commands.is_empty());
}

#[test]
fn unreadable_present_manager_record_fails_closed() {
    let cargo_home = p("/cargo");
    let executable = at(&cargo_home, "bin/ramiz");
    let companion = at(&cargo_home, "bin/git-ramiz");
    let legacy = at(&cargo_home, ".crates2.json");
    let mut io = FakeIo {
        cargo_home: Some(cargo_home.clone()),
        unreadable_path: Some(legacy.clone()),
        ..FakeIo::default()
    };
    io.file(&executable, "old");
    io.file(&companion, "old companion");
    binstall_records(&mut io, &cargo_home, "1.0.0");
    io.file(&legacy, legacy_cargo_manifest("1.0.0"));
    let mut service = service(io);
    let error = service
        .run(&UpdateRequest::new(false, &executable, "1.0.0"))
        .unwrap_err();
    assert_eq!(error.code, "unknown_installer");
    assert!(service.io.commands.is_empty());
}

#[test]
fn source_less_and_duplicate_legacy_identities_fail_closed() {
    for record in [
        r#"{"installs":{"ramiz 1.0.0":{"bins":["ramiz","git-ramiz"]}}}"#,
        r#"{"installs":{"ramiz 1.0.0 (registry+https://github.com/rust-lang/crates.io-index)":{"bins":["ramiz","git-ramiz"]},"ramiz 1.0.0 (registry+https://github.com/rust-lang/crates.io-index)":{"bins":["ramiz","git-ramiz"]}}}"#,
    ] {
        let cargo_home = p("/cargo");
        let executable = at(&cargo_home, "bin/ramiz");
        let companion = at(&cargo_home, "bin/git-ramiz");
        let mut io = FakeIo {
            cargo_home: Some(cargo_home.clone()),
            ..FakeIo::default()
        };
        io.file(&executable, "old");
        io.file(&companion, "old companion");
        io.file(at(&cargo_home, ".crates.toml"), cargo_v1_manifest("1.0.0"));
        io.file(at(&cargo_home, ".crates2.json"), record);
        let mut service = service(io);
        assert_eq!(
            service
                .run(&UpdateRequest::new(false, &executable, "1.0.0"))
                .unwrap_err()
                .code,
            "unknown_installer"
        );
        assert!(service.io.commands.is_empty());
    }
}

#[test]
fn binstall_target_must_match_the_host() {
    let cargo_home = p("/cargo");
    let executable = at(&cargo_home, "bin/ramiz");
    let companion = at(&cargo_home, "bin/git-ramiz");
    let mut io = FakeIo {
        cargo_home: Some(cargo_home.clone()),
        ..FakeIo::default()
    };
    io.file(&executable, "old");
    io.file(&companion, "old companion");
    io.file(at(&cargo_home, ".crates.toml"), cargo_v1_manifest("1.0.0"));
    io.file(
        at(&cargo_home, "binstall/crates-v1.json"),
        binstall_manifest("1.0.0", "wrong-platform"),
    );
    let mut service = service(io);
    assert_eq!(
        service
            .run(&UpdateRequest::new(false, &executable, "1.0.0"))
            .unwrap_err()
            .code,
        "unknown_installer"
    );
}

#[test]
fn binstall_requirement_must_include_the_recorded_version() {
    for requirement in ["^2", "not a requirement"] {
        let cargo_home = p("/cargo");
        let executable = at(&cargo_home, "bin/ramiz");
        let companion = at(&cargo_home, "bin/git-ramiz");
        let mut io = FakeIo {
            cargo_home: Some(cargo_home.clone()),
            ..FakeIo::default()
        };
        io.file(&executable, "old");
        io.file(&companion, "old companion");
        io.file(at(&cargo_home, ".crates.toml"), cargo_v1_manifest("1.0.0"));
        let inconsistent = binstall_manifest("1.0.0", "test-host").replacen(
            r#""version_req":"=1.0.0""#,
            &format!(r#""version_req":"{requirement}""#),
            1,
        );
        io.file(at(&cargo_home, "binstall/crates-v1.json"), inconsistent);
        let mut service = service(io);
        assert_eq!(
            service
                .run(&UpdateRequest::new(false, &executable, "1.0.0"))
                .unwrap_err()
                .code,
            "unknown_installer"
        );
    }
}

#[test]
fn linux_gnu_and_musl_binstall_targets_are_compatible() {
    let cargo_home = p("/cargo");
    let executable = at(&cargo_home, "bin/ramiz");
    let companion = at(&cargo_home, "bin/git-ramiz");
    let mut io = FakeIo {
        cargo_home: Some(cargo_home.clone()),
        installed_version: "1.1.0".into(),
        ..FakeIo::default()
    };
    io.file(&executable, "old");
    io.file(&companion, "old companion");
    io.file(at(&cargo_home, ".crates.toml"), cargo_v1_manifest("1.0.0"));
    io.file(
        at(&cargo_home, "binstall/crates-v1.json"),
        binstall_manifest("1.0.0", "x86_64-unknown-linux-musl"),
    );
    let mut service = service(io);
    service.host = "x86_64-unknown-linux-gnu".into();
    service.provider.metadata.host = service.host.clone();
    let result = service
        .run(&UpdateRequest::new(true, &executable, "1.0.0"))
        .unwrap();
    assert_eq!(result.installer, Installer::Cargo);
    assert!(!result.applied);
}

#[test]
fn cargo_binstall_failure_restores_multiline_and_stream_records() {
    let cargo_home = p("/cargo");
    let executable = at(&cargo_home, "bin/ramiz");
    let companion = at(&cargo_home, "bin/git-ramiz");
    let mut io = FakeIo {
        cargo_home: Some(cargo_home.clone()),
        fail_installer: true,
        ..FakeIo::default()
    };
    io.available_commands.insert("cargo-binstall".into());
    io.file(&executable, "old");
    io.file(&companion, "old companion");
    binstall_records(&mut io, &cargo_home, "1.0.0");
    let before = io.files.clone();
    let mut service = service(io);
    let error = service
        .run(&UpdateRequest::new(false, &executable, "1.0.0"))
        .unwrap_err();
    assert_eq!(error.code, "installer_failed");
    assert_eq!(service.io.files, before);
}

#[test]
fn cargo_failure_restores_both_binaries_and_install_records() {
    let cargo_home = p("/cargo");
    let executable = at(&cargo_home, "bin/ramiz");
    let companion = at(&cargo_home, "bin/git-ramiz");
    let mut io = FakeIo {
        cargo_home: Some(cargo_home.clone()),
        fail_installer: true,
        ..FakeIo::default()
    };
    io.file(&executable, "old");
    io.file(&companion, "old companion");
    legacy_cargo_records(&mut io, &cargo_home, "1.0.0");
    let before = io.files.clone();
    let mut service = service(io);
    let error = service
        .run(&UpdateRequest::new(false, &executable, "1.0.0"))
        .unwrap_err();
    assert_eq!(error.code, "installer_failed");
    assert_eq!(service.io.files, before);
}

#[test]
fn unrelated_cargo_install_change_is_not_clobbered() {
    let cargo_home = p("/cargo");
    let executable = at(&cargo_home, "bin/ramiz");
    let companion = at(&cargo_home, "bin/git-ramiz");
    let record = at(&cargo_home, ".crates2.json");
    let mut io = FakeIo {
        cargo_home: Some(cargo_home.clone()),
        mutate_unrelated_record: true,
        fail_final_secondary_verification: true,
        installed_version: "1.1.0".into(),
        ..FakeIo::default()
    };
    io.file(&executable, "old");
    io.file(&companion, "old companion");
    legacy_cargo_records(&mut io, &cargo_home, "1.0.0");
    let mut service = service(io);
    let error = service
        .run(&UpdateRequest::new(false, &executable, "1.0.0"))
        .unwrap_err();
    assert_eq!(error.code, "cargo_rollback_failed");
    assert!(error.rollback.is_none());
    assert_eq!(
        service.io.files.get(&record).unwrap(),
        br#"{"installs":{"ramiz 1.1.0 (registry+https://github.com/rust-lang/crates.io-index)":{"bins":["ramiz","git-ramiz"]},"other 1.0.0 (registry+https://github.com/rust-lang/crates.io-index)":{"bins":["other"]}}}"#
    );
    assert_eq!(service.io.files.get(&executable).unwrap(), b"old");
    assert_eq!(service.io.files.get(&companion).unwrap(), b"old companion");
}

#[test]
fn cargo_fallback_is_locked_and_exact() {
    let cargo_home = p("/cargo");
    let executable = at(&cargo_home, "bin/ramiz");
    let companion = at(&cargo_home, "bin/git-ramiz");
    let mut io = FakeIo {
        cargo_home: Some(cargo_home.clone()),
        installed_version: "1.1.0".into(),
        ..FakeIo::default()
    };
    io.file(&executable, "old");
    io.file(&companion, "old");
    legacy_cargo_records(&mut io, &cargo_home, "1.0.0");
    let mut service = service(io);
    let result = service
        .run(&UpdateRequest::new(false, &executable, "1.0.0"))
        .unwrap();
    assert_eq!(result.commands[0].program, "cargo");
    assert_eq!(
        result.commands[0].args,
        [
            "install",
            "ramiz",
            "--version",
            "1.1.0",
            "--locked",
            "--force",
            "--root",
            "/cargo"
        ]
    );
}

#[test]
fn cargo_record_version_must_match_installed_binary_version() {
    let cargo_home = p("/cargo");
    let executable = at(&cargo_home, "bin/ramiz");
    let companion = at(&cargo_home, "bin/git-ramiz");
    let mut io = FakeIo {
        cargo_home: Some(cargo_home.clone()),
        ..FakeIo::default()
    };
    io.file(&executable, "old");
    io.file(&companion, "old companion");
    legacy_cargo_records(&mut io, &cargo_home, "11.1.0");
    let mut service = service(io);
    let error = service
        .run(&UpdateRequest::new(false, &executable, "1.1.0"))
        .unwrap_err();
    assert_eq!(error.code, "cargo_record_unproven");
}

#[test]
fn adoption_proves_loose_pair_and_writes_owner_marker() {
    let executable = p("/standalone/bin/ramiz");
    let companion = p("/standalone/bin/git-ramiz");
    let mut io = FakeIo::default();
    io.file(&executable, "old ramiz");
    io.file(&companion, "old git-ramiz");
    let mut service = service(io);
    service.provider.metadata.version = "1.0.0".into();
    service.provider.release.primary = b"old ramiz".to_vec();
    service.provider.release.secondary = b"old git-ramiz".to_vec();
    let result = service
        .run(&UpdateRequest::new(false, &executable, "1.0.0").with_adopt(true))
        .unwrap();
    assert_eq!(result.installer, Installer::Standalone);
    assert!(result.applied);
    assert!(
        service
            .io
            .files
            .contains_key(&beside(&executable, ".ramiz-owner.json"))
    );
    assert!(
        service
            .io
            .files
            .contains_key(&beside(&executable, ".ramiz-checksums.txt.minisig"))
    );
}

#[test]
fn sidecar_failure_restores_every_preexisting_sidecar() {
    let executable = p("/standalone/bin/ramiz");
    let companion = p("/standalone/bin/git-ramiz");
    let mut io = FakeIo {
        fail_aux_signature_permissions: true,
        ..FakeIo::default()
    };
    io.file(&executable, "old ramiz");
    io.file(&companion, "old git-ramiz");
    io.file(
        beside(&executable, ".ramiz-owner.json"),
        marker_for(b"old ramiz", b"old git-ramiz"),
    );
    io.file(
        beside(&executable, ".ramiz-checksums.txt"),
        "old checksums",
    );
    io.file(
        beside(&executable, ".ramiz-checksums.txt.minisig"),
        "old signature",
    );
    io.installed_version = "1.1.0".into();
    let before = io.files.clone();
    let mut service = service(io);
    let error = service
        .run(&UpdateRequest::new(false, &executable, "1.0.0"))
        .unwrap_err();
    assert_eq!(error.code, "staging_failed");
    assert_eq!(service.io.files, before);
}

#[test]
fn sidecar_snapshot_read_error_refuses_before_mutation() {
    let executable = p("/standalone/bin/ramiz");
    let companion = p("/standalone/bin/git-ramiz");
    let mut io = FakeIo {
        fail_read_sidecar: true,
        ..FakeIo::default()
    };
    io.file(&executable, "old ramiz");
    io.file(&companion, "old git-ramiz");
    io.file(
        beside(&executable, ".ramiz-owner.json"),
        marker_for(b"old ramiz", b"old git-ramiz"),
    );
    io.file(
        beside(&executable, ".ramiz-checksums.txt"),
        "old checksums",
    );
    io.file(
        beside(&executable, ".ramiz-checksums.txt.minisig"),
        "old signature",
    );
    let before = io.files.clone();
    let mut service = service(io);
    let error = service
        .run(&UpdateRequest::new(false, &executable, "1.0.0"))
        .unwrap_err();
    assert_eq!(error.code, "standalone_unadopted");
    assert_eq!(service.io.files, before);
}

#[test]
fn check_reports_availability_without_mutation() {
    let cargo_home = p("/cargo");
    let executable = at(&cargo_home, "bin/ramiz");
    let companion = at(&cargo_home, "bin/git-ramiz");
    let mut io = FakeIo {
        cargo_home: Some(cargo_home.clone()),
        ..FakeIo::default()
    };
    io.file(&executable, "old");
    io.file(&companion, "old");
    legacy_cargo_records(&mut io, &cargo_home, "1.0.0");
    let before = io.files.clone();
    let mut service = service(io);
    let result = service
        .run(&UpdateRequest::new(true, &executable, "1.0.0"))
        .unwrap();
    assert!(result.available);
    assert!(!result.applied);
    assert!(result.commands.is_empty());
    assert_eq!(service.io.files, before);
}

#[test]
fn standalone_verification_failure_restores_both_binaries() {
    let executable = p("/standalone/bin/ramiz");
    let companion = p("/standalone/bin/git-ramiz");
    let mut io = FakeIo::default();
    io.file(&executable, "old ramiz");
    io.file(&companion, "old git-ramiz");
    io.file(
        beside(&executable, ".ramiz-owner.json"),
        marker_for(b"old ramiz", b"old git-ramiz"),
    );
    io.file(
        beside(&executable, ".ramiz-checksums.txt"),
        "checksums",
    );
    io.file(
        beside(&executable, ".ramiz-checksums.txt.minisig"),
        "signature",
    );
    io.installed_version = "1.1.0".into();
    io.fail_final_secondary_verification = true;
    let mut service = service(io);
    let error = service
        .run(&UpdateRequest::new(false, &executable, "1.0.0"))
        .unwrap_err();
    assert_eq!(error.code, "update_rolled_back");
    assert_eq!(service.io.files.get(&executable).unwrap(), b"old ramiz");
    assert_eq!(service.io.files.get(&companion).unwrap(), b"old git-ramiz");
    assert!(
        !service
            .io
            .files
            .keys()
            .any(|path| shown(path).contains("previous"))
    );
}

#[test]
fn review_newer_installation_while_acquiring_lock_must_not_downgrade() {
    let executable = p("/standalone/bin/ramiz");
    let companion = p("/standalone/bin/git-ramiz");
    let mut io = FakeIo {
        mutate_on_lock: true,
        installed_version: "1.1.0".into(),
        ..FakeIo::default()
    };
    io.file(&executable, "old ramiz");
    io.file(&companion, "old git-ramiz");
    io.file(
        beside(&executable, ".ramiz-owner.json"),
        marker_for(b"old ramiz", b"old git-ramiz"),
    );
    io.file(
        beside(&executable, ".ramiz-checksums.txt"),
        "old checksums",
    );
    io.file(
        beside(&executable, ".ramiz-checksums.txt.minisig"),
        "old signature",
    );
    let before = io.files.clone();
    let mut service = service(io);
    let error = service
        .run(&UpdateRequest::new(false, &executable, "1.0.0"))
        .unwrap_err();
    assert_eq!(error.code, "installation_changed");
    assert_ne!(service.io.files, before);
    assert_eq!(service.io.files.get(&executable).unwrap(), b"newer ramiz");
}

#[test]
fn adoption_interleaving_known_marker_is_refused_before_writing() {
    let executable = p("/standalone/bin/ramiz");
    let companion = p("/standalone/bin/git-ramiz");
    let mut io = FakeIo {
        mutate_on_lock: true,
        ..FakeIo::default()
    };
    io.file(&executable, "old ramiz");
    io.file(&companion, "old git-ramiz");
    let mut service = service(io);
    service.provider.metadata.version = "1.0.0".into();
    service.provider.release.primary = b"old ramiz".to_vec();
    service.provider.release.secondary = b"old git-ramiz".to_vec();
    let error = service
        .run(&UpdateRequest::new(false, &executable, "1.0.0").with_adopt(true))
        .unwrap_err();
    assert_eq!(error.code, "installation_changed");
    assert_eq!(service.io.files.get(&executable).unwrap(), b"newer ramiz");
}

#[test]
fn rollback_failure_is_reported_and_recovery_backup_is_retained() {
    let executable = p("/standalone/bin/ramiz");
    let companion = p("/standalone/bin/git-ramiz");
    let mut io = FakeIo {
        fail_final_secondary_verification: true,
        fail_restore: true,
        installed_version: "1.1.0".into(),
        ..FakeIo::default()
    };
    io.file(&executable, "old ramiz");
    io.file(&companion, "old git-ramiz");
    io.file(
        beside(&executable, ".ramiz-owner.json"),
        marker_for(b"old ramiz", b"old git-ramiz"),
    );
    io.file(
        beside(&executable, ".ramiz-checksums.txt"),
        "old checksums",
    );
    io.file(
        beside(&executable, ".ramiz-checksums.txt.minisig"),
        "old signature",
    );
    let mut service = service(io);
    let error = service
        .run(&UpdateRequest::new(false, &executable, "1.0.0"))
        .unwrap_err();
    assert_eq!(error.code, "update_rolled_back");
    assert!(error.rollback.is_some());
    assert!(
        service
            .io
            .files
            .keys()
            .any(|path| shown(path).contains("previous"))
    );
}

#[test]
fn secondary_stage_failure_never_activates_primary() {
    let executable = p("/standalone/bin/ramiz");
    let companion = p("/standalone/bin/git-ramiz");
    let mut io = FakeIo::default();
    io.file(&executable, "old ramiz");
    io.file(&companion, "old git-ramiz");
    io.file(
        beside(&executable, ".ramiz-owner.json"),
        marker_for(b"old ramiz", b"old git-ramiz"),
    );
    io.file(
        beside(&executable, ".ramiz-checksums.txt"),
        "checksums",
    );
    io.file(
        beside(&executable, ".ramiz-checksums.txt.minisig"),
        "signature",
    );
    io.fail_stage_secondary = true;
    let mut service = service(io);
    let error = service
        .run(&UpdateRequest::new(false, &companion, "1.0.0"))
        .unwrap_err();
    assert_eq!(error.code, "staging_failed");
    assert_eq!(service.io.files.get(&executable).unwrap(), b"old ramiz");
    assert_eq!(service.io.files.get(&companion).unwrap(), b"old git-ramiz");
}

fn standalone() -> (FakeIo, Vec<u8>, Vec<u8>) {
    let executable = p("/standalone/bin/ramiz");
    let companion = p("/standalone/bin/git-ramiz");
    let mut io = FakeIo::default();
    io.file(&executable, "old ramiz");
    io.file(&companion, "old git-ramiz");
    io.file(
        beside(&executable, ".ramiz-owner.json"),
        marker_for(b"old ramiz", b"old git-ramiz"),
    );
    io.file(beside(&executable, ".ramiz-checksums.txt"), "checksums");
    io.file(
        beside(&executable, ".ramiz-checksums.txt.minisig"),
        "signature",
    );
    io.installed_version = "1.1.0".into();
    (io, executable, companion)
}

#[test]
fn owned_installation_is_not_adopted() {
    let brewed = p("/opt/homebrew/Cellar/ramiz/1.0.0/bin/ramiz");
    let mut io = FakeIo::default();
    io.file(&brewed, "old");
    let (adopted, executable, _) = standalone();
    for (io, executable, installer) in [
        (io, brewed, Installer::Homebrew),
        (adopted, executable, Installer::Standalone),
    ] {
        let before = io.files.clone();
        let mut service = service(io);
        let error = service
            .run(&UpdateRequest::new(false, &executable, "1.0.0").with_adopt(true))
            .unwrap_err();
        assert_eq!(error.code, "adopt_known_manager");
        assert_eq!(error.installer, Some(installer));
        assert!(!error.applied && !error.changed);
        assert_eq!(service.io.files, before);
        assert!(service.io.locks.is_empty());
    }
}

#[test]
fn updated_installation_is_proven_by_what_was_written() {
    let (io, executable, companion) = standalone();
    let mut service = service(io);
    let result = service
        .run(&UpdateRequest::new(false, &executable, "1.0.0"))
        .unwrap();
    assert!(result.applied && result.changed);
    assert_eq!(result.target_version.as_deref(), Some("1.1.0"));
    assert_eq!(service.io.files.get(&executable).unwrap(), b"new ramiz");
    assert_eq!(service.io.files.get(&companion).unwrap(), b"new git-ramiz");
    assert!(!service.io.files.keys().any(|path| {
        shown(path).contains("previous") || shown(path).contains("stage")
    }));
    let again = service
        .run(&UpdateRequest::new(false, &executable, "1.1.0"))
        .unwrap();
    assert_eq!(again.installer, Installer::Standalone);
    assert!(!again.available && !again.applied);
    assert_eq!(again.message, "already current");
}

#[test]
fn lock_is_held_for_every_change_and_given_back() {
    let lock = p("/tmp/ramiz-update-501.lock");
    let (io, executable, _) = standalone();
    let mut done = service(io);
    done.run(&UpdateRequest::new(false, &executable, "1.0.0"))
        .unwrap();
    assert_eq!(done.io.locks, [lock.clone()]);
    assert_eq!(done.io.given_back, done.io.locks);
    assert!(!done.io.lock_held);
    let (mut io, executable, _) = standalone();
    io.fail_stage_secondary = true;
    let mut failed = service(io);
    failed
        .run(&UpdateRequest::new(false, &executable, "1.0.0"))
        .unwrap_err();
    assert_eq!(failed.io.locks, [lock]);
    assert_eq!(failed.io.given_back, failed.io.locks);
    assert!(!failed.io.lock_held);
    // Another update holds it.
    let (mut io, executable, _) = standalone();
    io.lock_held = true;
    let before = io.files.clone();
    let mut waiting = service(io);
    let error = waiting
        .run(&UpdateRequest::new(false, &executable, "1.0.0"))
        .unwrap_err();
    assert_eq!(error.code, "update_locked");
    assert_eq!(error.message, "another Ramiz update is running: held");
    assert_eq!(waiting.io.files, before);
    assert!(waiting.io.given_back.is_empty());
    // It cannot be given back.
    let (mut io, executable, _) = standalone();
    io.fail_release = true;
    let mut stuck = service(io);
    let error = stuck
        .run(&UpdateRequest::new(false, &executable, "1.0.0"))
        .unwrap_err();
    assert_eq!(error.code, "lock_release_failed");
    assert_eq!(error.message, "injected release failure");
}

#[test]
fn failed_adoption_removes_what_it_wrote() {
    let executable = p("/standalone/bin/ramiz");
    let mut io = FakeIo {
        fail_aux_signature_permissions: true,
        ..FakeIo::default()
    };
    io.file(&executable, "old ramiz");
    io.file(p("/standalone/bin/git-ramiz"), "old git-ramiz");
    let before = io.files.clone();
    let mut service = service(io);
    service.provider.metadata.version = "1.0.0".into();
    service.provider.release.primary = b"old ramiz".to_vec();
    service.provider.release.secondary = b"old git-ramiz".to_vec();
    service
        .run(&UpdateRequest::new(false, &executable, "1.0.0").with_adopt(true))
        .unwrap_err();
    assert_eq!(service.io.files, before);
    assert!(!service.io.lock_held);
}

fn cargo_installation() -> (FakeIo, Vec<u8>, BinaryPair) {
    let root = p("/cargo");
    let pair = BinaryPair::from_executable(&at(&root, "bin/ramiz"));
    let mut io = FakeIo::default();
    io.file(&pair.primary, "old");
    io.file(&pair.secondary, "old companion");
    legacy_cargo_records(&mut io, &root, "1.0.0");
    (io, root, pair)
}

#[test]
fn unreadable_file_is_named_when_a_backup_is_taken() {
    let (_, root, pair) = cargo_installation();
    for (unreadable, named) in [
        (at(&root, ".crates2.json"), root.clone()),
        (at(&root, ".crates.toml"), at(&root, ".crates.toml")),
        (at(&root, "binstall/crates-v1.json"), at(&root, "binstall/crates-v1.json")),
        (pair.primary.clone(), pair.primary.clone()),
        (pair.secondary.clone(), pair.secondary.clone()),
    ] {
        let (mut io, root, pair) = cargo_installation();
        io.unreadable_path = Some(unreadable);
        match CargoBackup::capture(&mut io, &pair, &root) {
            Ok(_) => panic!("expected a failure"),
            Err(failure) => {
                assert_eq!(failure.code, "cargo_snapshot_failed");
                assert_eq!(shown(&failure.executable), shown(&named));
            }
        }
    }
    // Nothing is backed up where no record can prove the installation.
    let (mut io, root, pair) = cargo_installation();
    io.files.remove(&at(&root, ".crates2.json"));
    match CargoBackup::capture(&mut io, &pair, &root) {
        Ok(_) => panic!("expected a failure"),
        Err(failure) => {
            assert_eq!(failure.code, "cargo_record_unproven");
            assert_eq!(shown(&failure.executable), shown(&root));
        }
    }
}

#[test]
fn install_list_does_not_keep_a_backup_from_being_restored() {
    for list in ["[v1]\n\"other 2.0.0 (registry+x)\" = [\"other\"]\n", "[v1\n\"", "\u{0}"] {
        let (mut io, root, pair) = cargo_installation();
        let before = io.files.clone();
        let backup = match CargoBackup::capture(&mut io, &pair, &root) {
            Ok(backup) => backup,
            Err(failure) => panic!("{}", failure.message),
        };
        io.file(at(&root, ".crates.toml"), list);
        io.file(&pair.primary, "new");
        if let Err(error) = backup.restore(&mut io) {
            panic!("{}", error.message);
        }
        assert_eq!(io.files, before);
    }
}

#[test]
fn record_of_another_package_keeps_a_backup_from_being_restored() {
    for (name, contents) in [
        (".crates2.json", "{\"installs\":{\"other 1.0.0 (x)\":{}}}"),
        (".crates2.json", "{broken"),
        ("binstall/crates-v1.json", "{\"name\":\"other\"}"),
    ] {
        let (mut io, root, pair) = cargo_installation();
        let backup = match CargoBackup::capture(&mut io, &pair, &root) {
            Ok(backup) => backup,
            Err(failure) => panic!("{}", failure.message),
        };
        io.file(at(&root, name), contents);
        io.file(&pair.primary, "new");
        let message = backup.restore(&mut io).unwrap_err().message;
        assert_eq!(message, "unrelated Cargo installation changed while updating");
        assert_eq!(io.files.get(&at(&root, name)).unwrap(), contents.as_bytes());
        assert_eq!(io.files.get(&pair.primary).unwrap(), b"old");
    }
}

#[test]
fn install_list_outside_the_grammar_does_not_stand_against_a_record() {
    for list in [
        "[v1]\n'ramiz 1.0.0 (registry+https://github.com/rust-lang/crates.io-index)' = \
         [\"git-ramiz\", \"\\u0072amiz\"]\n",
        "[ v1 ]\n[more]\nkey = 1\n",
        "[v1]\nkey = \"\"\"\n",
    ] {
        let (mut io, root, pair) = cargo_installation();
        io.cargo_home = Some(root.clone());
        io.file(at(&root, ".crates.toml"), list);
        let mut service = service(io);
        let result = service.run(&UpdateRequest::new(true, &pair.primary, "1.0.0")).unwrap();
        assert_eq!(result.installer, Installer::Cargo);
    }
    let (mut io, root, pair) = cargo_installation();
    io.cargo_home = Some(root.clone());
    io.unreadable_path = Some(at(&root, ".crates.toml"));
    let mut service = service(io);
    let result = service.run(&UpdateRequest::new(true, &pair.primary, "1.0.0")).unwrap();
    assert_eq!(result.installer, Installer::Cargo);
}

#[test]
fn failed_activation_leaves_both_executables() {
    let failing: [fn(&mut FakeIo); 4] = [
        |io| io.fail_stage_secondary = true,
        |io| io.fail_aux_signature_permissions = true,
        |io| io.fail_final_secondary_verification = true,
        |io| io.file("/standalone/bin/ramiz.previous.ramiz-update-1.1.0", "in the way"),
    ];
    for fail in failing {
        let (mut io, executable, companion) = standalone();
        fail(&mut io);
        let mut service = service(io);
        let error = service
            .run(&UpdateRequest::new(false, &executable, "1.0.0"))
            .unwrap_err();
        assert!(!error.applied && error.rollback.is_none());
        assert_eq!(service.io.files.get(&executable).unwrap(), b"old ramiz");
        assert_eq!(service.io.files.get(&companion).unwrap(), b"old git-ramiz");
    }
}

#[test]
fn adopted_installation_is_discovered_while_it_is_whole() {
    let executable = p("/standalone/bin/ramiz");
    let companion = p("/standalone/bin/git-ramiz");
    let adopted = || {
        let mut io = FakeIo::default();
        io.file(&executable, "old ramiz");
        io.file(&companion, "old git-ramiz");
        let mut service = service(io);
        service.provider.metadata.version = "1.0.0".into();
        service.provider.release.primary = b"old ramiz".to_vec();
        service.provider.release.secondary = b"old git-ramiz".to_vec();
        service
            .run(&UpdateRequest::new(false, &executable, "1.0.0").with_adopt(true))
            .unwrap();
        service
    };
    let installer = |change: &dyn Fn(&mut FakeIo)| {
        let mut service = adopted();
        change(&mut service.io);
        service
            .run(&UpdateRequest::new(true, &executable, "1.0.0"))
            .unwrap()
            .installer
    };
    assert_eq!(installer(&|_| {}), Installer::Standalone);
    for path in [&executable, &companion] {
        assert_eq!(installer(&|io| io.file(path, "other")), Installer::Unknown);
        assert_eq!(installer(&|io| io.file(path, "old ramiz ")), Installer::Unknown);
    }
    for name in [".ramiz-checksums.txt", ".ramiz-checksums.txt.minisig", ".ramiz-owner.json"] {
        let sidecar = beside(&executable, name);
        assert_eq!(
            installer(&|io| {
                io.files.remove(&sidecar);
            }),
            Installer::Unknown
        );
    }
}

#[test]
fn ordinary_installation_keeps_its_files_apart() {
    for name in ["ramiz", "git-ramiz"] {
        let pair = BinaryPair::from_executable(&at(b"/standalone/bin", name));
        let files = [
            pair.primary.clone(),
            pair.secondary.clone(),
            ramiz::path::with_extension(&pair.primary, b"stage.ramiz-update-1.1.0"),
            ramiz::path::with_extension(&pair.secondary, b"stage.ramiz-update-1.1.0"),
            beside(&pair.primary, ".ramiz-owner.json"),
            beside(&pair.primary, ".ramiz-checksums.txt"),
            beside(&pair.primary, ".ramiz-checksums.txt.minisig"),
            ramiz::update::service::host_lock_path(501),
        ];
        assert_eq!(files.iter().collect::<HashSet<_>>().len(), files.len());
    }
}
