use ramiz::cli::{command_name, update_lines, usage_as_json, usage_status, Command, UpdateArgs};
use ramiz::error::RamizError;
use ramiz::json::{self, Node};
use ramiz::order::{is_leq, sort_names, NameSet};
use ramiz::output::{base64, encode_all, EncodedPath};
use ramiz::path;
use ramiz::text;
use ramiz::update::archive::{
    extract_pair, safe_archive_path, unpack_archive, ReleaseSource, MAX_BINARY_BYTES,
};
use ramiz::update::config::config_install_root;
use ramiz::update::marker::{
    digest, hex_digest, manifest_path, marker_path, marker_text, parse_marker, safe_version,
    signature_path,
};
use ramiz::update::model::{
    BinaryPair, CommandSpec, Installer, ReleaseMetadata, StandaloneMarker, UpdateFailure,
    UpdateResult,
};
use ramiz::update::records::{
    cargo_record_entry_ok, is_compatible, json_has_cargo_install, weigh_list, weigh_stream, Weight,
};
use ramiz::update::release::{
    accept_release, archive_name, ensure_official_api, ensure_official_asset,
    exact_release_from_latest, select_release, GithubAsset, GithubRelease, GithubReleaseProvider,
    ReleaseStep, Reply,
};
use ramiz::update::service::{host_lock_path, judge_latest};
use ramiz::update::toml::parse_install_list;
use ramiz::update::trust::{select_digest, PinnedMinisignVerifier};
use std::io::Cursor;

const HOST: &str = "x86_64-unknown-linux-musl";
const COMMIT: &str = "0123456789abcdef0123456789abcdef01234567";

fn metadata(version: &str) -> ReleaseMetadata {
    ReleaseMetadata {
        repository: "agensfield/ramiz".into(),
        version: version.into(),
        host: HOST.into(),
        primary_asset: "ramiz".into(),
        secondary_asset: "git-ramiz".into(),
        archive_sha256: String::new(),
        signature_verified: true,
    }
}

fn source(version: &str) -> String {
    format!(
        "{{\"repository\":\"https://github.com/agensfield/ramiz\",\"version\":\"{version}\",\
         \"target\":\"{HOST}\",\"commit\":\"{COMMIT}\"}}"
    )
}

fn provenance(version: &str) -> ReleaseSource {
    ReleaseSource {
        repository: "https://github.com/agensfield/ramiz".into(),
        version: version.into(),
        target: HOST.into(),
        commit: COMMIT.into(),
    }
}

fn packed(members: &[(&str, &[u8], tar::EntryType)]) -> Vec<u8> {
    let gz = flate2::write::GzEncoder::new(Vec::new(), flate2::Compression::default());
    let mut builder = tar::Builder::new(gz);
    for (name, contents, kind) in members {
        let mut header = tar::Header::new_gnu();
        header.set_entry_type(*kind);
        header.set_size(contents.len() as u64);
        header.set_mode(0o755);
        let bytes = name.as_bytes();
        header.as_old_mut().name[..bytes.len()].copy_from_slice(bytes);
        header.set_cksum();
        builder.append(&header, *contents).unwrap();
    }
    builder.into_inner().unwrap().finish().unwrap()
}

fn pair_archive(version: &str) -> Vec<u8> {
    let file = tar::EntryType::Regular;
    packed(&[
        ("ramiz", b"new primary", file),
        ("git-ramiz", b"new secondary", file),
        ("SOURCE.json", source(version).as_bytes(), file),
    ])
}

struct Signer {
    keys: minisign::KeyPair,
}

impl Signer {
    fn new() -> Self {
        Signer { keys: minisign::KeyPair::generate_unencrypted_keypair().unwrap() }
    }

    fn key(&self) -> String {
        self.keys.pk.to_box().unwrap().into_string()
    }

    fn sign(&self, bytes: &[u8]) -> Vec<u8> {
        minisign::sign(
            Some(&self.keys.pk),
            &self.keys.sk,
            Cursor::new(bytes),
            Some("trusted"),
            Some("untrusted"),
        )
        .unwrap()
        .to_bytes()
    }
}

fn asset(name: &str, url: &str) -> GithubAsset {
    GithubAsset { name: name.into(), browser_download_url: url.into() }
}

fn official(name: &str) -> GithubAsset {
    asset(name, &format!("https://github.com/agensfield/ramiz/releases/download/v1.1.0/{name}"))
}

fn release() -> GithubRelease {
    GithubRelease {
        tag_name: "v1.1.0".into(),
        prerelease: false,
        draft: false,
        assets: vec![
            official("ramiz_1.1.0_linux_amd64.tar.gz"),
            official("checksums.txt"),
            official("checksums.txt.minisig"),
            official("attestation.jsonl"),
        ],
    }
}

fn code<T>(r: Result<T, UpdateFailure>) -> (&'static str, String) {
    match r {
        Ok(_) => panic!("expected a failure"),
        Err(failure) => (failure.code, failure.message),
    }
}

fn finished<T>(step: ReleaseStep<T>) -> Result<T, UpdateFailure> {
    match step {
        ReleaseStep::Fetch(url) => panic!("still wants {url}"),
        ReleaseStep::Done(r) => r,
    }
}

fn wanted<T>(step: ReleaseStep<T>) -> String {
    match step {
        ReleaseStep::Fetch(url) => url,
        ReleaseStep::Done(_) => panic!("wants nothing"),
    }
}

// ---------------------------------------------------------------------------
// Releases
// ---------------------------------------------------------------------------

#[test]
fn signed_release_is_looked_up_and_downloaded() {
    let signer = Signer::new();
    let archive = pair_archive("1.1.0");
    let checksums = format!("{}  ramiz_1.1.0_linux_amd64.tar.gz\n", digest(&archive));
    let signature = signer.sign(checksums.as_bytes());
    let mut provider =
        GithubReleaseProvider::with_api_base_and_key("https://api.example//", &signer.key());
    assert_eq!(provider.latest_url(), "https://api.example/releases/latest");
    assert!(provider.trust_material().is_none());
    let base = "https://github.com/agensfield/ramiz/releases/download/v1.1.0/";
    let mut replies: Vec<Reply> = Vec::new();
    let step = provider.metadata_for_release(&release(), HOST, &replies);
    assert_eq!(wanted(step), format!("{base}checksums.txt"));
    replies.push(Ok(checksums.clone().into_bytes()));
    let step = provider.metadata_for_release(&release(), HOST, &replies);
    assert_eq!(wanted(step), format!("{base}checksums.txt.minisig"));
    replies.push(Ok(signature.clone()));
    let found = match finished(provider.metadata_for_release(&release(), HOST, &replies)) {
        Ok(found) => found,
        Err(failure) => panic!("{}: {}", failure.code, failure.message),
    };
    assert_eq!(found.version, "1.1.0");
    assert_eq!(found.archive_sha256, digest(&archive));
    assert!(found.signature_verified);
    assert_eq!(
        provider.trust_material(),
        Some((checksums.clone().into_bytes(), signature.clone()))
    );
    let step = provider.download(&found, &Vec::new());
    assert_eq!(wanted(step), format!("{base}ramiz_1.1.0_linux_amd64.tar.gz"));
    let unpacked = match finished(provider.download(&found, &vec![Ok(archive.clone())])) {
        Ok(unpacked) => unpacked,
        Err(failure) => panic!("{}: {}", failure.code, failure.message),
    };
    assert_eq!(unpacked.source, source("1.1.0").into_bytes());
    let pair = match accept_release(unpacked.clone(), Ok(provenance("1.1.0")), &found) {
        Ok(pair) => pair,
        Err(failure) => panic!("{}: {}", failure.code, failure.message),
    };
    assert_eq!(pair.primary, b"new primary");
    assert_eq!(pair.secondary, b"new secondary");
    // A provenance record that cannot be read is refused with the reader's words.
    assert_eq!(
        code(accept_release(unpacked.clone(), Err("expected value".into()), &found)),
        ("archive_invalid", "expected value".to_string())
    );
    assert_eq!(
        code(accept_release(unpacked, Ok(provenance("1.0.0")), &found)).0,
        "archive_invalid"
    );
    // Another archive, another release and another host are refused.
    let mut torn = archive.clone();
    torn[20] ^= 1;
    assert_eq!(
        code(finished(provider.download(&found, &vec![Ok(torn)]))).0,
        "checksum_mismatch"
    );
    assert_eq!(
        code(finished(provider.download(&metadata("1.2.0"), &Vec::new()))).0,
        "release_state_mismatch"
    );
    let mut elsewhere = metadata("1.1.0");
    elsewhere.host = "riscv".into();
    assert_eq!(
        code(finished(provider.download(&elsewhere, &Vec::new()))).0,
        "unsupported_host"
    );
    // What was kept beside an installation proves the same release, and no other.
    assert!(provider
        .validate_local_material(checksums.as_bytes(), &signature, "1.1.0", HOST)
        .is_ok());
    assert_eq!(
        code(provider.validate_local_material(checksums.as_bytes(), &signature, "1.2.0", HOST)),
        (
            "checksum_missing",
            "checksums.txt does not cover ramiz_1.2.0_linux_amd64.tar.gz".to_string()
        )
    );
    assert_eq!(
        code(provider.validate_local_material(b"", b"", "1.1.0", "riscv")).0,
        "unsupported_host"
    );
}

#[test]
fn failed_reply_ends_the_lookup() {
    let mut provider = GithubReleaseProvider::new();
    let lost: Reply = Err(UpdateFailure::of_release("release_fetch_failed", "offline".into()));
    let step = provider.metadata_for_release(&release(), HOST, &vec![lost]);
    assert_eq!(code(finished(step)), ("release_fetch_failed", "offline".to_string()));
    assert!(provider.trust_material().is_none());
    assert_eq!(
        code(finished(provider.download(&metadata("1.1.0"), &Vec::new()))),
        (
            "release_state_missing",
            "release metadata must be checked before download".to_string()
        )
    );
}

#[test]
fn manifest_must_be_signed_with_the_key() {
    let signer = Signer::new();
    let other = Signer::new();
    let sum = "ab".repeat(32);
    let checksums = format!("{sum}  archive\n");
    let checks = match PinnedMinisignVerifier::test_fixture(&signer.key()) {
        Ok(checks) => checks,
        Err(failure) => panic!("{}", failure.message),
    };
    let signature = signer.sign(checksums.as_bytes());
    assert_eq!(
        checks.verify_checksums(checksums.as_bytes(), &signature, "archive").ok(),
        Some(sum.clone())
    );
    // Another key, another text, no signature at all.
    let foreign = other.sign(checksums.as_bytes());
    assert_eq!(
        code(checks.verify_checksums(checksums.as_bytes(), &foreign, "archive")).0,
        "minisign_invalid"
    );
    assert_eq!(
        code(checks.verify_checksums(b"changed", &signature, "archive")).0,
        "minisign_invalid"
    );
    assert_eq!(
        code(checks.verify_checksums(checksums.as_bytes(), b"corrupted\n", "archive")).0,
        "minisign_invalid"
    );
    assert_eq!(
        code(checks.verify_checksums(checksums.as_bytes(), b"\xff", "archive")).0,
        "minisign_invalid"
    );
    assert_eq!(
        code(checks.verify_checksums(b"\xff", &signature, "archive")).0,
        "checksum_manifest_invalid"
    );
    assert_eq!(code(PinnedMinisignVerifier::new("no key")).0, "invalid_minisign_key");
    assert!(PinnedMinisignVerifier::pinned().is_ok());
    // The digest of an archive.
    let archive = b"abc";
    let hex = "BA7816BF8F01CFEA414140DE5DAE2223B00361A396177A9CB410FF61F20015AD";
    assert!(checks.verify_archive(archive, hex).is_ok());
    assert_eq!(code(checks.verify_archive(b"abd", hex)).0, "checksum_mismatch");
    assert_eq!(code(checks.verify_archive(archive, "ba78")).0, "checksum_manifest_invalid");
}

#[test]
fn manifest_gives_one_digest_for_a_name() {
    let a = "AB".repeat(32);
    let b = "cd".repeat(32);
    let text = format!("{a}  one\n\n{b}  two words\n");
    assert_eq!(select_digest(&text, "one").ok(), Some("ab".repeat(32)));
    assert_eq!(select_digest(&text, "two words").ok(), Some(b.clone()));
    assert_eq!(code(select_digest(&text, "two")).0, "checksum_missing");
    let twice = format!("{a}  one\n{b}  one\n");
    assert_eq!(
        code(select_digest(&twice, "one")),
        ("checksum_manifest_invalid", "duplicate checksum entry".to_string())
    );
    for bad in [format!("{a} one\n"), format!("{a}  \n"), "short  one\n".to_string()] {
        assert_eq!(
            code(select_digest(&bad, "one")),
            ("checksum_manifest_invalid", "malformed checksum entry".to_string())
        );
    }
}

#[test]
fn release_must_be_stable_complete_and_official() {
    assert!(select_release(&release(), HOST).is_ok());
    let mut r = release();
    r.draft = true;
    assert_eq!(code(select_release(&r, HOST)).0, "release_not_stable");
    let mut r = release();
    r.prerelease = true;
    assert_eq!(code(select_release(&r, HOST)).0, "release_not_stable");
    let mut r = release();
    r.assets.push(official("checksums.txt"));
    assert_eq!(
        code(select_release(&r, HOST)).1,
        "GitHub release contains duplicate asset names"
    );
    for tag in ["v1", "../1.0.0", "nightly", ""] {
        let mut r = release();
        r.tag_name = tag.into();
        assert_eq!(code(select_release(&r, HOST)).0, "invalid_release_metadata", "{tag}");
    }
    assert_eq!(
        code(select_release(&release(), "riscv")),
        ("unsupported_host", "no Ramiz release artifact for riscv".to_string())
    );
    for k in 0..4 {
        let mut r = release();
        let name = r.assets.remove(k).name;
        assert_eq!(
            code(select_release(&r, HOST)),
            ("release_asset_invalid", format!("GitHub release must contain exactly one {name}"))
        );
        let mut r = release();
        r.assets[k].browser_download_url = "https://example.com/file".into();
        assert_eq!(code(select_release(&r, HOST)).0, "untrusted_release_source");
    }
}

#[test]
fn addresses_and_names() {
    assert!(ensure_official_asset("https://release-assets.githubusercontent.com/x").is_ok());
    assert!(ensure_official_asset(
        "https://objects.githubusercontent.com/github-production-release-asset/x"
    )
    .is_ok());
    assert!(ensure_official_asset("https://objects.githubusercontent.com/x").is_err());
    assert!(ensure_official_asset("http://github.com/agensfield/ramiz/releases/download/x").is_err());
    assert!(ensure_official_api("https://api.github.com/repos/agensfield/ramiz/releases").is_ok());
    assert_eq!(
        code(ensure_official_api("https://api.github.com/repos/other/ramiz/")).1,
        "release metadata URL is outside the official GitHub repository"
    );
    assert_eq!(
        archive_name("1.0.0", "aarch64-apple-darwin").as_deref(),
        Some("ramiz_1.0.0_darwin_arm64.tar.gz")
    );
    assert_eq!(
        archive_name("1.0.0", "x86_64-apple-darwin").as_deref(),
        Some("ramiz_1.0.0_darwin_amd64.tar.gz")
    );
    assert_eq!(
        archive_name("1.0.0", "aarch64-unknown-linux-musl").as_deref(),
        Some("ramiz_1.0.0_linux_arm64.tar.gz")
    );
    assert!(archive_name("1.0.0", "x86_64-unknown-linux-gnu").is_none());
    let provider = GithubReleaseProvider::new();
    assert_eq!(
        provider.exact_release_url("1.0.0").ok().as_deref(),
        Some("https://api.github.com/repos/agensfield/ramiz/releases/tags/v1.0.0")
    );
    assert_eq!(code(provider.exact_release_url("1.0")).1, "invalid release version");
    assert!(exact_release_from_latest(metadata("1.1.0"), "1.1.0").is_ok());
    assert_eq!(
        code(exact_release_from_latest(metadata("1.1.0"), "1.0.0")),
        ("release_version_unavailable", "release 1.0.0 is unavailable".to_string())
    );
    assert_eq!(host_lock_path(501), b"/tmp/ramiz-update-501.lock");
}

#[test]
fn newest_release_is_judged() {
    let paths = BinaryPair::from_executable(b"/bin/ramiz");
    let judge = |m: ReleaseMetadata, current: &str| {
        judge_latest(Ok(m), HOST, current, &paths, Installer::Cargo)
    };
    for (latest, current, newer) in [
        ("1.1.0", "1.0.9", true),
        ("1.1.0", "1.1.0", false),
        ("1.1.0", "1.10.0", false),
        ("1.1.0", "1.1.0-rc.1", true),
    ] {
        match judge(metadata(latest), current) {
            Ok((_, available)) => assert_eq!(available, newer, "{latest} {current}"),
            Err(failure) => panic!("{}", failure.message),
        }
    }
    let mut m = metadata("1.1.0");
    m.repository = "other/ramiz".into();
    assert_eq!(
        code(judge(m, "1.0.0")),
        (
            "untrusted_release_source",
            "release metadata is from other/ramiz, expected agensfield/ramiz".to_string()
        )
    );
    let mut m = metadata("1.1.0");
    m.host = "riscv".into();
    assert_eq!(code(judge(m, "1.0.0")).0, "invalid_release_metadata");
    let mut m = metadata("1.1.0");
    m.secondary_asset = " \t".into();
    assert_eq!(code(judge(m, "1.0.0")).0, "invalid_release_metadata");
    let bad = code(judge(metadata("1.1"), "1.0.0"));
    assert_eq!(bad.0, "invalid_release_metadata");
    assert!(bad.1.starts_with("invalid release version: unexpected end of input"));
    assert_eq!(code(judge(metadata("1.1.0"), "current")).0, "invalid_current_version");
    let lost = UpdateFailure::of_release("release_fetch_failed", "offline".into());
    match judge_latest(Err(lost), HOST, "1.0.0", &paths, Installer::Cargo) {
        Ok(_) => panic!("expected a failure"),
        Err(failure) => assert!(failure.installer == Some(Installer::Cargo)),
    }
}

// ---------------------------------------------------------------------------
// Archives
// ---------------------------------------------------------------------------

#[test]
fn pair_is_extracted_from_an_archive_in_order() {
    let m = metadata("1.1.0");
    let file = tar::EntryType::Regular;
    let text = source("1.1.0");
    let refused = |members: &[(&str, &[u8], tar::EntryType)]| {
        match unpack_archive(&packed(members), &m) {
            Ok(_) => panic!("expected a failure"),
            Err(message) => message,
        }
    };
    let unpacked = match unpack_archive(&pair_archive("1.1.0"), &m) {
        Ok(unpacked) => unpacked,
        Err(message) => panic!("{message}"),
    };
    assert_eq!(unpacked.source, text.as_bytes());
    let judged = |source: Result<ReleaseSource, String>| {
        match extract_pair(unpacked.clone(), source, &m) {
            Ok(pair) => (pair.primary, pair.secondary),
            Err(message) => (message.into_bytes(), Vec::new()),
        }
    };
    assert_eq!(
        judged(Ok(provenance("1.1.0"))),
        (b"new primary".to_vec(), b"new secondary".to_vec())
    );
    let missing = "missing field `repository` at line 1 column 2";
    assert_eq!(judged(Err(missing.into())).0, missing.as_bytes());
    let wrong = |change: fn(&mut ReleaseSource)| {
        let mut source = provenance("1.1.0");
        change(&mut source);
        assert_eq!(
            judged(Ok(source)).0,
            b"archive SOURCE.json provenance does not match the release"
        );
    };
    wrong(|source| source.repository.push('x'));
    wrong(|source| source.version = "1.0.0".into());
    wrong(|source| source.target = "riscv".into());
    wrong(|source| source.commit = "0123".into());
    wrong(|source| source.commit = "g".repeat(40));
    assert_eq!(
        refused(&[("ramiz", b"p", file), ("git-ramiz", b"s", file)]),
        "archive does not contain SOURCE.json"
    );
    let half = [("ramiz", b"p".as_slice(), file), ("SOURCE.json", text.as_bytes(), file)];
    match unpack_archive(&packed(&half), &m) {
        Err(message) => panic!("{message}"),
        Ok(unpacked) => match extract_pair(unpacked, Ok(provenance("1.1.0")), &m) {
            Ok(_) => panic!("expected a failure"),
            Err(message) => {
                assert_eq!(message, "archive does not contain both requested binaries");
            }
        },
    }
    assert_eq!(
        refused(&[("ramiz", b"p", file), ("./ramiz", b"q", file)]),
        "archive contains unsafe path ./ramiz"
    );
    assert_eq!(
        refused(&[("ramiz", b"p", file), ("ramiz", b"q", file)]),
        "archive contains duplicate path ramiz"
    );
    assert_eq!(
        refused(&[("../ramiz", b"p", file)]),
        "archive contains unsafe path ../ramiz"
    );
    assert_eq!(
        refused(&[("ramiz", b"", tar::EntryType::Symlink)]),
        "archive contains non-file member ramiz"
    );
    let names: Vec<String> = (0..33).map(|n| format!("extra{n}")).collect();
    let many: Vec<(&str, &[u8], tar::EntryType)> =
        names.iter().map(|n| (n.as_str(), b"x".as_slice(), file)).collect();
    assert_eq!(refused(&many), "archive exceeds member or decompressed size limits");
    assert!(unpack_archive(b"not an archive", &m).is_err());
}

#[test]
fn member_sizes_are_bounded() {
    let m = metadata("1.1.0");
    let claim = |size: u64| {
        let gz = flate2::write::GzEncoder::new(Vec::new(), flate2::Compression::fast());
        let mut gz = gz;
        let mut header = tar::Header::new_gnu();
        header.set_entry_type(tar::EntryType::Regular);
        header.set_size(size);
        header.as_old_mut().name[..5].copy_from_slice(b"ramiz");
        header.set_cksum();
        std::io::Write::write_all(&mut gz, header.as_bytes()).unwrap();
        match unpack_archive(&gz.finish().unwrap(), &m) {
            Ok(_) => panic!("expected a failure"),
            Err(message) => message,
        }
    };
    assert_eq!(claim(MAX_BINARY_BYTES + 1), "archive member ramiz is too large");
    assert_eq!(
        claim(400 * 1024 * 1024),
        "archive exceeds member or decompressed size limits"
    );
}

#[test]
fn archive_paths_stay_below() {
    for path in ["a", "a/b", "a//b", "a/./b", "a/"] {
        assert!(safe_archive_path(path.as_bytes()), "{path}");
    }
    for path in ["", "/a", "..", "a/../b", "./a", "."] {
        assert!(!safe_archive_path(path.as_bytes()), "{path}");
    }
}

// ---------------------------------------------------------------------------
// Markers and digests
// ---------------------------------------------------------------------------

#[test]
fn digests_are_written_in_hex() {
    assert_eq!(hex_digest(&[0, 15, 255]), "000fff");
    assert_eq!(
        digest(b"abc"),
        "ba7816bf8f01cfea414140de5dae2223b00361a396177a9cb410ff61f20015ad"
    );
    assert_ne!(hex_digest(b"a"), hex_digest(b"b"));
}

#[test]
fn versions_that_name_files_are_one_segment() {
    for version in ["1.0.0", "1.0.0-rc.1+b7", "7"] {
        assert!(safe_version(version), "{version}");
    }
    for version in ["", "a", "1/0", "..\\1", "1 0", "1.0.0\n"] {
        assert!(!safe_version(version), "{version}");
    }
}

#[test]
fn marker_is_read_back_as_it_was_written() {
    let marker = StandaloneMarker {
        repository: "agensfield/ramiz".into(),
        version: "1.0.0".into(),
        host: "a \"quoted\" host".into(),
        primary_sha256: "p".into(),
        secondary_sha256: "s".into(),
        archive_sha256: "a".into(),
    };
    let text = marker_text(&marker);
    let read = parse_marker(&text).unwrap();
    assert_eq!(read.repository, marker.repository);
    assert_eq!(read.version, marker.version);
    assert_eq!(read.host, marker.host);
    assert_eq!(read.primary_sha256, marker.primary_sha256);
    assert_eq!(read.secondary_sha256, marker.secondary_sha256);
    assert_eq!(read.archive_sha256, marker.archive_sha256);
    assert!(parse_marker("{}").is_none());
    assert!(parse_marker(&format!("{text} x")).is_none());
    assert_eq!(marker_path(b"/b/ramiz"), b"/b/.ramiz-owner.json");
    assert_eq!(manifest_path(b"/b/ramiz"), b"/b/.ramiz-checksums.txt");
    assert_eq!(signature_path(b"/b/ramiz"), b"/b/.ramiz-checksums.txt.minisig");
    let pair = BinaryPair::from_executable(b"/b/git-ramiz");
    assert_eq!((pair.primary, pair.secondary), (b"/b/ramiz".to_vec(), b"/b/git-ramiz".to_vec()));
}

// ---------------------------------------------------------------------------
// Records of Cargo
// ---------------------------------------------------------------------------

#[test]
fn records_of_cargo_are_weighed() {
    let v1 = |version: &str| {
        format!(
            "[v1]\n\"ramiz {version} (registry+https://github.com/rust-lang/crates.io-index)\" = \
             [\"git-ramiz\", \"ramiz\"]\n"
        )
    };
    assert!(matches!(weigh_list(v1("1.0.0").as_bytes(), Some("1.0.0")), Weight::Proof));
    assert!(matches!(weigh_list(v1("1.0.0").as_bytes(), Some("2.0.0")), Weight::Contrary));
    assert!(matches!(weigh_list(b"[v1]\n", None), Weight::Silent));
    // A list that is none says nothing, nor do other tables.
    assert!(matches!(weigh_list(b"[v1]\n\"ramiz 2.0.0 (x)\n", None), Weight::Silent));
    assert!(matches!(weigh_list(&[0xff], None), Weight::Silent));
    let other = v1("2.0.0").replace("[v1]", "[v2]");
    assert!(matches!(weigh_list(other.as_bytes(), Some("1.0.0")), Weight::Silent));
    let second = format!("[ v1 ]\n[v2]\n{}[\"v1\"]\n{}", &v1("2.0.0")[5..], &v1("1.0.0")[5..]);
    assert!(matches!(weigh_list(second.as_bytes(), Some("1.0.0")), Weight::Proof));
    let v2 = |bins: &str| {
        format!(
            "{{\"installs\":{{\"ramiz 1.0.0 (registry+https://github.com/rust-lang/\
             crates.io-index)\":{{\"bins\":{bins}}}}}}}"
        )
    };
    let both = v2("[\"ramiz\", \"git-ramiz\"]");
    assert!(matches!(json_has_cargo_install(both.as_bytes(), Some("1.0.0")), Weight::Proof));
    let one = v2("[\"ramiz\"]");
    assert!(matches!(json_has_cargo_install(one.as_bytes(), Some("1.0.0")), Weight::Contrary));
    // A source needs no closing parenthesis; what is below another version is
    // looked at, what is below the wanted one is not.
    let entry = "{\"bins\":[\"ramiz\",\"git-ramiz\"]}";
    let weigh = |text: String| json_has_cargo_install(text.as_bytes(), Some("1.0.0"));
    assert!(matches!(weigh(format!("{{\"ramiz 1.0.0 (x\":{entry}}}")), Weight::Proof));
    assert!(matches!(weigh(format!("{{\"ramiz 1.0.0\":{entry}}}")), Weight::Contrary));
    assert!(matches!(weigh(format!("{{\"ramiz 1.0.0 (git+x)\":{entry}}}")), Weight::Contrary));
    assert!(matches!(
        weigh(format!("{{\"ramiz 2.0.0 (x)\":[{{\"ramiz 1.0.0 (x)\":{entry}}}]}}")),
        Weight::Proof
    ));
    assert!(matches!(
        weigh(format!("{{\"ramiz 1.0.0 (y)\":{{\"ramiz 1.0.0 (x)\":{entry}}}}}")),
        Weight::Contrary
    ));
    assert!(matches!(weigh(format!("{{\"ramiz 2.0.0 (x)\":{entry}}}")), Weight::Contrary));
    assert!(matches!(weigh(format!("{{\"other 1.0.0 (x)\":{entry}}}")), Weight::Silent));
    // Of two members with one name the later counts; two that name Ramiz do not.
    assert!(matches!(
        weigh(format!("{{\"a\":{{\"ramiz 1.0.0 (x)\":{entry}}},\"a\":{{\"ramiz 3\":1}}}}")),
        Weight::Contrary
    ));
    assert!(matches!(
        weigh(format!("{{\"ramiz 1.0.0 (x)\":{entry},\"ramiz 1.0.0 (x)\":{entry}}}")),
        Weight::Contrary
    ));
    assert!(cargo_record_entry_ok("{\"bins\":[\"git-ramiz\",\"ramiz\"]}"));
    assert!(!cargo_record_entry_ok("{\"bins\":[\"ramiz\"]}"));
    assert!(matches!(weigh_stream(b"", None, HOST), Weight::Silent));
    assert!(is_compatible("x86_64-unknown-linux-gnu", "x86_64-unknown-linux-musl"));
    assert!(is_compatible(HOST, HOST));
    assert!(!is_compatible("x86_64-apple-darwin", HOST));
}

#[test]
fn install_lists_are_parsed() {
    let list = parse_install_list("[v1]\n\"a\" = [\n  \"x\",\n  \"y\",\n]\n# note\n\"b\" = []\n");
    assert_eq!(
        list,
        Some(vec![
            ("a".to_string(), vec!["x".to_string(), "y".to_string()]),
            ("b".to_string(), Vec::new()),
        ])
    );
    assert_eq!(
        parse_install_list("[v1]\n'a\\b' = ['x', \"\\t\\u0041\\U0001F600\\\"\"] # note"),
        Some(vec![("a\\b".to_string(), vec!["x".to_string(), "\tA\u{1F600}\"".to_string()])])
    );
    assert_eq!(
        parse_install_list(
            "top = 1\n[other]\nlist = [\n  [1],\n  {a = 2}]\n[v1]\n\"a\" = []\n[[v1]]\n\"b\" = 1\n"
        ),
        Some(vec![("a".to_string(), Vec::new())])
    );
    assert_eq!(parse_install_list(""), Some(Vec::new()));
    for text in [
        "[v1]\n\"a\" = [",
        "[v1]\n\"a\" = \"b\"",
        "[v1]\n\"a\" = [\"b\" \"c\"]",
        "[v1]\n\"a\" = [,]",
        "[v1]\n\"a\" = [] \"b\" = []",
        "[v1]\n\"a",
        "[v1]\n'a\n'",
        "\"\\x\"",
        "\"\\uD800\"",
        "\"\\U00110000\"",
        "\"\\u12\"",
    ] {
        assert!(parse_install_list(text).is_none(), "{text}");
    }
}

#[test]
fn configuration_gives_the_installation_root() {
    assert_eq!(
        config_install_root("[build]\nroot = \"no\"\n[install] # here\nroot = \"/opt\" # yes\n"),
        Some("/opt".to_string())
    );
    assert_eq!(config_install_root("root = \"/opt\"\n"), None);
    assert_eq!(config_install_root("[install]\nroot = \"\"\n"), None);
}

// ---------------------------------------------------------------------------
// JSON
// ---------------------------------------------------------------------------

#[test]
fn values_are_opened_one_level_at_a_time() {
    match json::node("[1, \"two\", {\"a\": [3]}]") {
        Some(Node::Array(items)) => assert_eq!(items, ["1", "\"two\"", "{\"a\": [3]}"]),
        _ => panic!("no array"),
    }
    match json::node("{\"\\u0061\": 1, \"b\": null}") {
        Some(Node::Object(members)) => {
            assert_eq!(json::member(&members, "a").as_deref(), Some("1"));
            assert_eq!(json::count(&members, "b"), 1);
            assert!(json::member(&members, "c").is_none());
        }
        _ => panic!("no object"),
    }
    match json::node("\"a\\nb\"") {
        Some(Node::Text(text)) => assert_eq!(text, "a\nb"),
        _ => panic!("no text"),
    }
    match json::node("1.50") {
        Some(Node::Number(text)) => assert_eq!(text, "1.5"),
        _ => panic!("no number"),
    }
    assert!(matches!(json::node("true"), Some(Node::Bool(true))));
    assert!(json::node("").is_none());
    assert_eq!(json::skip_space(" \n\t\rx "), "x ");
}

#[test]
fn documents_and_streams() {
    assert_eq!(json::document(" {} ").as_deref(), Some("{}"));
    assert!(json::document("{} {}").is_none());
    assert!(json::document("{").is_none());
    assert_eq!(
        json::stream("{\"a\":1}\n[2]"),
        Some(vec!["{\"a\":1}".to_string(), "[2]".to_string()])
    );
    assert_eq!(json::stream(" \n"), Some(Vec::new()));
    assert!(json::stream("{} x").is_none());
    let alike = |a: &str, b: &str| json::is_alike(a, b, "ramiz ", json::DEPTH);
    assert!(alike("{\"a\":1,\"b\":2}", "{ \"b\": 2, \"a\": 1 }"));
    assert!(!alike("{\"a\":1}", "{\"a\":2}"));
    assert!(alike("{\"a\":1,\"ramiz 1\":3}", "{\"ramiz 2\":4,\"a\":1}"));
    assert!(!alike("1", "1.0"));
    assert!(alike("1.50", "1.5"));
    assert!(alike("[-0, 0.0]", "[0.0, -0.0]"));
    assert!(!alike("0", "0.0"));
    assert!(json::is_sound("[[[]]]", 3));
    assert!(!json::is_sound("[[[]]]", 1));
}

// ---------------------------------------------------------------------------
// Texts, paths and order
// ---------------------------------------------------------------------------

#[test]
fn texts_are_cut_and_written() {
    assert_eq!(text::lines("a\r\nb\n\nc"), ["a", "b", "", "c"]);
    assert_eq!(text::trim(" \u{a0}x\t"), "x");
    assert_eq!(text::split_text("a,,b", ','), ["a", "", "b"]);
    assert_eq!(text::split_bytes(b"a\0b\0", 0), [b"a".to_vec(), b"b".to_vec(), Vec::new()]);
    assert_eq!(text::decimal_text(0), "0");
    assert_eq!(text::decimal_text(u128::MAX), "340282366920938463463374607431768211455");
    assert_eq!(text::signed_text(i32::MIN), "-2147483648");
    assert_eq!(text::parse_unsigned("100644", 8, u32::MAX), Some(0o100644));
    assert_eq!(text::parse_unsigned("+7", 8, 255), Some(7));
    assert_eq!(text::parse_unsigned("256", 10, 255), None);
    assert_eq!(text::parse_unsigned("", 10, 255), None);
    assert_eq!(text::find_text("abcabc", "ca"), Some(2));
    assert_eq!(text::join_text(&vec!["a".into(), "b".into()], ", "), "a, b");
}

#[test]
fn paths_are_taken_apart_as_bytes() {
    assert_eq!(path::file_name(b"/a/b/"), Some(b"b".to_vec()));
    assert_eq!(path::file_name(b"/"), None);
    assert_eq!(path::file_name(b"a/.."), None);
    assert_eq!(path::parent(b"/a/b"), Some(b"/a".to_vec()));
    assert_eq!(path::parent(b"a"), Some(Vec::new()));
    assert_eq!(path::parent(b"/"), None);
    assert_eq!(path::join(b"/a", b"b"), b"/a/b");
    assert_eq!(path::join(b"/a/", b"b"), b"/a/b");
    assert_eq!(path::join(b"/a", b"/b"), b"/b");
    assert!(path::path_starts_with(b"/a/b", b"/a/"));
    assert!(!path::path_starts_with(b"/ab", b"/a"));
    assert!(path::same_path(b"a//b/./", b"a/b"));
    assert_eq!(path::with_file_name(b"/a/b", b"c"), b"/a/c");
    assert_eq!(path::with_extension(b"/a/b.x", b"y"), b"/a/b.y");
}

#[test]
fn names_are_ordered_by_their_bytes() {
    assert!(is_leq(b"a", b"ab"));
    assert!(is_leq(b"Z", b"a"));
    assert!(!is_leq(b"b", b"ab"));
    let names = vec![b"b".to_vec(), b"\xff".to_vec(), b"".to_vec(), b"a".to_vec(), b"b".to_vec()];
    assert_eq!(
        sort_names(&names),
        [b"".to_vec(), b"a".to_vec(), b"b".to_vec(), b"b".to_vec(), b"\xff".to_vec()]
    );
    let set = NameSet::of(&names);
    assert!(set.contains(b"\xff"));
    assert!(set.contains(b""));
    assert!(!set.contains(b"c"));
    assert!(!NameSet::of(&Vec::new()).contains(b""));
}

// ---------------------------------------------------------------------------
// What is printed
// ---------------------------------------------------------------------------

#[test]
fn bytes_are_written_in_base64() {
    let cases: [(&[u8], &str); 7] = [
        (b"", ""),
        (b"f", "Zg=="),
        (b"fo", "Zm8="),
        (b"foo", "Zm9v"),
        (b"foob", "Zm9vYg=="),
        (b"hook-out\nhook-err\n", "aG9vay1vdXQKaG9vay1lcnIK"),
        (b"\xff\xfe\xfd", "//79"),
    ];
    for (bytes, text) in cases {
        assert_eq!(base64(bytes), text);
    }
}

#[test]
fn non_utf8_paths_have_a_lossless_json_representation() {
    let path = EncodedPath::new(&[b'/', b'r', b'a', 0x80]);
    assert_eq!(path.display, "/ra\u{fffd}");
    assert_eq!(path.bytes_base64, "L3JhgA==");
    let all = encode_all(&vec![b"a".to_vec(), b"b".to_vec()]);
    assert_eq!(all[1].display, "b");
    assert_eq!(all[1].bytes_base64, "Yg==");
}

#[test]
fn failures_are_printed_with_what_is_left_behind() {
    let plain = RamizError::new("code", "message".into(), false);
    assert_eq!(plain.lines(), ["ramiz: message"]);
    let cleaned = RamizError::new("code", "message".into(), true).with_cleanup("left".into());
    assert_eq!(cleaned.lines(), ["ramiz: message", "cleanup: left"]);
    let failure = UpdateFailure::new("staging_failed", "no space".into(), b"/bin/ramiz")
        .with_rollback(Err("lost".into()))
        .with_cleanup(Err("stale".into()));
    let error = RamizError::of_update(failure, true);
    assert_eq!(error.lines(), ["ramiz: no space", "rollback: lost", "cleanup: stale"]);
    assert_eq!(error.data.code, "staging_failed");
    assert_eq!(error.exit_code(), 1);
    assert!(error.data.update.is_some());
}

#[test]
fn command_line_failures_keep_their_status() {
    let args = |words: &[&str]| words.iter().map(|w| w.as_bytes().to_vec()).collect();
    assert_eq!(command_name(&args(&["ramiz", "add", "--json"])), "add");
    assert_eq!(command_name(&args(&["ramiz", "doctor"])), "doctor");
    assert_eq!(command_name(&args(&["ramiz", "update"])), "update");
    assert_eq!(command_name(&args(&["ramiz", "--json", "add"])), "unknown");
    assert_eq!(command_name(&args(&["ramiz"])), "unknown");
    assert!(usage_as_json(2, &args(&["ramiz", "add", "--json"])));
    assert!(!usage_as_json(0, &args(&["ramiz", "--help", "--json"])));
    assert!(!usage_as_json(2, &args(&["ramiz", "add"])));
    assert_eq!(usage_status(0), 0);
    assert_eq!(usage_status(64), 64);
    assert_eq!(usage_status(-1), 2);
    assert_eq!(usage_status(256), 2);
    let update = UpdateArgs { check: true, adopt: true, json: false };
    let request = update.request(b"/bin/ramiz", "1.0.0");
    assert!(request.check && request.adopt);
    assert_eq!(request.current_version, "1.0.0");
    assert_eq!(Command::Update(update).name(), "update");
}

#[test]
fn update_prints_what_is_left_to_run() {
    let result = UpdateResult {
        installer: Installer::Homebrew,
        current_version: "1.0.0".into(),
        target_version: None,
        available: false,
        applied: false,
        changed: false,
        executable: b"/bin/ramiz".to_vec(),
        secondary_executable: b"/bin/git-ramiz".to_vec(),
        commands: vec![CommandSpec::brew()],
        message: "owned".into(),
    };
    assert_eq!(update_lines(&result), ["owned", "run: brew upgrade agensfield/tap/ramiz"]);
}
