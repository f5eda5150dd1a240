//! Trust in a release: the signed manifest and the archive's digest.
use crate::outside::{
    key_error, key_problem, signature_error, signature_problem, utf8_error, utf8_text,
    verify_error, verify_problem,
};
use crate::text::{
    chars_of, find_text, first_at, holds, is_blank, lines, lines_of, same, stands_at, stripped,
    text2, text_range, text_views,
};
use crate::update::io::{outcome, ArtifactVerifier, VerifierEvent};
use crate::update::marker::{digest, digest_of};
use crate::update::model::{
    release_failure, DownloadedRelease, FailureView, MetadataView, ReleaseMetadata, ReleaseView,
    UpdateFailure, MINISIGN_PUBLIC_KEY,
};
use vstd::prelude::*;
use vstd::utf8::{decode_utf8, valid_utf8};

verus! {

// ---------------------------------------------------------------------------
// Hexadecimal
// ---------------------------------------------------------------------------

/// A hexadecimal digit of either case.
pub open spec fn hex_digit_char(c: char) -> bool {
    '0' <= c <= '9' || 'a' <= c <= 'f' || 'A' <= c <= 'F'
}

/// Hexadecimal digits only.
pub open spec fn all_hex(s: Seq<char>) -> bool {
    forall|i: int| 0 <= i < s.len() ==> hex_digit_char(#[trigger] s[i])
}

/// An ASCII letter in lower case; any other character is kept.
pub open spec fn lower(c: char) -> char {
    if 'A' <= c <= 'Z' {
        (c as u32 + 32) as char
    } else {
        c
    }
}

/// A text with its ASCII letters in lower case.
pub open spec fn lowered(s: Seq<char>) -> Seq<char> {
    s.map_values(|c: char| lower(c))
}

/// `text` holds hexadecimal digits only, and `count` of them.
pub fn is_hex(text: &str, count: usize) -> (r: bool)
    ensures
        r == (text@.len() == count && all_hex(text@)),
{
    let chars = chars_of(text);
    if chars.len() != count {
        return false;
    }
    for i in 0..chars.len()
        invariant
            chars@ == text@,
            forall|k: int| 0 <= k < i ==> hex_digit_char(#[trigger] chars@[k]),
    {
        let c = chars[i];
        if !(('0' <= c && c <= '9') || ('a' <= c && c <= 'f') || ('A' <= c && c <= 'F')) {
            assert(!hex_digit_char(chars@[i as int]));
            return false;
        }
    }
    true
}

/// `text` with its ASCII letters in lower case.
pub fn to_lower(text: &str) -> (r: String)
    ensures
        r@ == lowered(text@),
{
    let chars = chars_of(text);
    let mut out = String::new();
    for i in 0..chars.len()
        invariant
            out@ == lowered(chars@.take(i as int)),
    {
        let c = chars[i];
        if 'A' <= c && c <= 'Z' {
            out.push((c as u8 + 32) as char);
        } else {
            out.push(c);
        }
        assert(out@ =~= lowered(chars@.take(i + 1)));
    }
    assert(chars@.take(chars@.len() as int) =~= chars@);
    out
}

// ---------------------------------------------------------------------------
// The manifest
// ---------------------------------------------------------------------------

/// The digest and the name of a manifest line: what stands before and behind
/// its first two spaces.
pub open spec fn manifest_entry(line: Seq<char>) -> Option<(Seq<char>, Seq<char>)> {
    if !holds(line, "  "@) {
        None
    } else {
        let at = choose|i: int| first_at(line, "  "@, i);
        let sum = line.take(at);
        let name = line.skip(at + 2);
        if sum.len() == 64 && all_hex(sum) && name.len() > 0 {
            Some((sum, name))
        } else {
            None
        }
    }
}

/// The first place of a pattern is unique.
pub proof fn lemma_first_at(s: Seq<char>, pattern: Seq<char>, i: int, j: int)
    requires
        first_at(s, pattern, i),
        first_at(s, pattern, j),
    ensures
        i == j,
{
    if i < j {
        assert(!stands_at(s, pattern, i));
    }
    if j < i {
        assert(!stands_at(s, pattern, j));
    }
}

fn parse_manifest_entry(line: &str) -> (r: Option<(String, String)>)
    ensures
        match r {
            Some((sum, name)) => manifest_entry(line@) == Some((sum@, name@)),
            None => manifest_entry(line@) is None,
        },
{
    match find_text(line, "  ") {
        None => None,
        Some(at) => {
            proof {
                reveal_strlit("  ");
                assert(holds(line@, "  "@)) by {
                    assert(stands_at(line@, "  "@, at as int));
                }
                let chosen = choose|i: int| first_at(line@, "  "@, i);
                assert(first_at(line@, "  "@, at as int));
                lemma_first_at(line@, "  "@, at as int, chosen);
            }
            let chars = chars_of(line);
            let n: usize = chars.len();
            assert(at + 2 <= n);
            let sum = text_range(chars.as_slice(), 0, at);
            let name = text_range(chars.as_slice(), at + 2, n);
            assert(sum@ =~= line@.take(at as int));
            assert(name@ =~= line@.skip(at + 2));
            if is_hex(sum.as_str(), 64) && n > at + 2 {
                Some((sum, name))
            } else {
                None
            }
        },
    }
}

/// The digest that the lines from `k` on give for an archive, after `selected`
/// was found before them. Every line that is not blank has to be an entry, and
/// only one may name the archive.
pub open spec fn manifest_from(
    all: Seq<Seq<char>>,
    k: int,
    selected: Option<Seq<char>>,
    archive: Seq<char>,
) -> Result<Seq<char>, FailureView>
    decreases all.len() - k,
{
    if k < 0 || k >= all.len() {
        match selected {
            Some(sum) => Ok(sum),
            None => Err(
                release_failure("checksum_missing"@, "checksums.txt does not cover "@ + archive),
            ),
        }
    } else if stripped(all[k]).len() == 0 {
        manifest_from(all, k + 1, selected, archive)
    } else {
        match manifest_entry(all[k]) {
            None => Err(
                release_failure("checksum_manifest_invalid"@, "malformed checksum entry"@),
            ),
            Some((sum, name)) => if name != archive {
                manifest_from(all, k + 1, selected, archive)
            } else if selected is Some {
                Err(release_failure("checksum_manifest_invalid"@, "duplicate checksum entry"@))
            } else {
                manifest_from(all, k + 1, Some(lowered(sum)), archive)
            },
        }
    }
}

/// The digest that a manifest gives for an archive.
pub open spec fn manifest_digest(text: Seq<char>, archive: Seq<char>) -> Result<
    Seq<char>,
    FailureView,
> {
    manifest_from(lines_of(text), 0, None, archive)
}

/// Line `k` of a manifest gives `sum` for an archive.
pub open spec fn gives(all: Seq<Seq<char>>, k: int, archive: Seq<char>, sum: Seq<char>) -> bool {
    &&& 0 <= k < all.len()
    &&& stripped(all[k]).len() > 0
    &&& manifest_entry(all[k]) matches Some((s, name)) && name == archive && lowered(s) == sum
}

/// A digest that a manifest gives stands in one of its lines, the only one
/// that names the archive.
pub proof fn law_manifest_line_is_unique(text: Seq<char>, archive: Seq<char>)
    requires
        manifest_digest(text, archive) is Ok,
    ensures
        exists|k: int|
            #[trigger] gives(lines_of(text), k, archive, manifest_digest(text, archive)->Ok_0)
                && forall|j: int, sum: Seq<char>|
                #[trigger] gives(lines_of(text), j, archive, sum) ==> j == k,
{
    let k = lemma_manifest_from(lines_of(text), 0, None, archive);
    assert(gives(lines_of(text), k, archive, manifest_digest(text, archive)->Ok_0));
}

proof fn lemma_manifest_from(
    all: Seq<Seq<char>>,
    k: int,
    selected: Option<Seq<char>>,
    archive: Seq<char>,
) -> (at: int)
    requires
        0 <= k <= all.len(),
        manifest_from(all, k, selected, archive) is Ok,
    ensures
        selected is Some ==> {
            &&& manifest_from(all, k, selected, archive)->Ok_0 == selected->0
            &&& forall|j: int, sum: Seq<char>|
                k <= j ==> !#[trigger] gives(all, j, archive, sum)
        },
        selected is None ==> {
            &&& k <= at
            &&& gives(all, at, archive, manifest_from(all, k, selected, archive)->Ok_0)
            &&& forall|j: int, sum: Seq<char>|
                k <= j && #[trigger] gives(all, j, archive, sum) ==> j == at
        },
    decreases all.len() - k,
{
    if k >= all.len() {
        return 0;
    }
    if stripped(all[k]).len() == 0 {
        return lemma_manifest_from(all, k + 1, selected, archive);
    }
    let (sum, name) = manifest_entry(all[k])->0;
    if name != archive {
        return lemma_manifest_from(all, k + 1, selected, archive);
    }
    let _ = lemma_manifest_from(all, k + 1, Some(lowered(sum)), archive);
    k
}

// ---------------------------------------------------------------------------
// Verification
// ---------------------------------------------------------------------------

/// The digest that a signed manifest gives for an archive, where the signature
/// is the key's.
pub open spec fn signed_digest(
    key: Seq<char>,
    checksums: Seq<u8>,
    signature: Seq<u8>,
    archive: Seq<char>,
) -> Result<Seq<char>, FailureView> {
    if !valid_utf8(checksums) {
        Err(release_failure("checksum_manifest_invalid"@, utf8_error(checksums)))
    } else if !valid_utf8(signature) {
        Err(release_failure("minisign_invalid"@, utf8_error(signature)))
    } else if let Some(error) = key_error(key) {
        Err(release_failure("invalid_minisign_key"@, error))
    } else if let Some(error) = signature_error(decode_utf8(signature)) {
        Err(release_failure("minisign_invalid"@, error))
    } else if let Some(error) = verify_error(key, checksums, decode_utf8(signature)) {
        Err(release_failure("minisign_invalid"@, error))
    } else {
        manifest_digest(decode_utf8(checksums), archive)
    }
}

/// The view of a digest that was looked up.
pub open spec fn digest_answer(r: Result<String, UpdateFailure>) -> Result<Seq<char>, FailureView> {
    match r {
        Ok(sum) => Ok(sum@),
        Err(failure) => Err(failure@),
    }
}

/// An archive has the digest that is expected of it.
pub open spec fn archive_verdict(archive: Seq<u8>, expected: Seq<char>) -> Result<(), FailureView> {
    if expected.len() != 64 || !all_hex(expected) {
        Err(release_failure("checksum_manifest_invalid"@, "invalid SHA-256 digest"@))
    } else if digest_of(archive) != lowered(expected) {
        Err(
            release_failure(
                "checksum_mismatch"@,
                "downloaded archive SHA-256 does not match checksums.txt"@,
            ),
        )
    } else {
        Ok(())
    }
}

/// A release may be installed.
pub open spec fn release_verdict(metadata: MetadataView, release: ReleaseView) -> Result<
    (),
    FailureView,
> {
    if !metadata.signature_verified {
        Err(release_failure("artifact_trust_failed"@, "release trust was not established"@))
    } else if release.primary.len() == 0 || release.secondary.len() == 0 {
        Err(
            release_failure(
                "archive_invalid"@,
                "release archive did not contain both binaries"@,
            ),
        )
    } else {
        Ok(())
    }
}

/// Checks releases against one Minisign key.
pub struct PinnedMinisignVerifier {
    public_key: String,
    calls: Ghost<Seq<VerifierEvent>>,
}

impl PinnedMinisignVerifier {
    /// The key.
    pub closed spec fn key(&self) -> Seq<char> {
        self.public_key@
    }

    /// A verifier for `public_key`, where that decodes.
    pub fn new(public_key: &str) -> (r: Result<Self, UpdateFailure>)
        ensures
            match r {
                Ok(verifier) => key_error(public_key@) is None && verifier.key() == public_key@,
                Err(failure) => key_error(public_key@) is Some && failure@ == release_failure(
                    "invalid_minisign_key"@,
                    key_error(public_key@)->0,
                ),
            },
    {
        match key_problem(public_key) {
            Some(message) => Err(UpdateFailure::of_release("invalid_minisign_key", message)),
            None => Ok(
                PinnedMinisignVerifier {
                    public_key: public_key.to_owned(),
                    calls: Ghost(Seq::empty()),
                },
            ),
        }
    }

    /// A verifier for the key that releases are signed with.
    pub fn pinned() -> (r: Result<Self, UpdateFailure>)
        ensures
            match r {
                Ok(verifier) => key_error(MINISIGN_PUBLIC_KEY@) is None && verifier.key()
                    == MINISIGN_PUBLIC_KEY@,
                Err(failure) => key_error(MINISIGN_PUBLIC_KEY@) is Some && failure@
                    == release_failure(
                    "invalid_minisign_key"@,
                    key_error(MINISIGN_PUBLIC_KEY@)->0,
                ),
            },
    {
        PinnedMinisignVerifier::new(MINISIGN_PUBLIC_KEY)
    }

    /// A verifier for a key made for a test.
    pub fn test_fixture(public_key: &str) -> (r: Result<Self, UpdateFailure>)
        ensures
            match r {
                Ok(verifier) => key_error(public_key@) is None && verifier.key() == public_key@,
                Err(failure) => key_error(public_key@) is Some && failure@ == release_failure(
                    "invalid_minisign_key"@,
                    key_error(public_key@)->0,
                ),
            },
    {
        PinnedMinisignVerifier::new(public_key)
    }

    /// The digest that the signed manifest gives for `archive_name`.
    pub fn verify_checksums(&self, checksums: &[u8], signature: &[u8], archive_name: &str) -> (r:
        Result<String, UpdateFailure>)
        ensures
            digest_answer(r) == signed_digest(self.key(), checksums@, signature@, archive_name@),
    {
        let key = self.public_key.as_str();
        let text = match utf8_text(checksums) {
            Ok(text) => text,
            Err(message) => {
                return Err(UpdateFailure::of_release("checksum_manifest_invalid", message));
            },
        };
        let detached = match utf8_text(signature) {
            Ok(text) => text,
            Err(message) => return Err(UpdateFailure::of_release("minisign_invalid", message)),
        };
        if let Some(message) = key_problem(key) {
            return Err(UpdateFailure::of_release("invalid_minisign_key", message));
        }
        if let Some(message) = signature_problem(detached.as_str()) {
            return Err(UpdateFailure::of_release("minisign_invalid", message));
        }
        if let Some(message) = verify_problem(key, checksums, detached.as_str()) {
            return Err(UpdateFailure::of_release("minisign_invalid", message));
        }
        select_digest(text.as_str(), archive_name)
    }

    /// `archive` has the digest `expected_hex`.
    pub fn verify_archive(&self, archive: &[u8], expected_hex: &str) -> (r: Result<
        (),
        UpdateFailure,
    >)
        ensures
            outcome(r) == archive_verdict(archive@, expected_hex@),
    {
        if !is_hex(expected_hex, 64) {
            return Err(
                UpdateFailure::of_release(
                    "checksum_manifest_invalid",
                    "invalid SHA-256 digest".to_owned(),
                ),
            );
        }
        if !same(digest(archive).as_str(), to_lower(expected_hex).as_str()) {
            return Err(
                UpdateFailure::of_release(
                    "checksum_mismatch",
                    "downloaded archive SHA-256 does not match checksums.txt".to_owned(),
                ),
            );
        }
        Ok(())
    }
}

/// The digest that the manifest `text` gives for `archive_name`.
pub fn select_digest(text: &str, archive_name: &str) -> (r: Result<String, UpdateFailure>)
    ensures
        digest_answer(r) == manifest_digest(text@, archive_name@),
{
    let all = lines(text);
    let ghost views = text_views(all@);
    let mut selected: Option<String> = None;
    for k in 0..all.len()
        invariant
            views == text_views(all@),
            views == lines_of(text@),
            manifest_from(views, 0, None, archive_name@) == manifest_from(
                views,
                k as int,
                crate::update::model::text_option(selected),
                archive_name@,
            ),
    {
        assert(views[k as int] == all@[k as int]@);
        if !is_blank(all[k].as_str()) {
            match parse_manifest_entry(all[k].as_str()) {
                None => {
                    return Err(
                        UpdateFailure::of_release(
                            "checksum_manifest_invalid",
                            "malformed checksum entry".to_owned(),
                        ),
                    );
                },
                Some((sum, name)) => {
                    if same(name.as_str(), archive_name) {
                        if selected.is_some() {
                            return Err(
                                UpdateFailure::of_release(
                                    "checksum_manifest_invalid",
                                    "duplicate checksum entry".to_owned(),
                                ),
                            );
                        }
                        selected = Some(to_lower(sum.as_str()));
                    }
                },
            }
        }
    }
    match selected {
        Some(sum) => Ok(sum),
        None => Err(
            UpdateFailure::of_release(
                "checksum_missing",
                text2("checksums.txt does not cover ", archive_name),
            ),
        ),
    }
}

impl ArtifactVerifier for PinnedMinisignVerifier {
    closed spec fn log(&self) -> Seq<VerifierEvent> {
        self.calls@
    }

    fn verify(&mut self, metadata: &ReleaseMetadata, release: &DownloadedRelease) -> (r: Result<
        (),
        UpdateFailure,
    >)
        ensures
            outcome(r) == release_verdict(metadata@, release@),
            final(self).key() == old(self).key(),
    {
        let r = if !metadata.signature_verified {
            Err(
                UpdateFailure::of_release(
                    "artifact_trust_failed",
                    "release trust was not established".to_owned(),
                ),
            )
        } else if release.primary.len() == 0 || release.secondary.len() == 0 {
            Err(
                UpdateFailure::of_release(
                    "archive_invalid",
                    "release archive did not contain both binaries".to_owned(),
                ),
            )
        } else {
            Ok(())
        };
        self.calls = Ghost(
            self.calls@.push(VerifierEvent::Verify(metadata@, release@, outcome(r))),
        );
        r
    }
}

} // verus!
