//! The official release source, short of the network.
//!
//! What to fetch, and what to make of what came back. A driver fetches each
//! URL that a [`ReleaseStep`] asks for and hands the bytes back.
use crate::outside::{key_error, version_error, version_problem};
use crate::text::{
    begins, copy, holds, same, text2, text3, text5, text_begins, text_holds, text_range,
};
use crate::update::archive::{
    extract_pair, pair_in, told, unpack_archive, unpacked_in, ReleaseSource, SourceView, Unpacked,
    UnpackedView,
};
use crate::update::io::{material, outcome};
use crate::update::marker::{safe_version, version_like};
use crate::update::model::{
    release_failure, DownloadedRelease, FailureView, MetadataView, ReleaseMetadata, ReleaseView,
    UpdateFailure, MINISIGN_PUBLIC_KEY, REPOSITORY,
};
use crate::update::trust::{
    archive_verdict, digest_answer, signed_digest, PinnedMinisignVerifier,
};
use vstd::prelude::*;

verus! {

/// How large a description of a release may be.
pub const MAX_METADATA_BYTES: u64 = 2097152;

/// How large a file of a release may be.
pub const MAX_DOWNLOAD_BYTES: u64 = 268435456;

/// A file of a release.
#[derive(Clone, Debug)]
pub struct GithubAsset {
    pub name: String,
    pub browser_download_url: String,
}

/// The model of a [`GithubAsset`].
#[verifier::ext_equal]
pub struct AssetView {
    pub name: Seq<char>,
    pub url: Seq<char>,
}

impl View for GithubAsset {
    type V = AssetView;

    open spec fn view(&self) -> AssetView {
        AssetView { name: self.name@, url: self.browser_download_url@ }
    }
}

impl GithubAsset {
    fn duplicate(&self) -> (r: Self)
        ensures
            r@ == self@,
    {
        GithubAsset {
            name: self.name.clone(),
            browser_download_url: self.browser_download_url.clone(),
        }
    }
}

/// A release as GitHub describes it.
#[derive(Clone, Debug)]
pub struct GithubRelease {
    pub tag_name: String,
    pub prerelease: bool,
    pub draft: bool,
    pub assets: Vec<GithubAsset>,
}

/// The model of a [`GithubRelease`].
#[verifier::ext_equal]
pub struct GithubReleaseView {
    pub tag_name: Seq<char>,
    pub prerelease: bool,
    pub draft: bool,
    pub assets: Seq<AssetView>,
}

/// The views of a list of assets.
pub open spec fn asset_views(v: Seq<GithubAsset>) -> Seq<AssetView> {
    v.map_values(|a: GithubAsset| a@)
}

impl View for GithubRelease {
    type V = GithubReleaseView;

    open spec fn view(&self) -> GithubReleaseView {
        GithubReleaseView {
            tag_name: self.tag_name@,
            prerelease: self.prerelease,
            draft: self.draft,
            assets: asset_views(self.assets@),
        }
    }
}

// ---------------------------------------------------------------------------
// Names and addresses
// ---------------------------------------------------------------------------

/// The platform and the architecture in the name of an archive for `host`.
pub open spec fn archive_platform(host: Seq<char>) -> Option<(Seq<char>, Seq<char>)> {
    if host == "aarch64-apple-darwin"@ {
        Some(("darwin"@, "arm64"@))
    } else if host == "x86_64-apple-darwin"@ {
        Some(("darwin"@, "amd64"@))
    } else if host == "aarch64-unknown-linux-musl"@ {
        Some(("linux"@, "arm64"@))
    } else if host == "x86_64-unknown-linux-musl"@ {
        Some(("linux"@, "amd64"@))
    } else {
        None
    }
}

/// The name of the archive of a version for a host; none for a host that has
/// none.
pub open spec fn archive_for(version: Seq<char>, host: Seq<char>) -> Option<Seq<char>> {
    match archive_platform(host) {
        None => None,
        Some((platform, arch)) => Some(
            "ramiz_"@ + version + "_"@ + platform + "_"@ + arch + ".tar.gz"@,
        ),
    }
}

/// The name of the archive of `version` for `host`.
pub fn archive_name(version: &str, host: &str) -> (r: Option<String>)
    ensures
        crate::update::model::text_option(r) == archive_for(version@, host@),
{
    let (platform, arch) = if same(host, "aarch64-apple-darwin") {
        ("darwin", "arm64")
    } else if same(host, "x86_64-apple-darwin") {
        ("darwin", "amd64")
    } else if same(host, "aarch64-unknown-linux-musl") {
        ("linux", "arm64")
    } else if same(host, "x86_64-unknown-linux-musl") {
        ("linux", "amd64")
    } else {
        return None;
    };
    let front = text5("ramiz_", version, "_", platform, "_");
    Some(text3(front.as_str(), arch, ".tar.gz"))
}

/// An address from which files of a release may come.
pub open spec fn official_asset(url: Seq<char>) -> bool {
    ||| begins(url, "https://github.com/agensfield/ramiz/releases/download/"@)
    ||| begins(url, "https://objects.githubusercontent.com/"@) && holds(
        url,
        "github-production-release-asset"@,
    )
    ||| begins(url, "https://release-assets.githubusercontent.com/"@)
}

/// An address from which descriptions of releases may come.
pub open spec fn official_api(url: Seq<char>) -> bool {
    begins(url, "https://api.github.com/repos/agensfield/ramiz/"@)
}

/// The refusal of an address of a file.
pub open spec fn foreign_asset() -> FailureView {
    release_failure(
        "untrusted_release_source"@,
        "release asset URL is not an official Agensfield GitHub URL"@,
    )
}

/// `url` is one from which files of a release may come.
pub fn ensure_official_asset(url: &str) -> (r: Result<(), UpdateFailure>)
    ensures
        outcome(r) == (if official_asset(url@) {
            Ok::<(), FailureView>(())
        } else {
            Err(foreign_asset())
        }),
{
    if text_begins(url, "https://github.com/agensfield/ramiz/releases/download/") || (text_begins(
        url,
        "https://objects.githubusercontent.com/",
    ) && text_holds(url, "github-production-release-asset")) || text_begins(
        url,
        "https://release-assets.githubusercontent.com/",
    ) {
        Ok(())
    } else {
        Err(
            UpdateFailure::of_release(
                "untrusted_release_source",
                "release asset URL is not an official Agensfield GitHub URL".to_owned(),
            ),
        )
    }
}

/// `url` is one from which descriptions of releases may come.
pub fn ensure_official_api(url: &str) -> (r: Result<(), UpdateFailure>)
    ensures
        outcome(r) == (if official_api(url@) {
            Ok::<(), FailureView>(())
        } else {
            Err(
                release_failure(
                    "untrusted_release_source"@,
                    "release metadata URL is outside the official GitHub repository"@,
                ),
            )
        }),
{
    if text_begins(url, "https://api.github.com/repos/agensfield/ramiz/") {
        Ok(())
    } else {
        Err(
            UpdateFailure::of_release(
                "untrusted_release_source",
                "release metadata URL is outside the official GitHub repository".to_owned(),
            ),
        )
    }
}

// ---------------------------------------------------------------------------
// The files of a release
// ---------------------------------------------------------------------------

/// Two files have the same name.
pub open spec fn repeated(assets: Seq<AssetView>) -> bool {
    exists|i: int, j: int|
        0 <= i < j < assets.len() && (#[trigger] assets[i]).name == (#[trigger] assets[j]).name
}

/// The first file of a name.
pub open spec fn asset_named(assets: Seq<AssetView>, name: Seq<char>) -> Option<AssetView>
    decreases assets.len(),
{
    if assets.len() == 0 {
        None
    } else if assets[0].name == name {
        Some(assets[0])
    } else {
        asset_named(assets.skip(1), name)
    }
}

/// A version as a tag writes it: without a leading `v`.
pub open spec fn tag_version(tag: Seq<char>) -> Seq<char> {
    if tag.len() > 0 && tag[0] == 'v' {
        tag.skip(1)
    } else {
        tag
    }
}

/// The refusal of a release that lacks a file.
pub open spec fn lacking(name: Seq<char>) -> FailureView {
    release_failure(
        "release_asset_invalid"@,
        "GitHub release must contain exactly one "@ + name,
    )
}

/// What a release offers a host: its version, the name of the archive, the
/// archive, and where the manifest and its signature lie.
#[verifier::ext_equal]
pub struct OfferView {
    pub version: Seq<char>,
    pub archive: AssetView,
    pub checksum: AssetView,
    pub signature: AssetView,
}

/// The four files of a release, each from an official address.
pub open spec fn offered(assets: Seq<AssetView>, version: Seq<char>, archive: Seq<char>) -> Result<
    OfferView,
    FailureView,
> {
    match asset_named(assets, archive) {
        None => Err(lacking(archive)),
        Some(archive) => match asset_named(assets, "checksums.txt"@) {
            None => Err(lacking("checksums.txt"@)),
            Some(checksum) => match asset_named(assets, "checksums.txt.minisig"@) {
                None => Err(lacking("checksums.txt.minisig"@)),
                Some(signature) => match asset_named(assets, "attestation.jsonl"@) {
                    None => Err(lacking("attestation.jsonl"@)),
                    Some(attestation) => if official_asset(archive.url) && official_asset(
                        checksum.url,
                    ) && official_asset(signature.url) && official_asset(attestation.url) {
                        Ok(OfferView { version, archive, checksum, signature })
                    } else {
                        Err(foreign_asset())
                    },
                },
            },
        },
    }
}

/// What a release offers a host, where it is stable, well named and complete.
pub open spec fn offer_of(release: GithubReleaseView, host: Seq<char>) -> Result<
    OfferView,
    FailureView,
> {
    let version = tag_version(release.tag_name);
    if release.prerelease || release.draft {
        Err(
            release_failure(
                "release_not_stable"@,
                "GitHub returned a draft or prerelease release"@,
            ),
        )
    } else if repeated(release.assets) {
        Err(
            release_failure(
                "release_asset_invalid"@,
                "GitHub release contains duplicate asset names"@,
            ),
        )
    } else if !version_like(version) || version_error(version) is Some {
        Err(
            release_failure(
                "invalid_release_metadata"@,
                "GitHub returned an invalid release tag"@,
            ),
        )
    } else {
        match archive_for(version, host) {
            None => Err(
                release_failure("unsupported_host"@, "no Ramiz release artifact for "@ + host),
            ),
            Some(archive) => offered(release.assets, version, archive),
        }
    }
}

/// What a release offers a host.
pub struct Offer {
    pub version: String,
    pub archive: GithubAsset,
    pub checksum: GithubAsset,
    pub signature: GithubAsset,
}

impl View for Offer {
    type V = OfferView;

    open spec fn view(&self) -> OfferView {
        OfferView {
            version: self.version@,
            archive: self.archive@,
            checksum: self.checksum@,
            signature: self.signature@,
        }
    }
}

fn has_repeated(assets: &Vec<GithubAsset>) -> (r: bool)
    ensures
        r == repeated(asset_views(assets@)),
{
    let ghost all = asset_views(assets@);
    for i in 0..assets.len()
        invariant
            all == asset_views(assets@),
            forall|a: int, b: int|
                0 <= a < b < all.len() && a < i ==> (#[trigger] all[a]).name
                    != (#[trigger] all[b]).name,
    {
        for j in i + 1..assets.len()
            invariant
                i < j <= assets@.len(),
                all == asset_views(assets@),
                forall|b: int| i < b < j ==> all[i as int].name != (#[trigger] all[b]).name,
        {
            assert(all[i as int] == assets@[i as int]@ && all[j as int] == assets@[j as int]@);
            if same(assets[i].name.as_str(), assets[j].name.as_str()) {
                assert(all[i as int].name == all[j as int].name);
                return true;
            }
        }
    }
    false
}

/// The view of an optional asset.
pub open spec fn asset_option(o: Option<GithubAsset>) -> Option<AssetView> {
    match o {
        Some(asset) => Some(asset@),
        None => None,
    }
}

fn find_asset(assets: &Vec<GithubAsset>, name: &str) -> (r: Option<GithubAsset>)
    ensures
        asset_option(r) == asset_named(asset_views(assets@), name@),
{
    let ghost all = asset_views(assets@);
    assert(all.skip(0) =~= all);
    for i in 0..assets.len()
        invariant
            all == asset_views(assets@),
            asset_named(all, name@) == asset_named(all.skip(i as int), name@),
    {
        assert(all.skip(i as int)[0] == assets@[i as int]@);
        assert(all.skip(i as int).skip(1) =~= all.skip(i + 1));
        if same(assets[i].name.as_str(), name) {
            return Some(assets[i].duplicate());
        }
    }
    None
}

fn lacking_error(name: &str) -> (r: UpdateFailure)
    ensures
        r@ == lacking(name@),
{
    UpdateFailure::of_release(
        "release_asset_invalid",
        text2("GitHub release must contain exactly one ", name),
    )
}

/// The view of an offer that was made out.
pub open spec fn offer_answer(r: Result<Offer, UpdateFailure>) -> Result<OfferView, FailureView> {
    match r {
        Ok(offer) => Ok(offer@),
        Err(failure) => Err(failure@),
    }
}

fn select_files(assets: &Vec<GithubAsset>, version: String, archive: &str) -> (r: Result<
    Offer,
    UpdateFailure,
>)
    ensures
        offer_answer(r) == offered(asset_views(assets@), version@, archive@),
{
    let archive = match find_asset(assets, archive) {
        Some(asset) => asset,
        None => return Err(lacking_error(archive)),
    };
    let checksum = match find_asset(assets, "checksums.txt") {
        Some(asset) => asset,
        None => return Err(lacking_error("checksums.txt")),
    };
    let signature = match find_asset(assets, "checksums.txt.minisig") {
        Some(asset) => asset,
        None => return Err(lacking_error("checksums.txt.minisig")),
    };
    let attestation = match find_asset(assets, "attestation.jsonl") {
        Some(asset) => asset,
        None => return Err(lacking_error("attestation.jsonl")),
    };
    if let Err(failure) = ensure_official_asset(archive.browser_download_url.as_str()) {
        return Err(failure);
    }
    if let Err(failure) = ensure_official_asset(checksum.browser_download_url.as_str()) {
        return Err(failure);
    }
    if let Err(failure) = ensure_official_asset(signature.browser_download_url.as_str()) {
        return Err(failure);
    }
    if let Err(failure) = ensure_official_asset(attestation.browser_download_url.as_str()) {
        return Err(failure);
    }
    Ok(Offer { version, archive, checksum, signature })
}

/// The version that `tag` writes.
fn version_of_tag(tag: &str) -> (r: String)
    ensures
        r@ == tag_version(tag@),
{
    let chars = crate::text::chars_of(tag);
    if chars.len() > 0 && chars[0] == 'v' {
        let r = text_range(chars.as_slice(), 1, chars.len());
        assert(r@ =~= tag@.skip(1));
        r
    } else {
        tag.to_owned()
    }
}

/// What `release` offers `host`.
pub fn select_release(release: &GithubRelease, host: &str) -> (r: Result<Offer, UpdateFailure>)
    ensures
        offer_answer(r) == offer_of(release@, host@),
{
    if release.prerelease || release.draft {
        return Err(
            UpdateFailure::of_release(
                "release_not_stable",
                "GitHub returned a draft or prerelease release".to_owned(),
            ),
        );
    }
    if has_repeated(&release.assets) {
        return Err(
            UpdateFailure::of_release(
                "release_asset_invalid",
                "GitHub release contains duplicate asset names".to_owned(),
            ),
        );
    }
    let version = version_of_tag(release.tag_name.as_str());
    if !safe_version(version.as_str()) || version_problem(version.as_str()).is_some() {
        return Err(
            UpdateFailure::of_release(
                "invalid_release_metadata",
                "GitHub returned an invalid release tag".to_owned(),
            ),
        );
    }
    match archive_name(version.as_str(), host) {
        None => Err(
            UpdateFailure::of_release(
                "unsupported_host",
                text2("no Ramiz release artifact for ", host),
            ),
        ),
        Some(archive) => select_files(&release.assets, version, archive.as_str()),
    }
}

// ---------------------------------------------------------------------------
// The provider
// ---------------------------------------------------------------------------

/// What is known of the release looked at last.
#[derive(Clone, Debug)]
pub struct GithubReleaseState {
    pub archive: GithubAsset,
    pub checksum: Vec<u8>,
    pub signature: Vec<u8>,
}

/// The model of a [`GithubReleaseState`].
#[verifier::ext_equal]
pub struct StateView {
    pub archive: AssetView,
    pub checksum: Seq<u8>,
    pub signature: Seq<u8>,
}

impl View for GithubReleaseState {
    type V = StateView;

    open spec fn view(&self) -> StateView {
        StateView {
            archive: self.archive@,
            checksum: self.checksum@,
            signature: self.signature@,
        }
    }
}

/// The view of an optional state.
pub open spec fn state_option(o: Option<GithubReleaseState>) -> Option<StateView> {
    match o {
        Some(state) => Some(state@),
        None => None,
    }
}

/// What a lookup or a download needs next, or has come to.
pub enum ReleaseStep<T> {
    /// The bytes at this address.
    Fetch(String),
    /// Nothing more.
    Done(Result<T, UpdateFailure>),
}

/// The model of a [`ReleaseStep`].
pub enum StepView<T> {
    Fetch(Seq<char>),
    Done(Result<T, FailureView>),
}

impl<T: View> View for ReleaseStep<T> {
    type V = StepView<T::V>;

    open spec fn view(&self) -> StepView<T::V> {
        match *self {
            ReleaseStep::Fetch(url) => StepView::Fetch(url@),
            ReleaseStep::Done(r) => StepView::Done(outcome(r)),
        }
    }
}

/// What came back from an address.
pub type Reply = Result<Vec<u8>, UpdateFailure>;

/// The view of what came back from an address.
pub open spec fn reply_view(r: Reply) -> Result<Seq<u8>, FailureView> {
    match r {
        Ok(bytes) => Ok(bytes@),
        Err(failure) => Err(failure@),
    }
}

/// The views of a list of replies.
pub open spec fn reply_views(v: Seq<Reply>) -> Seq<Result<Seq<u8>, FailureView>> {
    v.map_values(|r: Reply| reply_view(r))
}

/// What is said of a release whose signed manifest was checked.
pub open spec fn trusted_metadata(
    version: Seq<char>,
    host: Seq<char>,
    sum: Seq<char>,
) -> MetadataView {
    MetadataView {
        repository: REPOSITORY@,
        version,
        host,
        primary_asset: "ramiz"@,
        secondary_asset: "git-ramiz"@,
        archive_sha256: sum,
        signature_verified: true,
    }
}

/// The next step of looking a release up: the manifest, then its signature,
/// then what the two show.
pub open spec fn metadata_step(
    release: GithubReleaseView,
    host: Seq<char>,
    key: Seq<char>,
    replies: Seq<Result<Seq<u8>, FailureView>>,
) -> StepView<MetadataView> {
    match offer_of(release, host) {
        Err(failure) => StepView::Done(Err(failure)),
        Ok(offer) => if replies.len() == 0 {
            StepView::Fetch(offer.checksum.url)
        } else {
            match replies[0] {
                Err(failure) => StepView::Done(Err(failure)),
                Ok(checksums) => if replies.len() == 1 {
                    StepView::Fetch(offer.signature.url)
                } else {
                    match replies[1] {
                        Err(failure) => StepView::Done(Err(failure)),
                        Ok(signature) => StepView::Done(
                            checked_metadata(offer, host, key, checksums, signature),
                        ),
                    }
                },
            }
        },
    }
}

/// What a fetched manifest and signature show of a release.
pub open spec fn checked_metadata(
    offer: OfferView,
    host: Seq<char>,
    key: Seq<char>,
    checksums: Seq<u8>,
    signature: Seq<u8>,
) -> Result<MetadataView, FailureView> {
    match key_error(key) {
        Some(error) => Err(release_failure("invalid_minisign_key"@, error)),
        None => match signed_digest(key, checksums, signature, offer.archive.name) {
            Err(failure) => Err(failure),
            Ok(sum) => Ok(trusted_metadata(offer.version, host, sum)),
        },
    }
}

/// The next step of downloading a release: the archive, then what is in it.
pub open spec fn download_step(
    state: Option<StateView>,
    metadata: MetadataView,
    key: Seq<char>,
    replies: Seq<Result<Seq<u8>, FailureView>>,
) -> StepView<UnpackedView> {
    match state {
        None => StepView::Done(
            Err(
                release_failure(
                    "release_state_missing"@,
                    "release metadata must be checked before download"@,
                ),
            ),
        ),
        Some(state) => match archive_for(metadata.version, metadata.host) {
            None => StepView::Done(
                Err(release_failure("unsupported_host"@, "unsupported release host"@)),
            ),
            Some(expected) => if state.archive.name != expected {
                StepView::Done(
                    Err(
                        release_failure(
                            "release_state_mismatch"@,
                            "release metadata and downloaded asset do not match"@,
                        ),
                    ),
                )
            } else if replies.len() == 0 {
                StepView::Fetch(state.archive.url)
            } else {
                StepView::Done(
                    match replies[0] {
                        Err(failure) => Err(failure),
                        Ok(archive) => opened_archive(archive, metadata, key),
                    },
                )
            },
        },
    }
}

/// What is in a fetched archive that has the expected digest.
pub open spec fn opened_archive(archive: Seq<u8>, metadata: MetadataView, key: Seq<char>) -> Result<
    UnpackedView,
    FailureView,
> {
    match key_error(key) {
        Some(error) => Err(release_failure("invalid_minisign_key"@, error)),
        None => match archive_verdict(archive, metadata.archive_sha256) {
            Err(failure) => Err(failure),
            Ok(_) => match unpacked_in(archive, metadata) {
                Err(message) => Err(release_failure("archive_invalid"@, message)),
                Ok(unpacked) => Ok(unpacked),
            },
        },
    }
}

/// The pair in a downloaded archive, given what its provenance record says, or
/// why that cannot be read.
pub open spec fn accepted_release(
    unpacked: UnpackedView,
    source: Result<SourceView, Seq<char>>,
    metadata: MetadataView,
) -> Result<ReleaseView, FailureView> {
    match pair_in(unpacked, source, metadata) {
        Err(message) => Err(release_failure("archive_invalid"@, message)),
        Ok(release) => Ok(release),
    }
}

/// The pair in a downloaded archive, given what its provenance record says, or
/// why that cannot be read.
pub fn accept_release(
    unpacked: Unpacked,
    source: Result<ReleaseSource, String>,
    metadata: &ReleaseMetadata,
) -> (r: Result<DownloadedRelease, UpdateFailure>)
    ensures
        outcome(r) == accepted_release(unpacked@, told(source), metadata@),
{
    match extract_pair(unpacked, source, metadata) {
        Ok(release) => Ok(release),
        Err(message) => Err(UpdateFailure::of_release("archive_invalid", message)),
    }
}

/// The official GitHub release source.
pub struct GithubReleaseProvider {
    api_base: String,
    public_key: String,
    state: Option<GithubReleaseState>,
}

/// A text without the `/` at its end.
pub open spec fn without_slashes(s: Seq<char>) -> Seq<char>
    decreases s.len(),
{
    if s.len() > 0 && s.last() == '/' {
        without_slashes(s.drop_last())
    } else {
        s
    }
}

impl GithubReleaseProvider {
    /// Where descriptions of releases are asked for.
    pub closed spec fn base(&self) -> Seq<char> {
        self.api_base@
    }

    /// The key that manifests are signed with.
    pub closed spec fn key(&self) -> Seq<char> {
        self.public_key@
    }

    /// What is known of the release looked at last.
    pub closed spec fn known(&self) -> Option<StateView> {
        state_option(self.state)
    }

    /// The release source of this repository.
    pub fn new() -> (r: Self)
        ensures
            r.base() == without_slashes("https://api.github.com/repos/agensfield/ramiz"@),
            r.key() == MINISIGN_PUBLIC_KEY@,
            r.known() is None,
    {
        GithubReleaseProvider::with_api_base_and_key(
            "https://api.github.com/repos/agensfield/ramiz",
            MINISIGN_PUBLIC_KEY,
        )
    }

    /// A release source at another place, with another key.
    pub fn with_api_base_and_key(api_base: &str, public_key: &str) -> (r: Self)
        ensures
            r.base() == without_slashes(api_base@),
            r.key() == public_key@,
            r.known() is None,
    {
        let chars = crate::text::chars_of(api_base);
        let mut end: usize = chars.len();
        assert(chars@.take(end as int) =~= chars@);
        while end > 0 && chars[end - 1] == '/'
            invariant
                end <= chars@.len(),
                without_slashes(chars@) == without_slashes(chars@.take(end as int)),
            decreases end,
        {
            assert(chars@.take(end as int).drop_last() =~= chars@.take(end - 1));
            end = end - 1;
        }
        let base = text_range(chars.as_slice(), 0, end);
        assert(base@ =~= chars@.take(end as int));
        GithubReleaseProvider { api_base: base, public_key: public_key.to_owned(), state: None }
    }

    /// Where the newest release is described.
    pub fn latest_url(&self) -> (r: String)
        ensures
            r@ == self.base() + "/releases/latest"@,
    {
        text2(self.api_base.as_str(), "/releases/latest")
    }

    /// Where the release of exactly `version` is described.
    pub fn exact_release_url(&self, version: &str) -> (r: Result<String, UpdateFailure>)
        ensures
            digest_answer(r) == (if !version_like(version@) || version_error(version@) is Some {
                Err::<Seq<char>, FailureView>(
                    release_failure("invalid_release_metadata"@, "invalid release version"@),
                )
            } else {
                Ok(self.base() + "/releases/tags/v"@ + version@)
            }),
    {
        if !safe_version(version) || version_problem(version).is_some() {
            return Err(
                UpdateFailure::of_release(
                    "invalid_release_metadata",
                    "invalid release version".to_owned(),
                ),
            );
        }
        Ok(text3(self.api_base.as_str(), "/releases/tags/v", version))
    }

    /// The next step of looking `release` up for `host`, after `replies` came
    /// back. Once it is trusted its archive and trust material are kept.
    pub fn metadata_for_release(
        &mut self,
        release: &GithubRelease,
        host: &str,
        replies: &Vec<Reply>,
    ) -> (r: ReleaseStep<ReleaseMetadata>)
        ensures
            r@ == metadata_step(release@, host@, old(self).key(), reply_views(replies@)),
            final(self).base() == old(self).base(),
            final(self).key() == old(self).key(),
            final(self).known() == (if r@ is Done && r@->Done_0 is Ok {
                Some(
                    StateView {
                        archive: offer_of(release@, host@)->Ok_0.archive,
                        checksum: reply_views(replies@)[0]->Ok_0,
                        signature: reply_views(replies@)[1]->Ok_0,
                    },
                )
            } else {
                old(self).known()
            }),
    {
        let ghost answers = reply_views(replies@);
        let offer = match select_release(release, host) {
            Ok(offer) => offer,
            Err(failure) => return ReleaseStep::Done(Err(failure)),
        };
        if replies.len() == 0 {
            return ReleaseStep::Fetch(offer.checksum.browser_download_url);
        }
        assert(answers[0] == reply_view(replies@[0]));
        let checksums = match &replies[0] {
            Ok(bytes) => bytes,
            Err(failure) => return ReleaseStep::Done(Err(copy_failure(failure))),
        };
        if replies.len() == 1 {
            return ReleaseStep::Fetch(offer.signature.browser_download_url);
        }
        assert(answers[1] == reply_view(replies@[1]));
        let signature = match &replies[1] {
            Ok(bytes) => bytes,
            Err(failure) => return ReleaseStep::Done(Err(copy_failure(failure))),
        };
        let trusted = match PinnedMinisignVerifier::new(self.public_key.as_str()) {
            Ok(trusted) => trusted,
            Err(failure) => return ReleaseStep::Done(Err(failure)),
        };
        let sum = match trusted.verify_checksums(
            checksums.as_slice(),
            signature.as_slice(),
            offer.archive.name.as_str(),
        ) {
            Ok(sum) => sum,
            Err(failure) => return ReleaseStep::Done(Err(failure)),
        };
        self.state = Some(
            GithubReleaseState {
                archive: offer.archive,
                checksum: copy(checksums.as_slice()),
                signature: copy(signature.as_slice()),
            },
        );
        ReleaseStep::Done(
            Ok(
                ReleaseMetadata {
                    repository: REPOSITORY.to_owned(),
                    version: offer.version,
                    host: host.to_owned(),
                    primary_asset: "ramiz".to_owned(),
                    secondary_asset: "git-ramiz".to_owned(),
                    archive_sha256: sum,
                    signature_verified: true,
                },
            ),
        )
    }

    /// The next step of downloading the release looked at last, after
    /// `replies` came back.
    pub fn download(&self, metadata: &ReleaseMetadata, replies: &Vec<Reply>) -> (r: ReleaseStep<
        Unpacked,
    >)
        ensures
            r@ == download_step(self.known(), metadata@, self.key(), reply_views(replies@)),
    {
        let ghost answers = reply_views(replies@);
        let state = match &self.state {
            Some(state) => state,
            None => {
                return ReleaseStep::Done(
                    Err(
                        UpdateFailure::of_release(
                            "release_state_missing",
                            "release metadata must be checked before download".to_owned(),
                        ),
                    ),
                );
            },
        };
        let expected = match archive_name(metadata.version.as_str(), metadata.host.as_str()) {
            Some(name) => name,
            None => {
                return ReleaseStep::Done(
                    Err(
                        UpdateFailure::of_release(
                            "unsupported_host",
                            "unsupported release host".to_owned(),
                        ),
                    ),
                );
            },
        };
        if !same(state.archive.name.as_str(), expected.as_str()) {
            return ReleaseStep::Done(
                Err(
                    UpdateFailure::of_release(
                        "release_state_mismatch",
                        "release metadata and downloaded asset do not match".to_owned(),
                    ),
                ),
            );
        }
        if replies.len() == 0 {
            return ReleaseStep::Fetch(state.archive.browser_download_url.clone());
        }
        assert(answers[0] == reply_view(replies@[0]));
        let archive = match &replies[0] {
            Ok(bytes) => bytes,
            Err(failure) => return ReleaseStep::Done(Err(copy_failure(failure))),
        };
        let trusted = match PinnedMinisignVerifier::new(self.public_key.as_str()) {
            Ok(trusted) => trusted,
            Err(failure) => return ReleaseStep::Done(Err(failure)),
        };
        if let Err(failure) = trusted.verify_archive(
            archive.as_slice(),
            metadata.archive_sha256.as_str(),
        ) {
            return ReleaseStep::Done(Err(failure));
        }
        match unpack_archive(archive.as_slice(), metadata) {
            Ok(unpacked) => ReleaseStep::Done(Ok(unpacked)),
            Err(message) => ReleaseStep::Done(
                Err(UpdateFailure::of_release("archive_invalid", message)),
            ),
        }
    }

    /// The manifest of the release looked at last, and its signature.
    pub fn trust_material(&self) -> (r: Option<(Vec<u8>, Vec<u8>)>)
        ensures
            material(r) == (match self.known() {
                Some(state) => Some((state.checksum, state.signature)),
                None => None,
            }),
    {
        match &self.state {
            Some(state) => Some(
                (copy(state.checksum.as_slice()), copy(state.signature.as_slice())),
            ),
            None => None,
        }
    }

    /// A manifest and a signature kept beside an installation prove `version`
    /// for `host`.
    pub fn validate_local_material(
        &self,
        checksums: &[u8],
        signature: &[u8],
        version: &str,
        host: &str,
    ) -> (r: Result<(), UpdateFailure>)
        ensures
            outcome(r) == (match archive_for(version@, host@) {
                None => Err(release_failure("unsupported_host"@, "unsupported release host"@)),
                Some(archive) => match key_error(self.key()) {
                    Some(error) => Err(release_failure("invalid_minisign_key"@, error)),
                    None => match signed_digest(self.key(), checksums@, signature@, archive) {
                        Ok(_) => Ok::<(), FailureView>(()),
                        Err(failure) => Err(failure),
                    },
                },
            }),
    {
        let archive = match archive_name(version, host) {
            Some(name) => name,
            None => {
                return Err(
                    UpdateFailure::of_release(
                        "unsupported_host",
                        "unsupported release host".to_owned(),
                    ),
                );
            },
        };
        let trusted = match PinnedMinisignVerifier::new(self.public_key.as_str()) {
            Ok(trusted) => trusted,
            Err(failure) => return Err(failure),
        };
        match trusted.verify_checksums(checksums, signature, archive.as_str()) {
            Ok(_) => Ok(()),
            Err(failure) => Err(failure),
        }
    }
}

/// A copy of `failure`.
fn copy_failure(failure: &UpdateFailure) -> (r: UpdateFailure)
    ensures
        r@ == failure@,
{
    UpdateFailure {
        code: failure.code,
        message: failure.message.clone(),
        installer: failure.installer,
        executable: copy(failure.executable.as_slice()),
        command: match &failure.command {
            Some(command) => Some(command.duplicate()),
            None => None,
        },
        applied: failure.applied,
        changed: failure.changed,
        rollback: failure.rollback.clone(),
        cleanup: failure.cleanup.clone(),
    }
}

/// The release of exactly a version, from a source that only knows the newest.
pub open spec fn exact_from_latest(metadata: MetadataView, version: Seq<char>) -> Result<
    MetadataView,
    FailureView,
> {
    if metadata.version == version {
        Ok(metadata)
    } else {
        Err(
            release_failure(
                "release_version_unavailable"@,
                "release "@ + version + " is unavailable"@,
            ),
        )
    }
}

/// The release of exactly `version`, from a source that only knows the newest.
pub fn exact_release_from_latest(metadata: ReleaseMetadata, version: &str) -> (r: Result<
    ReleaseMetadata,
    UpdateFailure,
>)
    ensures
        outcome(r) == exact_from_latest(metadata@, version@),
{
    if same(metadata.version.as_str(), version) {
        Ok(metadata)
    } else {
        Err(
            UpdateFailure::of_release(
                "release_version_unavailable",
                text3("release ", version, " is unavailable"),
            ),
        )
    }
}

// ---------------------------------------------------------------------------
// Laws
// ---------------------------------------------------------------------------

/// Whatever a lookup or a download fetches lies at an official address, where
/// the known release does.
pub proof fn law_only_official_addresses_are_fetched(
    release: GithubReleaseView,
    host: Seq<char>,
    key: Seq<char>,
    replies: Seq<Result<Seq<u8>, FailureView>>,
)
    ensures
        metadata_step(release, host, key, replies) matches StepView::Fetch(url)
            ==> official_asset(url),
        offer_of(release, host) matches Ok(offer) ==> official_asset(offer.archive.url),
{
}

/// A release is trusted only where its manifest carries the key's signature
/// and gives the digest that the release is then held to.
pub proof fn law_trusted_release_is_signed(
    release: GithubReleaseView,
    host: Seq<char>,
    key: Seq<char>,
    replies: Seq<Result<Seq<u8>, FailureView>>,
)
    requires
        metadata_step(release, host, key, replies) matches StepView::Done(Ok(_)),
    ensures
        replies.len() >= 2 && replies[0] is Ok && replies[1] is Ok,
        crate::outside::verify_error(
            key,
            replies[0]->Ok_0,
            vstd::utf8::decode_utf8(replies[1]->Ok_0),
        ) is None,
        archive_for(
            metadata_step(release, host, key, replies)->Done_0->Ok_0.version,
            host,
        ) is Some,
        signed_digest(
            key,
            replies[0]->Ok_0,
            replies[1]->Ok_0,
            archive_for(
                metadata_step(release, host, key, replies)->Done_0->Ok_0.version,
                host,
            )->0,
        ) == Ok::<Seq<char>, FailureView>(
            metadata_step(release, host, key, replies)->Done_0->Ok_0.archive_sha256,
        ),
{
    let offer = offer_of(release, host)->Ok_0;
    lemma_asset_named(release.assets, archive_for(offer.version, host)->0);
}

proof fn lemma_asset_named(assets: Seq<AssetView>, name: Seq<char>)
    ensures
        asset_named(assets, name) matches Some(asset) ==> asset.name == name,
    decreases assets.len(),
{
    if assets.len() > 0 && assets[0].name != name {
        lemma_asset_named(assets.skip(1), name);
    }
}

} // verus!
