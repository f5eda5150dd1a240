//! Which release is taken, and which installation it is for.
use crate::outside::version_error;
use crate::path::{joined, name_of, renamed, steps, Step};
use crate::text::{begins, holds, utf8};
use crate::update::discover::{
    cargo_owned_at, cargo_place, cellar_from, discover_at, in_cellar, install_root_at,
    marker_proves_at, read_marker_at, resolve_at,
};
use crate::update::io::IoEvent;
use crate::update::laws::{lemma_cargo_owned_reads, lemma_marker_reads, position};
use crate::update::marker::{digest_of, version_like};
use crate::update::model::{FailureView, Installer, MarkerView, MetadataView, PairView};
use crate::update::records::record_present_at;
use crate::update::release::{
    asset_named, download_step, metadata_step, offer_of, AssetView, GithubReleaseView, StateView,
    StepView,
};
use crate::update::trust::lowered;
use vstd::prelude::*;

verus! {

// ---------------------------------------------------------------------------
// The release
// ---------------------------------------------------------------------------

/// The words that stand for a platform in the name of an archive.
pub open spec fn platform_of(host: Seq<char>, platform: Seq<char>, arch: Seq<char>) -> bool {
    ||| host == "aarch64-apple-darwin"@ && platform == "darwin"@ && arch == "arm64"@
    ||| host == "x86_64-apple-darwin"@ && platform == "darwin"@ && arch == "amd64"@
    ||| host == "aarch64-unknown-linux-musl"@ && platform == "linux"@ && arch == "arm64"@
    ||| host == "x86_64-unknown-linux-musl"@ && platform == "linux"@ && arch == "amd64"@
}

/// The name of the archive for `host`.
pub open spec fn archive_named(name: Seq<char>, version: Seq<char>, host: Seq<char>) -> bool {
    exists|platform: Seq<char>, arch: Seq<char>|
        {
            &&& #[trigger] platform_of(host, platform, arch)
            &&& name == "ramiz_"@ + version + "_"@ + platform + "_"@ + arch + ".tar.gz"@
        }
}

/// The address is one that the project's releases are at.
pub open spec fn project_address(url: Seq<char>) -> bool {
    ||| begins(url, "https://github.com/agensfield/ramiz/releases/download/"@)
    ||| begins(url, "https://objects.githubusercontent.com/"@) && holds(
        url,
        "github-production-release-asset"@,
    )
    ||| begins(url, "https://release-assets.githubusercontent.com/"@)
}

/// `asset` is the one asset of the release that has that name, and is at an
/// address of the project's.
pub open spec fn only_asset(
    release: GithubReleaseView,
    asset: AssetView,
    name: Seq<char>,
) -> bool {
    &&& release.assets.contains(asset)
    &&& asset.name == name
    &&& project_address(asset.url)
    &&& forall|k: int|
        0 <= k < release.assets.len() && (#[trigger] release.assets[k]).name == name
            ==> release.assets[k] == asset
}

proof fn lemma_named(assets: Seq<AssetView>, name: Seq<char>)
    ensures
        asset_named(assets, name) matches Some(asset) ==> assets.contains(asset) && asset.name
            == name,
        asset_named(assets, name) is None ==> forall|k: int|
            0 <= k < assets.len() ==> (#[trigger] assets[k]).name != name,
    decreases assets.len(),
{
    if assets.len() > 0 {
        let rest = assets.skip(1);
        if assets[0].name == name {
            assert(assets.contains(assets[0]));
        } else {
            lemma_named(rest, name);
            if let Some(asset) = asset_named(rest, name) {
                let k = choose|k: int| 0 <= k < rest.len() && rest[k] == asset;
                assert(assets[k + 1] == asset);
            } else {
                assert forall|k: int| 0 <= k < assets.len() implies (#[trigger] assets[k]).name
                    != name by {
                    if k > 0 {
                        assert(rest[k - 1] == assets[k]);
                    }
                }
            }
        }
    }
}

/// What is offered of a release is of a stable one, of the version that its tag
/// names, and for the platform: the archive that bears both in its name, with
/// the manifest and its signature, each the only asset of that name and at an
/// address of the project's.
pub proof fn law_offer_is_for_the_platform(release: GithubReleaseView, host: Seq<char>)
    requires
        offer_of(release, host) is Ok,
    ensures
        ({
            let offer = offer_of(release, host)->Ok_0;
            &&& !release.prerelease
            &&& !release.draft
            &&& release.tag_name == "v"@ + offer.version || (release.tag_name == offer.version
                && !begins(release.tag_name, "v"@))
            &&& version_like(offer.version)
            &&& version_error(offer.version) is None
            &&& archive_named(offer.archive.name, offer.version, host)
            &&& only_asset(release, offer.archive, offer.archive.name)
            &&& only_asset(release, offer.checksum, "checksums.txt"@)
            &&& only_asset(release, offer.signature, "checksums.txt.minisig"@)
        }),
{
    reveal_strlit("v");
    let offer = offer_of(release, host)->Ok_0;
    lemma_named(release.assets, offer.archive.name);
    lemma_named(release.assets, crate::update::release::archive_for(offer.version, host)->0);
    lemma_named(release.assets, "checksums.txt"@);
    lemma_named(release.assets, "checksums.txt.minisig"@);
    let tag = release.tag_name;
    if tag.len() > 0 && tag[0] == 'v' {
        assert(tag =~= "v"@ + tag.skip(1));
    } else {
        assert(begins(tag, "v"@) ==> tag.take(1)[0] == 'v');
    }
    let (platform, arch) = crate::update::release::archive_platform(host)->0;
    assert(platform_of(host, platform, arch));
    assert forall|a: int, b: int|
        0 <= a < release.assets.len() && 0 <= b < release.assets.len()
            && (#[trigger] release.assets[a]).name == (#[trigger] release.assets[b]).name implies a
        == b by {
        if a < b {
            assert(release.assets[a].name == release.assets[b].name);
        } else if b < a {
            assert(release.assets[b].name == release.assets[a].name);
        }
    }
}

/// To tell of a release its manifest is fetched first and the signature of the
/// manifest next, both as offered; a failure to fetch is the answer. What is
/// then told is of the project's repository, of the offered version and of the
/// platform, and is verified.
pub proof fn law_release_is_told_as_offered(
    release: GithubReleaseView,
    host: Seq<char>,
    key: Seq<char>,
    replies: Seq<Result<Seq<u8>, FailureView>>,
)
    ensures
        offer_of(release, host) matches Err(failure) ==> metadata_step(
            release,
            host,
            key,
            replies,
        ) == StepView::<MetadataView>::Done(Err(failure)),
        offer_of(release, host) is Ok && replies.len() == 0 ==> metadata_step(
            release,
            host,
            key,
            replies,
        ) == StepView::<MetadataView>::Fetch(offer_of(release, host)->Ok_0.checksum.url),
        offer_of(release, host) is Ok && replies.len() > 0 && replies[0] is Err ==> metadata_step(
            release,
            host,
            key,
            replies,
        ) == StepView::<MetadataView>::Done(Err(replies[0]->Err_0)),
        offer_of(release, host) is Ok && replies.len() == 1 && replies[0] is Ok ==> metadata_step(
            release,
            host,
            key,
            replies,
        ) == StepView::<MetadataView>::Fetch(offer_of(release, host)->Ok_0.signature.url),
        offer_of(release, host) is Ok && replies.len() > 1 && replies[0] is Ok && replies[1] is Err
            ==> metadata_step(release, host, key, replies) == StepView::<MetadataView>::Done(
            Err(replies[1]->Err_0),
        ),
        metadata_step(release, host, key, replies) matches StepView::Done(Ok(metadata)) ==> {
            &&& metadata.repository == "agensfield/ramiz"@
            &&& metadata.version == offer_of(release, host)->Ok_0.version
            &&& metadata.host == host
            &&& metadata.primary_asset == "ramiz"@
            &&& metadata.secondary_asset == "git-ramiz"@
            &&& metadata.signature_verified
        },
{
}

/// Only the archive of the release that was told of is downloaded, and it is
/// unpacked only where its digest is the one on the signed manifest.
pub proof fn law_download_is_held_to_its_digest(
    state: Option<StateView>,
    metadata: MetadataView,
    key: Seq<char>,
    replies: Seq<Result<Seq<u8>, FailureView>>,
)
    ensures
        download_step(state, metadata, key, replies) matches StepView::Fetch(url) ==> {
            &&& state matches Some(known) && url == known.archive.url && archive_named(
                known.archive.name,
                metadata.version,
                metadata.host,
            )
            &&& replies.len() == 0
        },
        download_step(state, metadata, key, replies) matches StepView::Done(Ok(_)) ==> {
            &&& replies.len() > 0
            &&& replies[0] is Ok
            &&& metadata.archive_sha256.len() == 64
            &&& digest_of(replies[0]->Ok_0) == lowered(metadata.archive_sha256)
        },
{
    if let Some((platform, arch)) = crate::update::release::archive_platform(metadata.host) {
        assert(platform_of(metadata.host, platform, arch));
    }
}

// ---------------------------------------------------------------------------
// The installation
// ---------------------------------------------------------------------------

/// The path is below Homebrew's cellar of this program.
pub open spec fn in_homebrew(path: Seq<u8>) -> bool {
    &&& {
        ||| begins(steps(path), steps(utf8("/opt/homebrew/Cellar"@)))
        ||| begins(steps(path), steps(utf8("/usr/local/Cellar"@)))
        ||| begins(steps(path), steps(utf8("/home/linuxbrew/.linuxbrew/Cellar"@)))
    }
    &&& exists|k: int|
        {
            &&& 0 <= k
            &&& k + 1 < steps(path).len()
            &&& #[trigger] steps(path)[k] == Step::Normal(utf8("Cellar"@))
            &&& steps(path)[k + 1] == Step::Normal(utf8("ramiz"@))
        }
}

proof fn lemma_cellar(path: Seq<Step>, k: int)
    requires
        0 <= k,
        cellar_from(path, k),
    ensures
        exists|n: int|
            {
                &&& 0 <= n
                &&& n + 1 < path.len()
                &&& #[trigger] path[n] == Step::Normal(utf8("Cellar"@))
                &&& path[n + 1] == Step::Normal(utf8("ramiz"@))
            },
    decreases path.len() - k,
{
    if k < path.len() {
        if path[k] == Step::Normal(utf8("Cellar"@)) {
            if path[k + 1] != Step::Normal(utf8("ramiz"@)) {
                lemma_cellar(path, k + 2);
            }
        } else {
            lemma_cellar(path, k + 1);
        }
    }
}

/// Where the executable really is, as `event` shows: where its links lead, or
/// where it was said to be if they lead nowhere.
pub open spec fn really_at(event: IoEvent, path: Seq<u8>, place: Seq<u8>) -> bool {
    match event {
        IoEvent::Canonicalize(p, Ok(found)) => p == path && place == found,
        IoEvent::Canonicalize(p, Err(_)) => p == path && place == path,
        _ => false,
    }
}

/// From `k` on the log shows that the marker that is beside the executables is
/// of the project, and proves them: the manifest and its signature are there,
/// and both executables have the digests that it holds.
pub open spec fn marker_proven(
    l: Seq<IoEvent>,
    k: int,
    marker: MarkerView,
    paths: PairView,
) -> bool {
    &&& marker.repository == "agensfield/ramiz"@
    &&& version_like(marker.version)
    &&& l[k] == IoEvent::IsFile(renamed(paths.primary, utf8(".ramiz-checksums.txt"@)), true)
    &&& l[k + 1] == IoEvent::IsFile(
        renamed(paths.primary, utf8(".ramiz-checksums.txt.minisig"@)),
        true,
    )
    &&& l[k + 2] matches IoEvent::ReadFile(p, Ok(bytes)) && p == paths.primary && digest_of(bytes)
        == marker.primary_sha256
    &&& l[k + 3] matches IoEvent::ReadFile(p, Ok(bytes)) && p == paths.secondary && digest_of(
        bytes,
    ) == marker.secondary_sha256
}

/// An installer is found only by proof. Homebrew owns what really lies in its
/// cellar of this program; Cargo, what lies where Cargo installs it and is on
/// Cargo's record; and an installation is a standalone one only where the
/// marker beside it proves both executables.
pub proof fn law_installer_is_found_by_proof(
    l: Seq<IoEvent>,
    i: int,
    paths: PairView,
    host: Seq<char>,
)
    requires
        position(l, i),
        discover_at(l, i, paths, host).1 != -1,
    ensures
        0 <= i < l.len(),
        ({
            let (installer, j) = discover_at(l, i, paths, host);
            exists|place: Seq<u8>|
                {
                    &&& #[trigger] really_at(l[i], paths.primary, place)
                    &&& installer == Installer::Homebrew ==> in_homebrew(place) && j == i + 1
                    &&& installer == Installer::Cargo ==> exists|
                        root: Seq<u8>,
                        expected: Seq<u8>,
                    | #[trigger]
                        cargo_proven(l, i + 1, j, root, expected, paths, place, host)
                    &&& installer == Installer::Standalone ==> exists|marker: MarkerView|
                        #[trigger] marker_read(l, j - 5, paths, marker) && marker_proven(
                            l,
                            j - 4,
                            marker,
                            paths,
                        )
                }
        }),
{
    reveal(discover_at);
    reveal(cargo_owned_at);
    let (place, a) = resolve_at(l, i, paths.primary);
    assert(a != -1) by {
        lemma_cargo_owned_reads(l, a, paths.primary, place, host);
        let (cargo, b) = cargo_owned_at(l, a, paths.primary, place, host);
        let (marker, c) = read_marker_at(l, b, paths.primary);
        if let Some(marker) = marker {
            lemma_marker_reads(l, c, marker, paths);
        }
    }
    assert(really_at(l[i], paths.primary, place));
    if in_cellar(place) {
        lemma_cellar(steps(place), 0);
        assert(in_homebrew(place));
    } else {
        lemma_cargo_owned_reads(l, a, paths.primary, place, host);
        let (cargo, b) = cargo_owned_at(l, a, paths.primary, place, host);
        if cargo {
            let (root, c) = install_root_at(l, a);
            let (expected, d) = resolve_at(l, c, cargo_place(root->0, paths.primary));
            assert(d != -1) by {
                reveal(record_present_at);
                reveal(crate::update::records::read_records_at);
            }
            assert(d == a + 3);
            assert(cargo_proven(l, i + 1, b, root->0, expected, paths, place, host));
        } else {
            let (marker, c) = read_marker_at(l, b, paths.primary);
            if let Some(marker) = marker {
                let (proven, d) = marker_proves_at(l, c, marker, paths);
                if proven {
                    assert(d == c + 4 && c == b + 1);
                    assert(marker_read(l, d - 5, paths, marker));
                    assert(marker_proven(l, d - 4, marker, paths));
                }
            }
        }
    }
}

/// From `k` to `j` the log shows that the executable is where Cargo installs it,
/// in the root that it was told or else in its home, and that the root's
/// record holds it.
pub open spec fn cargo_proven(
    l: Seq<IoEvent>,
    k: int,
    j: int,
    root: Seq<u8>,
    expected: Seq<u8>,
    paths: PairView,
    place: Seq<u8>,
    host: Seq<char>,
) -> bool {
    let name = match name_of(paths.primary) {
        Some(name) => name,
        None => Seq::empty(),
    };
    &&& l[k] matches IoEvent::CargoHome(Some(home)) && {
        ||| l[k + 1] == IoEvent::CargoInstallRoot(Some(root))
        ||| l[k + 1] == IoEvent::CargoInstallRoot(None) && root == home
    }
    &&& really_at(l[k + 2], joined(joined(root, utf8("bin"@)), name), expected)
    &&& steps(place) == steps(expected) || steps(paths.primary) == steps(expected)
    &&& record_present_at(l, k + 3, root, None, host) == (true, j)
}

/// At `k` the marker beside the executables was read, and is `marker`.
pub open spec fn marker_read(
    l: Seq<IoEvent>,
    k: int,
    paths: PairView,
    marker: MarkerView,
) -> bool {
    l[k] matches IoEvent::ReadString(p, Ok(text)) && p == renamed(
        paths.primary,
        utf8(".ramiz-owner.json"@),
    ) && crate::update::marker::marker_of(text) == Some(marker)
}

} // verus!
