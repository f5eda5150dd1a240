//! The executables in a release archive.
use crate::outside::{
    lossy, lossy_text, tar_contents, tar_contents_at, tar_member, tar_member_at, TarMember,
    TarMemberView,
};
use crate::path::{component_views, components, same_path, steps, Component};
use crate::text::{same, text2, text3, utf8, utf8_of, views};
use crate::update::model::{
    bytes_option, text_option, DownloadedRelease, MetadataView, ReleaseMetadata, ReleaseView,
    REPOSITORY,
};
use crate::update::trust::{all_hex, is_hex};
use vstd::prelude::*;

verus! {

/// How large one member may be.
pub const MAX_BINARY_BYTES: u64 = 134217728;

/// How many members an archive may have.
pub const MAX_ARCHIVE_MEMBERS: u64 = 32;

/// How large all members together may be.
pub const MAX_ARCHIVE_BYTES: u64 = 314572800;

/// A path that stays below where it is unpacked: not empty, and made of normal
/// components only.
pub open spec fn contained(path: Seq<u8>) -> bool {
    path.len() > 0 && forall|i: int|
        0 <= i < steps(path).len() ==> (#[trigger] steps(path)[i]) is Normal
}

/// `path` stays below where it is unpacked.
pub fn safe_archive_path(path: &[u8]) -> (r: bool)
    ensures
        r == contained(path@),
{
    if path.len() == 0 {
        return false;
    }
    let all = components(path);
    let ghost shown = component_views(all@);
    for i in 0..all.len()
        invariant
            shown == component_views(all@),
            shown == steps(path@),
            forall|k: int| 0 <= k < i ==> (#[trigger] shown[k]) is Normal,
    {
        assert(shown[i as int] == all@[i as int]@);
        match &all[i] {
            Component::Normal(_) => {},
            _ => {
                assert(!(shown[i as int] is Normal));
                return false;
            },
        }
    }
    true
}

/// The provenance record that an archive carries in `SOURCE.json`.
#[derive(Clone, Debug)]
pub struct ReleaseSource {
    pub repository: String,
    pub version: String,
    pub target: String,
    pub commit: String,
}

/// The model of a [`ReleaseSource`].
#[verifier::ext_equal]
pub struct SourceView {
    pub repository: Seq<char>,
    pub version: Seq<char>,
    pub target: Seq<char>,
    pub commit: Seq<char>,
}

impl View for ReleaseSource {
    type V = SourceView;

    open spec fn view(&self) -> SourceView {
        SourceView {
            repository: self.repository@,
            version: self.version@,
            target: self.target@,
            commit: self.commit@,
        }
    }
}

/// A provenance record is that of a release: it names the official repository,
/// the version, the host and a commit.
pub open spec fn provenance_of(source: SourceView, metadata: MetadataView) -> bool {
    &&& source.repository == "https://github.com/"@ + REPOSITORY@
    &&& source.version == metadata.version
    &&& source.target == metadata.host
    &&& source.commit.len() == 40
    &&& all_hex(source.commit)
}

fn is_provenance(source: &ReleaseSource, metadata: &ReleaseMetadata) -> (r: bool)
    ensures
        r == provenance_of(source@, metadata@),
{
    let repository = text2("https://github.com/", REPOSITORY);
    same(source.repository.as_str(), repository.as_str()) && same(
        source.version.as_str(),
        metadata.version.as_str(),
    ) && same(source.target.as_str(), metadata.host.as_str()) && is_hex(source.commit.as_str(), 40)
}

/// What an archive in order holds: the executables, where they are there, and
/// the bytes of the provenance record.
#[derive(Clone, Debug)]
pub struct Unpacked {
    pub primary: Option<Vec<u8>>,
    pub secondary: Option<Vec<u8>>,
    pub source: Vec<u8>,
}

/// The model of an [`Unpacked`].
#[verifier::ext_equal]
pub struct UnpackedView {
    pub primary: Option<Seq<u8>>,
    pub secondary: Option<Seq<u8>>,
    pub source: Seq<u8>,
}

impl View for Unpacked {
    type V = UnpackedView;

    open spec fn view(&self) -> UnpackedView {
        UnpackedView {
            primary: bytes_option(self.primary),
            secondary: bytes_option(self.secondary),
            source: self.source@,
        }
    }
}

/// What was found in an archive so far.
#[verifier::ext_equal]
pub struct FoundView {
    pub seen: Seq<Seq<u8>>,
    pub total: int,
    pub primary: Option<Seq<u8>>,
    pub secondary: Option<Seq<u8>>,
    pub source: Option<Seq<u8>>,
}

/// A path that was seen before.
pub open spec fn seen_before(seen: Seq<Seq<u8>>, path: Seq<u8>) -> bool {
    exists|i: int| 0 <= i < seen.len() && steps(#[trigger] seen[i]) == steps(path)
}

/// What is wrong with member number `count` of an archive, if anything.
pub open spec fn member_problem(
    found: FoundView,
    count: int,
    size: u64,
    path: Seq<u8>,
    regular: bool,
) -> Option<Seq<char>> {
    if found.total + size > u64::MAX {
        Some("archive size accounting overflowed"@)
    } else if count > MAX_ARCHIVE_MEMBERS || found.total + size > MAX_ARCHIVE_BYTES {
        Some("archive exceeds member or decompressed size limits"@)
    } else if !contained(path) {
        Some("archive contains unsafe path "@ + lossy_text(path))
    } else if seen_before(found.seen, path) {
        Some("archive contains duplicate path "@ + lossy_text(path))
    } else if !regular {
        Some("archive contains non-file member "@ + lossy_text(path))
    } else if size > MAX_BINARY_BYTES {
        Some("archive member "@ + lossy_text(path) + " is too large"@)
    } else {
        None
    }
}

/// What is found once a member that is in order was looked at.
pub open spec fn found_member(
    found: FoundView,
    archive: Seq<u8>,
    index: int,
    size: u64,
    path: Seq<u8>,
    metadata: MetadataView,
) -> Result<FoundView, Seq<char>> {
    let next = FoundView { seen: found.seen.push(path), total: found.total + size, ..found };
    let wanted = steps(path) == steps(utf8(metadata.primary_asset)) || steps(path) == steps(
        utf8(metadata.secondary_asset),
    ) || steps(path) == steps(utf8("SOURCE.json"@));
    if !wanted {
        Ok(next)
    } else {
        match tar_contents_at(archive, index) {
            Err(message) => Err(message),
            Ok(bytes) => Ok(
                if steps(path) == steps(utf8(metadata.primary_asset)) {
                    FoundView { primary: Some(bytes), ..next }
                } else if steps(path) == steps(utf8(metadata.secondary_asset)) {
                    FoundView { secondary: Some(bytes), ..next }
                } else {
                    FoundView { source: Some(bytes), ..next }
                },
            ),
        }
    }
}

/// What was found in a whole archive, where the provenance record is in it.
pub open spec fn found_all(found: FoundView) -> Result<UnpackedView, Seq<char>> {
    match found.source {
        None => Err("archive does not contain SOURCE.json"@),
        Some(source) => Ok(
            UnpackedView { primary: found.primary, secondary: found.secondary, source },
        ),
    }
}

/// What an archive holds, from the member at `k` on.
pub open spec fn unpack_from(
    archive: Seq<u8>,
    k: int,
    found: FoundView,
    metadata: MetadataView,
) -> Result<UnpackedView, Seq<char>>
    decreases MAX_ARCHIVE_MEMBERS - k,
{
    match tar_member_at(archive, k) {
        TarMemberView::End => found_all(found),
        TarMemberView::Unreadable(message) => Err(message),
        TarMemberView::Found(size, path, regular) => match member_problem(
            found,
            k + 1,
            size,
            path,
            regular,
        ) {
            Some(message) => Err(message),
            None => match found_member(found, archive, k, size, path, metadata) {
                Err(message) => Err(message),
                Ok(next) => if k < 0 || k >= MAX_ARCHIVE_MEMBERS {
                    Err("archive exceeds member or decompressed size limits"@)
                } else {
                    unpack_from(archive, k + 1, next, metadata)
                },
            },
        },
    }
}

/// Nothing found yet.
pub open spec fn nothing_found() -> FoundView {
    FoundView { seen: Seq::empty(), total: 0, primary: None, secondary: None, source: None }
}

/// What an archive holds.
pub open spec fn unpacked_in(archive: Seq<u8>, metadata: MetadataView) -> Result<
    UnpackedView,
    Seq<char>,
> {
    unpack_from(archive, 0, nothing_found(), metadata)
}

/// The pair in an unpacked archive, given what its provenance record says, or
/// why that cannot be read.
pub open spec fn pair_in(
    unpacked: UnpackedView,
    source: Result<SourceView, Seq<char>>,
    metadata: MetadataView,
) -> Result<ReleaseView, Seq<char>> {
    match source {
        Err(message) => Err(message),
        Ok(source) => if !provenance_of(source, metadata) {
            Err("archive SOURCE.json provenance does not match the release"@)
        } else {
            match (unpacked.primary, unpacked.secondary) {
                (Some(primary), Some(secondary)) => Ok(ReleaseView { primary, secondary }),
                _ => Err("archive does not contain both requested binaries"@),
            }
        },
    }
}

/// The view of an answer, or of the message in its place.
pub open spec fn told<T: View>(r: Result<T, String>) -> Result<T::V, Seq<char>> {
    match r {
        Ok(value) => Ok(value@),
        Err(message) => Err(message@),
    }
}

/// What was found in an archive so far.
struct Found {
    seen: Vec<Vec<u8>>,
    total: u64,
    primary: Option<Vec<u8>>,
    secondary: Option<Vec<u8>>,
    source: Option<Vec<u8>>,
}

impl Found {
    spec fn shown(&self) -> FoundView {
        FoundView {
            seen: views(self.seen@),
            total: self.total as int,
            primary: bytes_option(self.primary),
            secondary: bytes_option(self.secondary),
            source: bytes_option(self.source),
        }
    }
}

fn was_seen(seen: &Vec<Vec<u8>>, path: &[u8]) -> (r: bool)
    ensures
        r == seen_before(views(seen@), path@),
{
    let ghost shown = views(seen@);
    for i in 0..seen.len()
        invariant
            shown == views(seen@),
            forall|k: int| 0 <= k < i ==> steps(#[trigger] shown[k]) != steps(path@),
    {
        assert(shown[i as int] == seen@[i as int]@);
        if same_path(seen[i].as_slice(), path) {
            return true;
        }
    }
    false
}

fn check_member(found: &Found, count: u64, size: u64, path: &[u8], regular: bool) -> (r: Option<
    String,
>)
    ensures
        text_option(r) == member_problem(
            found.shown(),
            count as int,
            size,
            path@,
            regular,
        ),
{
    let total = match found.total.checked_add(size) {
        Some(total) => total,
        None => return Some("archive size accounting overflowed".to_owned()),
    };
    if count > MAX_ARCHIVE_MEMBERS || total > MAX_ARCHIVE_BYTES {
        Some("archive exceeds member or decompressed size limits".to_owned())
    } else if !safe_archive_path(path) {
        Some(text2("archive contains unsafe path ", lossy(path).as_str()))
    } else if was_seen(&found.seen, path) {
        Some(text2("archive contains duplicate path ", lossy(path).as_str()))
    } else if !regular {
        Some(text2("archive contains non-file member ", lossy(path).as_str()))
    } else if size > MAX_BINARY_BYTES {
        Some(text3("archive member ", lossy(path).as_str(), " is too large"))
    } else {
        None
    }
}

/// What `archive` holds of the files that `metadata` names, where every member
/// is in order and a provenance record is among them.
pub fn unpack_archive(archive: &[u8], metadata: &ReleaseMetadata) -> (r: Result<Unpacked, String>)
    ensures
        told(r) == unpacked_in(archive@, metadata@),
{
    let mut found = Found {
        seen: Vec::new(),
        total: 0,
        primary: None,
        secondary: None,
        source: None,
    };
    assert(found.shown() =~= nothing_found());
    let mut k: usize = 0;
    loop
        invariant_except_break
            k <= MAX_ARCHIVE_MEMBERS,
            unpacked_in(archive@, metadata@) == unpack_from(
                archive@,
                k as int,
                found.shown(),
                metadata@,
            ),
        ensures
            unpacked_in(archive@, metadata@) == found_all(found.shown()),
        decreases MAX_ARCHIVE_MEMBERS - k,
    {
        match tar_member(archive, k) {
            TarMember::End => {
                break;
            },
            TarMember::Unreadable(message) => {
                return Err(message);
            },
            TarMember::Found(size, path, regular) => {
                if let Some(message) = check_member(
                    &found,
                    k as u64 + 1,
                    size,
                    path.as_slice(),
                    regular,
                ) {
                    return Err(message);
                }
                let ghost before = found.shown();
                let is_primary = same_path(
                    path.as_slice(),
                    utf8_of(metadata.primary_asset.as_str()),
                );
                let is_secondary = same_path(
                    path.as_slice(),
                    utf8_of(metadata.secondary_asset.as_str()),
                );
                let is_source = same_path(path.as_slice(), utf8_of("SOURCE.json"));
                let ghost name = path@;
                found.seen.push(path);
                assert(views(found.seen@) =~= before.seen.push(name));
                found.total = found.total + size;
                if is_primary || is_secondary || is_source {
                    let bytes = match tar_contents(archive, k) {
                        Ok(bytes) => bytes,
                        Err(message) => {
                            return Err(message);
                        },
                    };
                    if is_primary {
                        found.primary = Some(bytes);
                    } else if is_secondary {
                        found.secondary = Some(bytes);
                    } else {
                        found.source = Some(bytes);
                    }
                }
                assert(found_member(before, archive@, k as int, size, name, metadata@) == Ok::<
                    FoundView,
                    Seq<char>,
                >(found.shown()));
                k = k + 1;
            },
        }
    }
    match found.source {
        Some(source) => Ok(
            Unpacked { primary: found.primary, secondary: found.secondary, source },
        ),
        None => Err("archive does not contain SOURCE.json".to_owned()),
    }
}

/// The pair in an unpacked archive: both executables, where the provenance
/// record, which says `source`, is that of the release. Where the record
/// cannot be read, `source` says why.
pub fn extract_pair(
    unpacked: Unpacked,
    source: Result<ReleaseSource, String>,
    metadata: &ReleaseMetadata,
) -> (r: Result<DownloadedRelease, String>)
    ensures
        told(r) == pair_in(unpacked@, told(source), metadata@),
{
    match source {
        Err(message) => return Err(message),
        Ok(source) => {
            if !is_provenance(&source, metadata) {
                return Err("archive SOURCE.json provenance does not match the release".to_owned());
            }
        },
    }
    match (unpacked.primary, unpacked.secondary) {
        (Some(primary), Some(secondary)) => Ok(DownloadedRelease { primary, secondary }),
        _ => Err("archive does not contain both requested binaries".to_owned()),
    }
}

// ---------------------------------------------------------------------------
// What an extracted pair shows
// ---------------------------------------------------------------------------

/// Member `k` of an archive is a regular file at a contained path.
pub open spec fn member_in_order(archive: Seq<u8>, k: int) -> bool {
    tar_member_at(archive, k) matches TarMemberView::Found(size, path, regular) && regular
        && contained(path) && size <= MAX_BINARY_BYTES
}

/// `bytes` are the contents of a member of an archive at `path`.
pub open spec fn comes_from(archive: Seq<u8>, count: int, path: Seq<u8>, bytes: Seq<u8>) -> bool {
    exists|k: int| #[trigger] is_member(archive, count, k, path, bytes)
}

/// The member at `k`, one of the first `count`, has `path` and holds `bytes`.
pub open spec fn is_member(
    archive: Seq<u8>,
    count: int,
    k: int,
    path: Seq<u8>,
    bytes: Seq<u8>,
) -> bool {
    &&& 0 <= k < count
    &&& tar_member_at(archive, k) matches TarMemberView::Found(_, name, _) && steps(name) == steps(
        path,
    )
    &&& tar_contents_at(archive, k) == Ok::<Seq<u8>, Seq<char>>(bytes)
}

/// An archive gives a pair only where all of its members, at most as many as
/// are allowed, are regular files of bounded size at contained paths; each
/// executable is the contents of a member at the path that the release names;
/// the provenance record is that of a member too, and what it says is that of
/// the release.
pub proof fn law_extracted_pair_is_in_order(
    archive: Seq<u8>,
    source: Result<SourceView, Seq<char>>,
    metadata: MetadataView,
)
    requires
        unpacked_in(archive, metadata) is Ok,
        pair_in(unpacked_in(archive, metadata)->Ok_0, source, metadata) is Ok,
    ensures
        source is Ok,
        provenance_of(source->Ok_0, metadata),
        exists|count: int|
            #![trigger tar_member_at(archive, count)]
            {
                &&& 0 <= count <= MAX_ARCHIVE_MEMBERS
                &&& tar_member_at(archive, count) is End
                &&& forall|k: int| 0 <= k < count ==> #[trigger] member_in_order(archive, k)
                &&& holds_found(archive, count, metadata, unpacked_in(archive, metadata)->Ok_0)
            },
        ({
            let unpacked = unpacked_in(archive, metadata)->Ok_0;
            let pair = pair_in(unpacked, source, metadata)->Ok_0;
            &&& unpacked.primary == Some(pair.primary)
            &&& unpacked.secondary == Some(pair.secondary)
        }),
{
    let count = lemma_unpack_from(archive, 0, nothing_found(), metadata);
    assert(tar_member_at(archive, count) is End);
}

/// What was unpacked are the contents of members, among the first `count`, at
/// the paths that the release names.
pub open spec fn holds_found(
    archive: Seq<u8>,
    count: int,
    metadata: MetadataView,
    unpacked: UnpackedView,
) -> bool {
    &&& unpacked.primary is Some ==> comes_from(
        archive,
        count,
        utf8(metadata.primary_asset),
        unpacked.primary->0,
    )
    &&& unpacked.secondary is Some ==> comes_from(
        archive,
        count,
        utf8(metadata.secondary_asset),
        unpacked.secondary->0,
    )
    &&& comes_from(archive, count, utf8("SOURCE.json"@), unpacked.source)
}

/// The same of what was found so far.
spec fn finds(archive: Seq<u8>, count: int, metadata: MetadataView, found: FoundView) -> bool {
    &&& found.primary is Some ==> comes_from(
        archive,
        count,
        utf8(metadata.primary_asset),
        found.primary->0,
    )
    &&& found.secondary is Some ==> comes_from(
        archive,
        count,
        utf8(metadata.secondary_asset),
        found.secondary->0,
    )
    &&& found.source is Some ==> comes_from(
        archive,
        count,
        utf8("SOURCE.json"@),
        found.source->0,
    )
}

proof fn lemma_unpack_from(
    archive: Seq<u8>,
    k: int,
    found: FoundView,
    metadata: MetadataView,
) -> (count: int)
    requires
        0 <= k <= MAX_ARCHIVE_MEMBERS,
        unpack_from(archive, k, found, metadata) is Ok,
        forall|j: int| 0 <= j < k ==> #[trigger] member_in_order(archive, j),
        finds(archive, k, metadata, found),
    ensures
        k <= count <= MAX_ARCHIVE_MEMBERS,
        tar_member_at(archive, count) is End,
        forall|j: int| 0 <= j < count ==> #[trigger] member_in_order(archive, j),
        holds_found(archive, count, metadata, unpack_from(archive, k, found, metadata)->Ok_0),
    decreases MAX_ARCHIVE_MEMBERS - k,
{
    match tar_member_at(archive, k) {
        TarMemberView::Found(size, path, regular) => {
            let next = found_member(found, archive, k, size, path, metadata)->Ok_0;
            assert(member_in_order(archive, k));
            lemma_still_found(archive, k, metadata, found, next, size, path, regular);
            lemma_unpack_from(archive, k + 1, next, metadata)
        },
        _ => k,
    }
}

proof fn lemma_comes_from(archive: Seq<u8>, k: int, path: Seq<u8>, bytes: Seq<u8>)
    requires
        comes_from(archive, k, path, bytes),
    ensures
        comes_from(archive, k + 1, path, bytes),
{
    let j = choose|j: int| #[trigger] is_member(archive, k, j, path, bytes);
    assert(is_member(archive, k + 1, j, path, bytes));
}

proof fn lemma_still_found(
    archive: Seq<u8>,
    k: int,
    metadata: MetadataView,
    found: FoundView,
    next: FoundView,
    size: u64,
    path: Seq<u8>,
    regular: bool,
)
    requires
        0 <= k,
        tar_member_at(archive, k) == TarMemberView::Found(size, path, regular),
        found_member(found, archive, k, size, path, metadata) == Ok::<FoundView, Seq<char>>(next),
        finds(archive, k, metadata, found),
    ensures
        finds(archive, k + 1, metadata, next),
{
    let (first, second, record) = (
        utf8(metadata.primary_asset),
        utf8(metadata.secondary_asset),
        utf8("SOURCE.json"@),
    );
    if steps(path) == steps(first) {
        assert(is_member(archive, k + 1, k, first, next.primary->0));
    } else if steps(path) == steps(second) {
        assert(is_member(archive, k + 1, k, second, next.secondary->0));
    } else if steps(path) == steps(record) {
        assert(is_member(archive, k + 1, k, record, next.source->0));
    }
    if found.primary is Some {
        lemma_comes_from(archive, k, first, found.primary->0);
    }
    if found.secondary is Some {
        lemma_comes_from(archive, k, second, found.secondary->0);
    }
    if found.source is Some {
        lemma_comes_from(archive, k, record, found.source->0);
    }
}

} // verus!
