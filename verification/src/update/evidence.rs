//! What Cargo's records have to show before Cargo is taken for the owner.
use crate::json::{alike, document_of, member_of, node_of, sound, stream_of, NodeView, DEPTH};
use crate::outside::requirement_meets;
use crate::path::joined;
use crate::text::{begins, holds, utf8};
use crate::update::cargo::{restore_backup_at, restore_binary_at, shared_records_at, BackupView};
use crate::update::io::IoEvent;
use crate::update::laws::position;
use crate::update::model::IoErrorKind;
use crate::update::records::{
    about_ramiz, bins_ok, compatible, entry_ok, from_registry, has_text, json_text,
    lemma_part_shows, legacy_weight, linux_build, member_text, names_ramiz, names_version,
    other_documents, published, ramiz_documents, ramiz_key, record_present_at, repeated_key,
    repeats_ramiz, shows_version, standing, stream_entry_ok, stream_weight, Weight,
};
use vstd::prelude::*;
use vstd::utf8::{decode_utf8, valid_utf8};

verus! {

// ---------------------------------------------------------------------------
// What a record says
// ---------------------------------------------------------------------------

/// `raw` is the string `text`.
pub open spec fn says(raw: Seq<char>, text: Seq<char>) -> bool {
    node_of(raw) == Some(NodeView::Text(text))
}

/// What the object `raw` holds under `key`.
pub open spec fn under(raw: Seq<char>, key: Seq<char>) -> Option<Seq<char>> {
    match node_of(raw) {
        Some(NodeView::Object(members)) => member_of(members, key),
        _ => None,
    }
}

/// The object `raw` holds the string `text` under `key`.
pub open spec fn tells(raw: Seq<char>, key: Seq<char>, text: Seq<char>) -> bool {
    match under(raw, key) {
        Some(value) => says(value, text),
        None => false,
    }
}

/// `raw` is an array with the string `text` in it.
pub open spec fn counts(raw: Seq<char>, text: Seq<char>) -> bool {
    match node_of(raw) {
        Some(NodeView::Array(items)) => exists|i: int|
            0 <= i < items.len() && says(#[trigger] items[i], text),
        _ => false,
    }
}

/// The object `raw` counts both executables among its `bins`.
pub open spec fn counts_both(raw: Seq<char>) -> bool {
    match under(raw, "bins"@) {
        Some(bins) => counts(bins, "ramiz"@) && counts(bins, "git-ramiz"@),
        None => false,
    }
}

/// `key` names the release `version` of the package, as one that neither a
/// repository nor a directory nor a private registry gave.
pub open spec fn release_key(key: Seq<char>, version: Seq<char>) -> bool {
    &&& begins(key, "ramiz "@ + version + " ("@) || key == "ramiz "@ + version
    &&& holds(key, " ("@)
    &&& !holds(key, "git+"@)
    &&& !holds(key, "path+"@)
    &&& !holds(key, "private"@)
}

/// `value` tells of an installation of both executables, and of no source but
/// the public index.
pub open spec fn public_install(value: Seq<char>) -> bool {
    &&& counts_both(value)
    &&& forall|text: Seq<char>| #[trigger]
        tells(value, "source"@, text) ==> text.len() == 0 || text
            == "registry+https://github.com/rust-lang/crates.io-index"@
}

/// Somewhere in `raw` an object holds `value` under `key`.
pub open spec fn inside(raw: Seq<char>, key: Seq<char>, value: Seq<char>, depth: nat) -> bool
    decreases depth,
{
    depth > 0 && match node_of(raw) {
        Some(NodeView::Object(members)) => exists|i: int|
            0 <= i < members.len() && ((#[trigger] members[i]) == (key, value) || inside(
                members[i].1,
                key,
                value,
                (depth - 1) as nat,
            )),
        Some(NodeView::Array(items)) => exists|i: int|
            0 <= i < items.len() && inside(#[trigger] items[i], key, value, (depth - 1) as nat),
        _ => false,
    }
}

/// The document `bytes` holds an installation of the release `version`.
pub open spec fn install_shown(bytes: Seq<u8>, version: Seq<char>) -> bool {
    &&& valid_utf8(bytes)
    &&& document_of(decode_utf8(bytes)) matches Some(raw) && exists|
        key: Seq<char>,
        value: Seq<char>,
    | #[trigger]
        inside(raw, key, value, DEPTH as nat) && release_key(key, version) && public_install(value)
}

/// `target` is the platform `host`, or both are builds for Linux on the same
/// processor.
pub open spec fn runs_on(target: Seq<char>, host: Seq<char>) -> bool {
    ||| target == host
    ||| exists|arch: Seq<char>| #[trigger] of_linux(arch, target) && of_linux(arch, host)
}

/// `triple` is a build for Linux on the processor `arch`.
pub open spec fn of_linux(arch: Seq<char>, triple: Seq<char>) -> bool {
    triple == arch + "-unknown-linux-gnu"@ || triple == arch + "-unknown-linux-musl"@
}

/// `raw` is a record of `cargo-binstall` of the release `version` for `host`.
pub open spec fn stream_record(raw: Seq<char>, version: Seq<char>, host: Seq<char>) -> bool {
    &&& tells(raw, "name"@, "ramiz"@)
    &&& tells(raw, "current_version"@, version)
    &&& exists|requirement: Seq<char>| #[trigger]
        tells(raw, "version_req"@, requirement) && requirement_meets(requirement, version)
    &&& exists|target: Seq<char>| #[trigger] tells(raw, "target"@, target) && runs_on(target, host)
    &&& under(raw, "source"@) matches Some(source) && tells(source, "source_type"@, "Registry"@)
        && tells(source, "url"@, "https://github.com/rust-lang/crates.io-index"@)
    &&& counts_both(raw)
}

/// The one document about the package is a record of the release `version`.
pub open spec fn stream_shown(bytes: Seq<u8>, version: Seq<char>, host: Seq<char>) -> bool {
    &&& valid_utf8(bytes)
    &&& stream_of(decode_utf8(bytes)) matches Some(documents) && exists|i: int|
        0 <= i < documents.len() && #[trigger] stream_record(documents[i], version, host)
            && alone(documents, i)
}

/// No document but the one at `i` is about the package.
pub open spec fn alone(documents: Seq<Seq<char>>, i: int) -> bool {
    forall|j: int|
        0 <= j < documents.len() && j != i ==> !tells(#[trigger] documents[j], "name"@, "ramiz"@)
}

// ---------------------------------------------------------------------------
// The laws
// ---------------------------------------------------------------------------

/// A file was asked for and is not there.
pub open spec fn absent(e: IoEvent, path: Seq<u8>) -> bool {
    e matches IoEvent::ReadFile(p, Err(error)) && p == path && error.kind == IoErrorKind::NotFound
}

/// Cargo is taken for the owner of a version only where one of its JSON records
/// below the root shows an installation of that very release from the public
/// index, with both executables.
pub proof fn law_cargo_records_show_the_release(
    l: Seq<IoEvent>,
    i: int,
    root: Seq<u8>,
    version: Seq<char>,
    host: Seq<char>,
)
    requires
        record_present_at(l, i, root, Some(version), host).0,
        record_present_at(l, i, root, Some(version), host).1 != -1,
    ensures
        0 <= i,
        i + 2 < l.len(),
        l[i] matches IoEvent::ReadFile(path, _) && path == joined(root, utf8(".crates2.json"@)),
        l[i + 1] matches IoEvent::ReadFile(path, _) && path == joined(root, utf8(".crates.toml"@)),
        l[i + 2] matches IoEvent::ReadFile(path, _) && path == joined(
            root,
            utf8("binstall/crates-v1.json"@),
        ),
        ({
            ||| l[i] matches IoEvent::ReadFile(_, Ok(bytes)) && install_shown(bytes, version)
            ||| l[i + 2] matches IoEvent::ReadFile(_, Ok(bytes)) && stream_shown(
                bytes,
                version,
                host,
            )
        }),
{
    reveal(record_present_at);
    if let IoEvent::ReadFile(_, Ok(bytes)) = l[i] {
        if legacy_weight(bytes, Some(version)) == Weight::Proof {
            lemma_install_shown(bytes, version);
        }
    }
    if let IoEvent::ReadFile(_, Ok(bytes)) = l[i + 2] {
        if stream_weight(bytes, Some(version), host) == Weight::Proof {
            lemma_stream_shown(bytes, version, host);
        }
    }
}

/// A record of `cargo-binstall` is believed where no other record is there.
pub proof fn law_binstall_record_is_believed(
    l: Seq<IoEvent>,
    i: int,
    root: Seq<u8>,
    version: Seq<char>,
    host: Seq<char>,
    bytes: Seq<u8>,
)
    requires
        0 <= i,
        i + 2 < l.len(),
        absent(l[i], joined(root, utf8(".crates2.json"@))),
        absent(l[i + 1], joined(root, utf8(".crates.toml"@))),
        l[i + 2] == IoEvent::ReadFile(joined(root, utf8("binstall/crates-v1.json"@)), Ok(bytes)),
        stream_shown(bytes, version, host),
        forall|j: int|
            0 <= j < stream_of(decode_utf8(bytes))->Some_0.len() ==> sound(
                #[trigger] stream_of(decode_utf8(bytes))->Some_0[j],
                127,
            ),
    ensures
        record_present_at(l, i, root, Some(version), host) == (true, i + 3),
{
    reveal(record_present_at);
    let documents = stream_of(decode_utf8(bytes))->Some_0;
    let k = choose|k: int|
        0 <= k < documents.len() && #[trigger] stream_record(documents[k], version, host) && alone(
            documents,
            k,
        );
    lemma_only_back(documents, k);
    lemma_record_back(documents[k], version, host);
}

/// A record of Cargo is believed where no other record is there: an object with
/// one member, which holds the installed packages, the only one of which is the
/// release from the public index with both executables.
pub proof fn law_install_record_is_believed(
    l: Seq<IoEvent>,
    i: int,
    root: Seq<u8>,
    version: Seq<char>,
    host: Seq<char>,
    bytes: Seq<u8>,
    raw: Seq<char>,
    title: Seq<char>,
    installs: Seq<char>,
    key: Seq<char>,
    value: Seq<char>,
)
    requires
        0 <= i,
        i + 2 < l.len(),
        l[i] == IoEvent::ReadFile(joined(root, utf8(".crates2.json"@)), Ok(bytes)),
        absent(l[i + 1], joined(root, utf8(".crates.toml"@))),
        absent(l[i + 2], joined(root, utf8("binstall/crates-v1.json"@))),
        valid_utf8(bytes),
        document_of(decode_utf8(bytes)) == Some(raw),
        sound(raw, 127),
        node_of(raw) == Some(NodeView::Object(seq![(title, installs)])),
        !begins(title, "ramiz "@),
        node_of(installs) == Some(NodeView::Object(seq![(key, value)])),
        release_key(key, version),
        node_of(value) matches Some(NodeView::Object(_)),
        public_install(value),
    ensures
        record_present_at(l, i, root, Some(version), host) == (true, i + 3),
{
    reveal(record_present_at);
    let top = seq![(title, installs)];
    let inner = seq![(key, value)];
    assert(top[0] == (title, installs));
    assert(inner[0] == (key, value));
    let v = Some(version);
    lemma_key_begins(key, version);
    assert(!names_version(title, v)) by {
        if names_version(title, v) {
            lemma_names_begins(title, version);
        }
    }
    lemma_public_back(value);
    assert(standing(top, 0) && standing(inner, 0));
    lemma_part_shows(installs, v, 126, 0);
    lemma_part_shows(raw, v, 127, 0);
    assert(names_ramiz(installs, 126)) by {
        assert(ramiz_key(inner[0].0));
    }
    assert(names_ramiz(raw, 127));
    assert(!repeated_key(top) && !repeated_key(inner));
    assert(!repeats_ramiz(installs, 126));
    assert(!repeats_ramiz(raw, 127));
}

// ---------------------------------------------------------------------------
// Other packages
// ---------------------------------------------------------------------------

/// What the document `raw` records of the package `key`.
pub open spec fn package_of(raw: Seq<char>, key: Seq<char>) -> Option<Seq<char>> {
    match under(raw, "installs"@) {
        Some(installs) => under(installs, key),
        None => None,
    }
}

/// Two values are both there or both not, and say the same of each field.
pub open spec fn same_record(a: Option<Seq<char>>, b: Option<Seq<char>>) -> bool {
    match (a, b) {
        (None, None) => true,
        (Some(a), Some(b)) => forall|field: Seq<char>, text: Seq<char>|
            !begins(field, "ramiz "@) ==> #[trigger] tells(a, field, text) == #[trigger] tells(
                b,
                field,
                text,
            ),
        _ => false,
    }
}

/// Both documents record the same of every package but this one.
pub open spec fn same_packages(before: Seq<u8>, now: Seq<u8>) -> bool {
    &&& valid_utf8(before)
    &&& valid_utf8(now)
    &&& document_of(decode_utf8(before)) is Some
    &&& document_of(decode_utf8(now)) is Some
    &&& forall|key: Seq<char>|
        !begins(key, "ramiz "@) ==> same_record(
            #[trigger] package_of(document_of(decode_utf8(before))->Some_0, key),
            package_of(document_of(decode_utf8(now))->Some_0, key),
        )
}

/// The documents of a stream that are not about this package.
pub open spec fn others_of(bytes: Seq<u8>) -> Seq<Seq<char>> {
    stream_of(decode_utf8(bytes))->Some_0.filter(
        |document: Seq<char>| !tells(document, "name"@, "ramiz"@),
    )
}

/// Both streams hold the same documents of other packages.
pub open spec fn same_stream(before: Seq<u8>, now: Seq<u8>) -> bool {
    &&& valid_utf8(before)
    &&& valid_utf8(now)
    &&& stream_of(decode_utf8(before)) is Some
    &&& stream_of(decode_utf8(now)) is Some
    &&& others_of(before).len() == others_of(now).len()
    &&& forall|i: int|
        0 <= i < others_of(before).len() ==> same_record(
            Some(#[trigger] others_of(before)[i]),
            Some(others_of(now)[i]),
        )
}

/// At `k` a record was read again, and what it held before, where it was there
/// both times, tells the same of every other package.
pub open spec fn looked_again(
    l: Seq<IoEvent>,
    k: int,
    root: Seq<u8>,
    legacy: Option<Seq<u8>>,
    stream: Option<Seq<u8>>,
) -> bool {
    &&& l[k] matches IoEvent::ReadFile(path, r) && path == joined(root, utf8(".crates2.json"@))
        && match (legacy, r) {
        (Some(before), Ok(now)) => same_packages(before, now),
        _ => true,
    }
    &&& l[k + 1] matches IoEvent::ReadFile(path, r) && path == joined(
        root,
        utf8("binstall/crates-v1.json"@),
    ) && match (stream, r) {
        (Some(before), Ok(now)) => same_stream(before, now),
        _ => true,
    }
}

/// Cargo's records are put back only after they were read again and told the
/// same of every other package as before: no change to another package is lost.
pub proof fn law_restored_records_lose_no_package(l: Seq<IoEvent>, i: int, backup: BackupView)
    requires
        position(l, i),
        restore_backup_at(l, i, backup).0 is Ok,
        restore_backup_at(l, i, backup).1 != -1,
    ensures
        exists|k: int|
            i <= k < l.len() && #[trigger] looked_again(
                l,
                k,
                backup.root,
                backup.records.legacy,
                backup.records.stream,
            ),
{
    reveal(restore_backup_at);
    let (r, a) = restore_binary_at(l, i, backup.paths.primary, backup.primary);
    let (s, b) = restore_binary_at(l, a, backup.paths.secondary, backup.secondary);
    let (now, c) = shared_records_at(l, b, backup.root);
    assert(c != -1);
    assert(0 <= i <= b && c == b + 2);
    if let (Some(before), IoEvent::ReadFile(_, Ok(now))) = (backup.records.legacy, l[b]) {
        let x = document_of(decode_utf8(before))->Some_0;
        let y = document_of(decode_utf8(now))->Some_0;
        assert forall|key: Seq<char>| !begins(key, "ramiz "@) implies same_record(
            #[trigger] package_of(x, key),
            package_of(y, key),
        ) by {
            lemma_same_package(x, y, key);
        }
        assert(same_packages(before, now));
    }
    if let (Some(before), IoEvent::ReadFile(_, Ok(now))) = (backup.records.stream, l[b + 1]) {
        let x = stream_of(decode_utf8(before))->Some_0;
        let y = stream_of(decode_utf8(now))->Some_0;
        lemma_others(x);
        lemma_others(y);
        assert forall|k: int| 0 <= k < others_of(before).len() implies same_record(
            Some(#[trigger] others_of(before)[k]),
            Some(others_of(now)[k]),
        ) by {
            assert(alike(other_documents(x)[k], other_documents(y)[k], "ramiz "@, DEPTH as nat));
            lemma_same_record(other_documents(x)[k], other_documents(y)[k], DEPTH as nat);
        }
        assert(same_stream(before, now));
    }
    assert(looked_again(l, b, backup.root, backup.records.legacy, backup.records.stream));
}

proof fn lemma_others(documents: Seq<Seq<char>>)
    ensures
        other_documents(documents) == documents.filter(
            |document: Seq<char>| !tells(document, "name"@, "ramiz"@),
        ),
    decreases documents.len(),
{
    reveal(Seq::filter);
    if documents.len() > 0 {
        lemma_others(documents.drop_last());
        assert(about_ramiz(documents.last()) == tells(documents.last(), "name"@, "ramiz"@));
    }
}

proof fn lemma_same_record(a: Seq<char>, b: Seq<char>, depth: nat)
    requires
        alike(a, b, "ramiz "@, depth),
        depth > 1,
    ensures
        same_record(Some(a), Some(b)),
{
    reveal_with_fuel(alike, 2);
    assert forall|field: Seq<char>, text: Seq<char>| !begins(field, "ramiz "@) implies
        #[trigger] tells(a, field, text) == #[trigger] tells(b, field, text) by {
        lemma_same_member(a, b, field, depth);
        if let (Some(v), Some(w)) = (under(a, field), under(b, field)) {
            assert(alike(v, w, "ramiz "@, (depth - 1) as nat));
            assert(says(v, text) == says(w, text));
        }
    }
}

proof fn lemma_same_member(a: Seq<char>, b: Seq<char>, field: Seq<char>, depth: nat)
    requires
        alike(a, b, "ramiz "@, depth),
        !begins(field, "ramiz "@),
    ensures
        match (under(a, field), under(b, field)) {
            (Some(v), Some(w)) => depth > 0 && alike(v, w, "ramiz "@, (depth - 1) as nat),
            (None, None) => true,
            _ => false,
        },
{
    reveal_with_fuel(alike, 2);
    if let (Some(NodeView::Object(x)), Some(NodeView::Object(y))) = (node_of(a), node_of(b)) {
        assert(member_of(x, field) == under(a, field));
        assert(member_of(y, field) == under(b, field));
    }
}

proof fn lemma_same_package(a: Seq<char>, b: Seq<char>, key: Seq<char>)
    requires
        alike(a, b, "ramiz "@, DEPTH as nat),
        !begins(key, "ramiz "@),
    ensures
        same_record(package_of(a, key), package_of(b, key)),
{
    assert(!begins("installs"@, "ramiz "@)) by {
        reveal_strlit("installs");
        reveal_strlit("ramiz ");
        if begins("installs"@, "ramiz "@) {
            assert("installs"@.take(6)[0] == "ramiz "@[0]);
        }
    }
    lemma_same_member(a, b, "installs"@, DEPTH as nat);
    if let (Some(v), Some(w)) = (under(a, "installs"@), under(b, "installs"@)) {
        lemma_same_member(v, w, key, 126);
        if let (Some(p), Some(q)) = (under(v, key), under(w, key)) {
            lemma_same_record(p, q, 125);
        }
    }
}

// ---------------------------------------------------------------------------
// The steps
// ---------------------------------------------------------------------------

proof fn lemma_install_shown(bytes: Seq<u8>, version: Seq<char>)
    requires
        legacy_weight(bytes, Some(version)) == Weight::Proof,
    ensures
        install_shown(bytes, version),
{
    let raw = document_of(decode_utf8(bytes))->Some_0;
    let (key, value) = lemma_inside(raw, version, DEPTH as nat);
    assert(inside(raw, key, value, DEPTH as nat));
}

proof fn lemma_inside(raw: Seq<char>, version: Seq<char>, depth: nat) -> (r: (
    Seq<char>,
    Seq<char>,
))
    requires
        shows_version(raw, Some(version), depth),
    ensures
        inside(raw, r.0, r.1, depth),
        release_key(r.0, version),
        public_install(r.1),
    decreases depth,
{
    let v = Some(version);
    let d = (depth - 1) as nat;
    match node_of(raw) {
        Some(NodeView::Object(members)) => {
            let i = choose|i: int|
                0 <= i < members.len() && standing(members, i) && if names_version(
                    (#[trigger] members[i]).0,
                    v,
                ) {
                    published(members[i].0) && entry_ok(members[i].1)
                } else {
                    shows_version(members[i].1, v, d)
                };
            if names_version(members[i].0, v) {
                lemma_public(members[i].1);
                (members[i].0, members[i].1)
            } else {
                let (key, value) = lemma_inside(members[i].1, version, d);
                assert(inside(members[i].1, key, value, d));
                (key, value)
            }
        },
        Some(NodeView::Array(items)) => {
            let i = choose|i: int|
                0 <= i < items.len() && shows_version(#[trigger] items[i], v, d);
            let (key, value) = lemma_inside(items[i], version, d);
            assert(inside(items[i], key, value, d));
            (key, value)
        },
        _ => (raw, raw),
    }
}

proof fn lemma_public(value: Seq<char>)
    requires
        entry_ok(value),
    ensures
        public_install(value),
{
    let members = (node_of(value)->Some_0)->Object_0;
    lemma_bins(members, value);
}

proof fn lemma_bins(members: Seq<(Seq<char>, Seq<char>)>, value: Seq<char>)
    requires
        node_of(value) == Some(NodeView::Object(members)),
    ensures
        bins_ok(members) == counts_both(value),
{
    if let Some(bins) = member_of(members, "bins"@) {
        if let Some(NodeView::Array(items)) = node_of(bins) {
            lemma_counts(bins, items, "ramiz"@);
            lemma_counts(bins, items, "git-ramiz"@);
        }
    }
}

proof fn lemma_counts(raw: Seq<char>, items: Seq<Seq<char>>, text: Seq<char>)
    requires
        node_of(raw) == Some(NodeView::Array(items)),
    ensures
        has_text(items, text) == counts(raw, text),
{
    if has_text(items, text) {
        let i = choose|i: int|
            0 <= i < items.len() && json_text(#[trigger] items[i]) == Some(text);
        assert(says(items[i], text));
    }
    if counts(raw, text) {
        let i = choose|i: int| 0 <= i < items.len() && says(#[trigger] items[i], text);
        assert(json_text(items[i]) == Some(text));
    }
}

proof fn lemma_public_back(value: Seq<char>)
    requires
        public_install(value),
        node_of(value) matches Some(NodeView::Object(_)),
    ensures
        entry_ok(value),
{
    let members = (node_of(value)->Some_0)->Object_0;
    lemma_bins(members, value);
    if let Some(source) = member_of(members, "source"@) {
        if let Some(text) = json_text(source) {
            assert(tells(value, "source"@, text));
        }
    }
}

proof fn lemma_names_begins(key: Seq<char>, version: Seq<char>)
    requires
        names_version(key, Some(version)),
    ensures
        begins(key, "ramiz "@),
{
    let whole = "ramiz "@ + version;
    assert(whole.take("ramiz "@.len() as int) =~= "ramiz "@);
    if key != whole {
        let more = whole + " ("@;
        assert(key.take("ramiz "@.len() as int) =~= key.take(more.len() as int).take(
            "ramiz "@.len() as int,
        ));
        assert(more.take("ramiz "@.len() as int) =~= "ramiz "@);
    }
}

proof fn lemma_key_begins(key: Seq<char>, version: Seq<char>)
    requires
        release_key(key, version),
    ensures
        begins(key, "ramiz "@),
        names_version(key, Some(version)),
        published(key),
{
    lemma_names_begins(key, version);
}

proof fn lemma_stream_shown(bytes: Seq<u8>, version: Seq<char>, host: Seq<char>)
    requires
        stream_weight(bytes, Some(version), host) == Weight::Proof,
    ensures
        stream_shown(bytes, version, host),
{
    let documents = stream_of(decode_utf8(bytes))->Some_0;
    let i = lemma_only(documents);
    let raw = documents[i];
    let members = (node_of(raw)->Some_0)->Object_0;
    let requirement = member_text(members, "version_req"@)->Some_0;
    let target = member_text(members, "target"@)->Some_0;
    assert(tells(raw, "version_req"@, requirement));
    assert(tells(raw, "target"@, target));
    assert(tells(raw, "current_version"@, version));
    assert(tells(raw, "name"@, "ramiz"@));
    assert(runs_on(target, host)) by {
        if target != host {
            let arch = choose|arch: Seq<char>| #[trigger]
                linux_build(arch, target) && linux_build(arch, host);
            assert(of_linux(arch, target) && of_linux(arch, host));
        }
    }
    lemma_bins(members, raw);
    assert(stream_record(documents[i], version, host));
}

proof fn lemma_record_back(raw: Seq<char>, version: Seq<char>, host: Seq<char>)
    requires
        stream_record(raw, version, host),
    ensures
        stream_entry_ok(raw, Some(version), host),
{
    let members = (node_of(raw)->Some_0)->Object_0;
    let requirement = choose|requirement: Seq<char>| #[trigger]
        tells(raw, "version_req"@, requirement) && requirement_meets(requirement, version);
    let target = choose|target: Seq<char>| #[trigger]
        tells(raw, "target"@, target) && runs_on(target, host);
    assert(member_text(members, "version_req"@) == Some(requirement));
    assert(member_text(members, "target"@) == Some(target));
    assert(member_text(members, "current_version"@) == Some(version));
    assert(compatible(target, host)) by {
        if target != host {
            let arch = choose|arch: Seq<char>| #[trigger]
                of_linux(arch, target) && of_linux(arch, host);
            assert(linux_build(arch, target) && linux_build(arch, host));
        }
    }
    lemma_bins(members, raw);
    assert(from_registry(members));
}

proof fn lemma_none(documents: Seq<Seq<char>>)
    ensures
        ramiz_documents(documents).len() == 0 <==> (forall|i: int|
            0 <= i < documents.len() ==> !tells(#[trigger] documents[i], "name"@, "ramiz"@)),
    decreases documents.len(),
{
    if documents.len() > 0 {
        let before = documents.drop_last();
        lemma_none(before);
        assert(forall|i: int| 0 <= i < before.len() ==> before[i] == #[trigger] documents[i]);
        assert(about_ramiz(documents.last()) == tells(
            documents[documents.len() - 1],
            "name"@,
            "ramiz"@,
        ));
        if ramiz_documents(documents).len() == 0 {
            assert forall|i: int| 0 <= i < documents.len() implies !tells(
                #[trigger] documents[i],
                "name"@,
                "ramiz"@,
            ) by {
                if i < before.len() {
                    assert(before[i] == documents[i]);
                }
            }
        }
    }
}

proof fn lemma_only(documents: Seq<Seq<char>>) -> (i: int)
    requires
        ramiz_documents(documents).len() == 1,
    ensures
        0 <= i < documents.len(),
        documents[i] == ramiz_documents(documents)[0],
        tells(documents[i], "name"@, "ramiz"@),
        alone(documents, i),
    decreases documents.len(),
{
    let before = documents.drop_last();
    let last = documents.len() - 1;
    assert(about_ramiz(documents.last()) == tells(documents[last], "name"@, "ramiz"@));
    if about_ramiz(documents.last()) {
        lemma_none(before);
        assert forall|j: int| 0 <= j < documents.len() && j != last implies !tells(
            #[trigger] documents[j],
            "name"@,
            "ramiz"@,
        ) by {
            assert(before[j] == documents[j]);
        }
        last
    } else {
        let i = lemma_only(before);
        assert forall|j: int| 0 <= j < documents.len() && j != i implies !tells(
            #[trigger] documents[j],
            "name"@,
            "ramiz"@,
        ) by {
            if j < before.len() {
                assert(before[j] == documents[j]);
            }
        }
        i
    }
}

proof fn lemma_only_back(documents: Seq<Seq<char>>, i: int)
    requires
        0 <= i < documents.len(),
        tells(documents[i], "name"@, "ramiz"@),
        alone(documents, i),
    ensures
        ramiz_documents(documents) =~= seq![documents[i]],
    decreases documents.len(),
{
    let before = documents.drop_last();
    let last = documents.len() - 1;
    assert(about_ramiz(documents.last()) == tells(documents[last], "name"@, "ramiz"@));
    if i == last {
        assert forall|j: int| 0 <= j < before.len() implies !tells(
            #[trigger] before[j],
            "name"@,
            "ramiz"@,
        ) by {
            assert(before[j] == documents[j]);
        }
        lemma_none(before);
    } else {
        assert(before[i] == documents[i]);
        assert forall|j: int| 0 <= j < before.len() && j != i implies !tells(
            #[trigger] before[j],
            "name"@,
            "ramiz"@,
        ) by {
            assert(before[j] == documents[j]);
        }
        lemma_only_back(before, i);
    }
}

} // verus!
