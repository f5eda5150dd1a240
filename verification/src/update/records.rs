//! Whether Cargo's own records show that Cargo installed Ramiz.
//!
//! Three files below the installation root may tell: the install list
//! `.crates.toml`, its successor `.crates2.json`, and the stream
//! `binstall/crates-v1.json` of cargo-binstall. A file that is not there says
//! nothing. A file that names Ramiz must show a release from crates.io with both
//! executables. A JSON file that is there must be readable and well formed; an
//! install list that is not says nothing.
use crate::json::{
    document, document_of, is_sound, member, member_of, node, node_of, pair_views, sound, stream,
    stream_of, Node, NodeView, DEPTH,
};
use crate::outside::{requirement_admits, requirement_meets, utf8_text};
use crate::path::{join, joined};
use crate::text::{
    begins, finishes, holds, same, text2, text3, text_begins, text_finishes, text_holds, text_views,
    utf8, utf8_of,
};
use crate::update::io::{extends, IoEvent, UpdateIo};
use crate::update::model::{bytes_option, IoError, IoErrorView};
use crate::update::toml::{entry_views, install_list, parse_install_list};
use crate::update::transaction::{snapshot_at, snapshot_optional};
use vstd::prelude::*;
use vstd::utf8::{decode_utf8, valid_utf8};

verus! {

// ---------------------------------------------------------------------------
// The files
// ---------------------------------------------------------------------------

/// The contents of the three records, each where it is there.
pub struct Records {
    pub list: Option<Vec<u8>>,
    pub legacy: Option<Vec<u8>>,
    pub stream: Option<Vec<u8>>,
}

/// The model of [`Records`].
#[verifier::ext_equal]
pub struct RecordsView {
    pub list: Option<Seq<u8>>,
    pub legacy: Option<Seq<u8>>,
    pub stream: Option<Seq<u8>>,
}

impl View for Records {
    type V = RecordsView;

    open spec fn view(&self) -> RecordsView {
        RecordsView {
            list: bytes_option(self.list),
            legacy: bytes_option(self.legacy),
            stream: bytes_option(self.stream),
        }
    }
}

/// Where the install list lies.
pub open spec fn list_at(root: Seq<u8>) -> Seq<u8> {
    joined(root, utf8(".crates.toml"@))
}

/// Where the successor of the install list lies.
pub open spec fn legacy_at(root: Seq<u8>) -> Seq<u8> {
    joined(root, utf8(".crates2.json"@))
}

/// Where the stream of cargo-binstall lies.
pub open spec fn stream_at(root: Seq<u8>) -> Seq<u8> {
    joined(root, utf8("binstall/crates-v1.json"@))
}

pub fn list_path(root: &[u8]) -> (r: Vec<u8>)
    ensures
        r@ == list_at(root@),
{
    join(root, utf8_of(".crates.toml"))
}

pub fn legacy_path(root: &[u8]) -> (r: Vec<u8>)
    ensures
        r@ == legacy_at(root@),
{
    join(root, utf8_of(".crates2.json"))
}

pub fn stream_path(root: &[u8]) -> (r: Vec<u8>)
    ensures
        r@ == stream_at(root@),
{
    join(root, utf8_of("binstall/crates-v1.json"))
}

/// A failure to read one of the records: which one, and the error.
pub struct RecordError {
    pub path: Vec<u8>,
    pub error: IoError,
}

/// The model of a [`RecordError`].
#[verifier::ext_equal]
pub struct RecordErrorView {
    pub path: Seq<u8>,
    pub error: IoErrorView,
}

/// What was read of the three records, or which of them could not be read,
/// the first such.
pub open spec fn records_read(
    root: Seq<u8>,
    legacy: Result<Option<Seq<u8>>, IoErrorView>,
    list: Result<Option<Seq<u8>>, IoErrorView>,
    stream: Result<Option<Seq<u8>>, IoErrorView>,
) -> Result<RecordsView, RecordErrorView> {
    match (legacy, list, stream) {
        (Err(error), _, _) => Err(RecordErrorView { path: legacy_at(root), error }),
        (_, Err(error), _) => Err(RecordErrorView { path: list_at(root), error }),
        (_, _, Err(error)) => Err(RecordErrorView { path: stream_at(root), error }),
        (Ok(legacy), Ok(list), Ok(stream)) => Ok(RecordsView { list, legacy, stream }),
    }
}

/// Reads the three records.
#[verifier::opaque]
pub open spec fn read_records_at(l: Seq<IoEvent>, i: int, root: Seq<u8>) -> (
    Result<RecordsView, RecordErrorView>,
    int,
) {
    let (legacy, i) = snapshot_at(l, i, legacy_at(root));
    let (list, i) = snapshot_at(l, i, list_at(root));
    let (stream, i) = snapshot_at(l, i, stream_at(root));
    (records_read(root, legacy, list, stream), i)
}

/// The view of the outcome of reading the records.
pub open spec fn records_answer(r: Result<Records, RecordError>) -> Result<
    RecordsView,
    RecordErrorView,
> {
    match r {
        Ok(records) => Ok(records@),
        Err(problem) => Err(
            RecordErrorView { path: problem.path@, error: problem.error@ },
        ),
    }
}

/// Reads the three records below `root`.
pub fn read_records<I: UpdateIo>(io: &mut I, root: &[u8]) -> (r: Result<Records, RecordError>)
    ensures
        extends(final(io).log(), old(io).log()),
        forall|l: Seq<IoEvent>|
            extends(l, final(io).log()) ==> #[trigger] read_records_at(
                l,
                old(io).log().len() as int,
                root@,
            ) == (records_answer(r), final(io).log().len() as int),
{
    proof {
        reveal(read_records_at);
    }
    let path = legacy_path(root);
    let legacy = snapshot_optional(io, path.as_slice());
    let list = snapshot_optional(io, list_path(root).as_slice());
    let stream = snapshot_optional(io, stream_path(root).as_slice());
    let legacy = match legacy {
        Ok(bytes) => bytes,
        Err(error) => return Err(RecordError { path, error }),
    };
    let list = match list {
        Ok(bytes) => bytes,
        Err(error) => return Err(RecordError { path: list_path(root), error }),
    };
    let stream = match stream {
        Ok(bytes) => bytes,
        Err(error) => return Err(RecordError { path: stream_path(root), error }),
    };
    Ok(Records { list, legacy, stream })
}

// ---------------------------------------------------------------------------
// Identities
// ---------------------------------------------------------------------------

/// A key that names a version of Ramiz.
pub open spec fn ramiz_key(key: Seq<char>) -> bool {
    begins(key, "ramiz "@)
}

/// A key that names `version` of Ramiz, or any version.
pub open spec fn names_version(key: Seq<char>, version: Option<Seq<char>>) -> bool {
    match version {
        None => ramiz_key(key),
        Some(version) => key == "ramiz "@ + version || begins(key, "ramiz "@ + version + " ("@),
    }
}

/// A key with a source, in parentheses, that is neither a repository nor a
/// directory nor private.
pub open spec fn published(key: Seq<char>) -> bool {
    &&& holds(key, " ("@)
    &&& !holds(key, "git+"@)
    &&& !holds(key, "path+"@)
    &&& !holds(key, "private"@)
}

/// The view of an optional text.
pub open spec fn str_option(o: Option<&str>) -> Option<Seq<char>> {
    match o {
        Some(text) => Some(text@),
        None => None,
    }
}

fn is_version_key(key: &str, version: Option<&str>) -> (r: bool)
    ensures
        r == names_version(key@, str_option(version)),
{
    match version {
        None => text_begins(key, "ramiz "),
        Some(version) => same(key, text2("ramiz ", version).as_str()) || text_begins(
            key,
            text3("ramiz ", version, " (").as_str(),
        ),
    }
}

fn is_published(key: &str) -> (r: bool)
    ensures
        r == published(key@),
{
    text_holds(key, " (") && !text_holds(key, "git+") && !text_holds(key, "path+") && !text_holds(
        key,
        "private",
    )
}

// ---------------------------------------------------------------------------
// .crates2.json
// ---------------------------------------------------------------------------

/// The text that a JSON value is, where it is one.
pub open spec fn json_text(raw: Seq<char>) -> Option<Seq<char>> {
    match node_of(raw) {
        Some(NodeView::Text(text)) => Some(text),
        _ => None,
    }
}

/// One of the values is the text `wanted`.
pub open spec fn has_text(items: Seq<Seq<char>>, wanted: Seq<char>) -> bool {
    exists|i: int| 0 <= i < items.len() && json_text(#[trigger] items[i]) == Some(wanted)
}

/// A member that is a list with both executables.
pub open spec fn bins_ok(members: Seq<(Seq<char>, Seq<char>)>) -> bool {
    match member_of(members, "bins"@) {
        None => false,
        Some(raw) => match node_of(raw) {
            Some(NodeView::Array(items)) => has_text(items, "ramiz"@) && has_text(
                items,
                "git-ramiz"@,
            ),
            _ => false,
        },
    }
}

/// The registry index of crates.io, as an installed package names it.
pub open spec fn registry_source() -> Seq<char> {
    "registry+https://github.com/rust-lang/crates.io-index"@
}

/// An entry of an installed package: its source, where it is a text, is empty
/// or crates.io, and it brought both executables.
pub open spec fn entry_ok(raw: Seq<char>) -> bool {
    match node_of(raw) {
        Some(NodeView::Object(members)) => {
            &&& match member_of(members, "source"@) {
                Some(source) => match json_text(source) {
                    Some(text) => text.len() == 0 || text == registry_source(),
                    None => true,
                },
                None => true,
            }
            &&& bins_ok(members)
        },
        _ => false,
    }
}

/// No later member has the name of member `i`, so that it is the one that
/// counts.
pub open spec fn standing(members: Seq<(Seq<char>, Seq<char>)>, i: int) -> bool {
    forall|j: int| i < j < members.len() ==> (#[trigger] members[j]).0 != members[i].0
}

/// A value shows `version` of Ramiz: at some level a member names it, with a
/// published source and an entry that is in order. What is below a member that
/// names it is not looked at; what is below any other is.
pub open spec fn shows_version(raw: Seq<char>, version: Option<Seq<char>>, depth: nat) -> bool
    decreases depth,
{
    depth > 0 && match node_of(raw) {
        Some(NodeView::Object(members)) => exists|i: int|
            0 <= i < members.len() && standing(members, i) && if names_version(
                (#[trigger] members[i]).0,
                version,
            ) {
                published(members[i].0) && entry_ok(members[i].1)
            } else {
                shows_version(members[i].1, version, (depth - 1) as nat)
            },
        Some(NodeView::Array(items)) => exists|i: int|
            0 <= i < items.len() && shows_version(
                #[trigger] items[i],
                version,
                (depth - 1) as nat,
            ),
        _ => false,
    }
}

/// A value names Ramiz: at some level it has a member that does.
pub open spec fn names_ramiz(raw: Seq<char>, depth: nat) -> bool
    decreases depth,
{
    depth > 0 && match node_of(raw) {
        Some(NodeView::Object(members)) => exists|i: int|
            0 <= i < members.len() && (ramiz_key((#[trigger] members[i]).0) || names_ramiz(
                members[i].1,
                (depth - 1) as nat,
            )),
        Some(NodeView::Array(items)) => exists|i: int|
            0 <= i < items.len() && names_ramiz(#[trigger] items[i], (depth - 1) as nat),
        _ => false,
    }
}

/// Two members have the same name, which names Ramiz.
pub open spec fn repeated_key(members: Seq<(Seq<char>, Seq<char>)>) -> bool {
    exists|i: int, j: int|
        0 <= i < j < members.len() && ramiz_key(members[i].0) && (#[trigger] members[i]).0 == (
        #[trigger] members[j]).0
}

/// A value names Ramiz ambiguously: at some level an object has two members
/// with the same name, which names Ramiz.
pub open spec fn repeats_ramiz(raw: Seq<char>, depth: nat) -> bool
    decreases depth,
{
    depth > 0 && match node_of(raw) {
        Some(NodeView::Object(members)) => repeated_key(members) || exists|i: int|
            0 <= i < members.len() && !ramiz_key((#[trigger] members[i]).0) && repeats_ramiz(
                members[i].1,
                (depth - 1) as nat,
            ),
        Some(NodeView::Array(items)) => exists|i: int|
            0 <= i < items.len() && repeats_ramiz(#[trigger] items[i], (depth - 1) as nat),
        _ => false,
    }
}

/// What a record is worth: it says nothing of Ramiz, it proves it, or it stands
/// against it.
#[derive(Clone, Copy, Debug, PartialEq, Eq, Structural)]
pub enum Weight {
    Silent,
    Proof,
    Contrary,
}

/// The weight of a JSON value.
pub open spec fn json_weight(raw: Seq<char>, version: Option<Seq<char>>) -> Weight {
    if !names_ramiz(raw, DEPTH as nat) {
        Weight::Silent
    } else if shows_version(raw, version, DEPTH as nat) && !repeats_ramiz(raw, DEPTH as nat) {
        Weight::Proof
    } else {
        Weight::Contrary
    }
}

/// The weight of `.crates2.json`.
pub open spec fn legacy_weight(bytes: Seq<u8>, version: Option<Seq<char>>) -> Weight {
    if !valid_utf8(bytes) {
        Weight::Contrary
    } else {
        match document_of(decode_utf8(bytes)) {
            None => Weight::Contrary,
            Some(raw) => if !sound(raw, DEPTH as nat) {
                Weight::Contrary
            } else {
                json_weight(raw, version)
            },
        }
    }
}

fn text_json(raw: &str) -> (r: Option<String>)
    ensures
        match r {
            Some(text) => json_text(raw@) == Some(text@),
            None => json_text(raw@) is None,
        },
{
    match node(raw) {
        Some(Node::Text(text)) => Some(text),
        _ => None,
    }
}

fn contains_text(items: &Vec<String>, wanted: &str) -> (r: bool)
    ensures
        r == has_text(text_views(items@), wanted@),
{
    let ghost views = text_views(items@);
    for i in 0..items.len()
        invariant
            views == text_views(items@),
            forall|k: int| 0 <= k < i ==> json_text(#[trigger] views[k]) != Some(wanted@),
    {
        assert(views[i as int] == items@[i as int]@);
        if let Some(text) = text_json(items[i].as_str()) {
            if same(text.as_str(), wanted) {
                return true;
            }
        }
    }
    false
}

fn are_bins_ok(members: &Vec<(String, String)>) -> (r: bool)
    ensures
        r == bins_ok(pair_views(members@)),
{
    match member(members, "bins") {
        None => false,
        Some(raw) => match node(raw.as_str()) {
            Some(Node::Array(items)) => contains_text(&items, "ramiz") && contains_text(
                &items,
                "git-ramiz",
            ),
            _ => false,
        },
    }
}

/// An entry of an installed package is one that crates.io published.
pub fn cargo_record_entry_ok(raw: &str) -> (r: bool)
    ensures
        r == entry_ok(raw@),
{
    match node(raw) {
        Some(Node::Object(members)) => {
            if let Some(source) = member(&members, "source") {
                if let Some(text) = text_json(source.as_str()) {
                    let named = !same(text.as_str(), "");
                    proof {
                        reveal_strlit("");
                        assert(text@.len() == 0 ==> text@ =~= ""@);
                    }
                    if named && !same(
                        text.as_str(),
                        "registry+https://github.com/rust-lang/crates.io-index",
                    ) {
                        return false;
                    }
                }
            }
            are_bins_ok(&members)
        },
        _ => false,
    }
}

fn is_standing(members: &Vec<(String, String)>, i: usize) -> (r: bool)
    requires
        i < members@.len(),
    ensures
        r == standing(pair_views(members@), i as int),
{
    let ghost views = pair_views(members@);
    for j in i + 1..members.len()
        invariant
            i < j,
            i < members@.len(),
            views == pair_views(members@),
            forall|k: int| i < k < j ==> (#[trigger] views[k]).0 != views[i as int].0,
    {
        assert(views[i as int].0 == members@[i as int].0@ && views[j as int].0
            == members@[j as int].0@);
        if same(members[i].0.as_str(), members[j].0.as_str()) {
            return false;
        }
    }
    true
}

fn does_show(raw: &str, version: Option<&str>, depth: u32) -> (r: bool)
    ensures
        r == shows_version(raw@, str_option(version), depth as nat),
    decreases depth,
{
    if depth == 0 {
        return false;
    }
    let ghost wanted = str_option(version);
    let ghost below = (depth - 1) as nat;
    match node(raw) {
        Some(Node::Object(members)) => {
            let ghost views = pair_views(members@);
            for i in 0..members.len()
                invariant
                    depth > 0,
                    below == (depth - 1) as nat,
                    wanted == str_option(version),
                    views == pair_views(members@),
                    node_of(raw@) == Some(NodeView::Object(views)),
                    forall|k: int|
                        0 <= k < i ==> !(standing(views, k) && if names_version(
                            (#[trigger] views[k]).0,
                            wanted,
                        ) {
                            published(views[k].0) && entry_ok(views[k].1)
                        } else {
                            shows_version(views[k].1, wanted, below)
                        }),
            {
                assert(views[i as int] == (members@[i as int].0@, members@[i as int].1@));
                let shown = is_standing(&members, i) && if is_version_key(
                    members[i].0.as_str(),
                    version,
                ) {
                    is_published(members[i].0.as_str()) && cargo_record_entry_ok(
                        members[i].1.as_str(),
                    )
                } else {
                    does_show(members[i].1.as_str(), version, depth - 1)
                };
                if shown {
                    proof {
                        lemma_part_shows(raw@, wanted, depth as nat, i as int);
                    }
                    return true;
                }
            }
            false
        },
        Some(Node::Array(items)) => {
            let ghost views = text_views(items@);
            for i in 0..items.len()
                invariant
                    depth > 0,
                    below == (depth - 1) as nat,
                    wanted == str_option(version),
                    views == text_views(items@),
                    node_of(raw@) == Some(NodeView::Array(views)),
                    forall|k: int|
                        0 <= k < i ==> !shows_version(#[trigger] views[k], wanted, below),
            {
                assert(views[i as int] == items@[i as int]@);
                if does_show(items[i].as_str(), version, depth - 1) {
                    proof {
                        lemma_part_shows(raw@, wanted, depth as nat, i as int);
                    }
                    return true;
                }
            }
            false
        },
        _ => false,
    }
}

/// A part that shows a version makes the whole show it.
pub proof fn lemma_part_shows(raw: Seq<char>, version: Option<Seq<char>>, depth: nat, i: int)
    requires
        depth > 0,
        match node_of(raw) {
            Some(NodeView::Array(items)) => 0 <= i < items.len() && shows_version(
                items[i],
                version,
                (depth - 1) as nat,
            ),
            Some(NodeView::Object(members)) => {
                &&& 0 <= i < members.len()
                &&& standing(members, i)
                &&& if names_version(members[i].0, version) {
                    published(members[i].0) && entry_ok(members[i].1)
                } else {
                    shows_version(members[i].1, version, (depth - 1) as nat)
                }
            },
            _ => false,
        },
    ensures
        shows_version(raw, version, depth),
{
    reveal_with_fuel(shows_version, 2);
}

/// A part that names Ramiz makes the whole name it.
proof fn lemma_part_names(raw: Seq<char>, depth: nat, i: int)
    requires
        depth > 0,
        match node_of(raw) {
            Some(NodeView::Array(items)) => 0 <= i < items.len() && names_ramiz(
                items[i],
                (depth - 1) as nat,
            ),
            Some(NodeView::Object(members)) => 0 <= i < members.len() && (ramiz_key(members[i].0)
                || names_ramiz(members[i].1, (depth - 1) as nat)),
            _ => false,
        },
    ensures
        names_ramiz(raw, depth),
{
    reveal_with_fuel(names_ramiz, 2);
}

/// A part that repeats a name of Ramiz makes the whole repeat it.
proof fn lemma_part_repeats(raw: Seq<char>, depth: nat, i: int)
    requires
        depth > 0,
        match node_of(raw) {
            Some(NodeView::Array(items)) => 0 <= i < items.len() && repeats_ramiz(
                items[i],
                (depth - 1) as nat,
            ),
            Some(NodeView::Object(members)) => 0 <= i < members.len() && !ramiz_key(members[i].0)
                && repeats_ramiz(members[i].1, (depth - 1) as nat),
            _ => false,
        },
    ensures
        repeats_ramiz(raw, depth),
{
    reveal_with_fuel(repeats_ramiz, 2);
}

fn does_name(raw: &str, depth: u32) -> (r: bool)
    ensures
        r == names_ramiz(raw@, depth as nat),
    decreases depth,
{
    if depth == 0 {
        return false;
    }
    let ghost below = (depth - 1) as nat;
    match node(raw) {
        Some(Node::Object(members)) => {
            let ghost views = pair_views(members@);
            for i in 0..members.len()
                invariant
                    depth > 0,
                    below == (depth - 1) as nat,
                    views == pair_views(members@),
                    node_of(raw@) == Some(NodeView::Object(views)),
                    forall|k: int|
                        0 <= k < i ==> !ramiz_key((#[trigger] views[k]).0) && !names_ramiz(
                            views[k].1,
                            below,
                        ),
            {
                assert(views[i as int] == (members@[i as int].0@, members@[i as int].1@));
                if text_begins(members[i].0.as_str(), "ramiz ") || does_name(
                    members[i].1.as_str(),
                    depth - 1,
                ) {
                    proof {
                        lemma_part_names(raw@, depth as nat, i as int);
                    }
                    return true;
                }
            }
            false
        },
        Some(Node::Array(items)) => {
            let ghost views = text_views(items@);
            for i in 0..items.len()
                invariant
                    depth > 0,
                    below == (depth - 1) as nat,
                    views == text_views(items@),
                    node_of(raw@) == Some(NodeView::Array(views)),
                    forall|k: int| 0 <= k < i ==> !names_ramiz(#[trigger] views[k], below),
            {
                assert(views[i as int] == items@[i as int]@);
                if does_name(items[i].as_str(), depth - 1) {
                    proof {
                        lemma_part_names(raw@, depth as nat, i as int);
                    }
                    return true;
                }
            }
            false
        },
        _ => false,
    }
}

fn is_repeated(members: &Vec<(String, String)>) -> (r: bool)
    ensures
        r == repeated_key(pair_views(members@)),
{
    let ghost views = pair_views(members@);
    for i in 0..members.len()
        invariant
            views == pair_views(members@),
            forall|a: int, b: int|
                0 <= a < b < views.len() && a < i && ramiz_key(views[a].0) ==> (
                #[trigger] views[a]).0 != (#[trigger] views[b]).0,
    {
        assert(views[i as int].0 == members@[i as int].0@);
        if text_begins(members[i].0.as_str(), "ramiz ") && !is_standing(members, i) {
            return true;
        }
    }
    false
}

fn does_repeat(raw: &str, depth: u32) -> (r: bool)
    ensures
        r == repeats_ramiz(raw@, depth as nat),
    decreases depth,
{
    if depth == 0 {
        return false;
    }
    let ghost below = (depth - 1) as nat;
    match node(raw) {
        Some(Node::Object(members)) => {
            let ghost views = pair_views(members@);
            if is_repeated(&members) {
                return true;
            }
            for i in 0..members.len()
                invariant
                    depth > 0,
                    below == (depth - 1) as nat,
                    views == pair_views(members@),
                    node_of(raw@) == Some(NodeView::Object(views)),
                    !repeated_key(views),
                    forall|k: int|
                        0 <= k < i ==> ramiz_key((#[trigger] views[k]).0) || !repeats_ramiz(
                            views[k].1,
                            below,
                        ),
            {
                assert(views[i as int] == (members@[i as int].0@, members@[i as int].1@));
                if !text_begins(members[i].0.as_str(), "ramiz ") && does_repeat(
                    members[i].1.as_str(),
                    depth - 1,
                ) {
                    proof {
                        lemma_part_repeats(raw@, depth as nat, i as int);
                    }
                    return true;
                }
            }
            false
        },
        Some(Node::Array(items)) => {
            let ghost views = text_views(items@);
            for i in 0..items.len()
                invariant
                    depth > 0,
                    below == (depth - 1) as nat,
                    views == text_views(items@),
                    node_of(raw@) == Some(NodeView::Array(views)),
                    forall|k: int| 0 <= k < i ==> !repeats_ramiz(#[trigger] views[k], below),
            {
                assert(views[i as int] == items@[i as int]@);
                if does_repeat(items[i].as_str(), depth - 1) {
                    proof {
                        lemma_part_repeats(raw@, depth as nat, i as int);
                    }
                    return true;
                }
            }
            false
        },
        _ => false,
    }
}

/// The weight of `.crates2.json`.
pub fn json_has_cargo_install(bytes: &[u8], version: Option<&str>) -> (r: Weight)
    ensures
        r == legacy_weight(bytes@, str_option(version)),
{
    let text = match utf8_text(bytes) {
        Ok(text) => text,
        Err(_) => return Weight::Contrary,
    };
    match document(text.as_str()) {
        None => Weight::Contrary,
        Some(raw) => {
            if !is_sound(raw.as_str(), DEPTH) {
                return Weight::Contrary;
            }
            if !does_name(raw.as_str(), DEPTH) {
                Weight::Silent
            } else if does_show(raw.as_str(), version, DEPTH) && !does_repeat(raw.as_str(), DEPTH) {
                Weight::Proof
            } else {
                Weight::Contrary
            }
        },
    }
}

// ---------------------------------------------------------------------------
// .crates.toml
// ---------------------------------------------------------------------------

/// Both executables are listed.
pub open spec fn both_listed(bins: Seq<Seq<char>>) -> bool {
    bins.contains("ramiz"@) && bins.contains("git-ramiz"@)
}

/// The identities that a record holds: each key that names Ramiz, and whether
/// what stands behind it is sound. They prove `version` where one of them
/// names it with a published source and a sound entry, and none occurs twice.
pub open spec fn evidence_proves(
    found: Seq<(Seq<char>, bool)>,
    version: Option<Seq<char>>,
) -> bool {
    &&& exists|i: int|
        0 <= i < found.len() && names_version((#[trigger] found[i]).0, version) && published(
            found[i].0,
        ) && found[i].1
    &&& forall|i: int, j: int|
        0 <= i < j < found.len() ==> (#[trigger] found[i]).0 != (#[trigger] found[j]).0
}

/// The view of a list of identities.
pub open spec fn evidence_views(v: Seq<(String, bool)>) -> Seq<(Seq<char>, bool)> {
    v.map_values(|e: (String, bool)| (e.0@, e.1))
}

/// The weight of the identities that a record holds.
pub open spec fn evidence_weight(
    found: Seq<(Seq<char>, bool)>,
    version: Option<Seq<char>>,
) -> Weight {
    if found.len() == 0 {
        Weight::Silent
    } else if evidence_proves(found, version) {
        Weight::Proof
    } else {
        Weight::Contrary
    }
}

/// The identities among the entries of an install list.
pub open spec fn listed(entries: Seq<(Seq<char>, Seq<Seq<char>>)>) -> Seq<(Seq<char>, bool)>
    decreases entries.len(),
{
    if entries.len() == 0 {
        Seq::empty()
    } else if ramiz_key(entries.last().0) {
        listed(entries.drop_last()).push((entries.last().0, both_listed(entries.last().1)))
    } else {
        listed(entries.drop_last())
    }
}

/// The weight of `.crates.toml`. One that is no install list says nothing.
pub open spec fn list_weight(bytes: Seq<u8>, version: Option<Seq<char>>) -> Weight {
    if !valid_utf8(bytes) {
        Weight::Silent
    } else {
        match install_list(decode_utf8(bytes)) {
            None => Weight::Silent,
            Some(entries) => evidence_weight(listed(entries), version),
        }
    }
}

fn lists(bins: &Vec<String>, wanted: &str) -> (r: bool)
    ensures
        r == text_views(bins@).contains(wanted@),
{
    for i in 0..bins.len()
        invariant
            forall|k: int| 0 <= k < i ==> text_views(bins@)[k] != wanted@,
    {
        assert(text_views(bins@)[i as int] == bins@[i as int]@);
        if same(bins[i].as_str(), wanted) {
            return true;
        }
    }
    false
}

fn proves_evidence(found: &Vec<(String, bool)>, version: Option<&str>) -> (r: bool)
    ensures
        r == evidence_proves(evidence_views(found@), str_option(version)),
{
    let ghost all = evidence_views(found@);
    let ghost wanted = str_option(version);
    let mut proven = false;
    for i in 0..found.len()
        invariant
            all == evidence_views(found@),
            wanted == str_option(version),
            proven <==> exists|k: int|
                0 <= k < i && names_version((#[trigger] all[k]).0, wanted) && published(all[k].0)
                    && all[k].1,
            forall|a: int, b: int|
                0 <= a < b < found@.len() && a < i ==> (#[trigger] all[a]).0 != (
                #[trigger] all[b]).0,
    {
        assert(all[i as int] == (found@[i as int].0@, found@[i as int].1));
        for j in i + 1..found.len()
            invariant
                i < j <= found@.len(),
                all == evidence_views(found@),
                forall|b: int| i < b < j ==> all[i as int].0 != (#[trigger] all[b]).0,
        {
            assert(all[i as int].0 == found@[i as int].0@ && all[j as int].0
                == found@[j as int].0@);
            if same(found[i].0.as_str(), found[j].0.as_str()) {
                assert(all[i as int].0 == all[j as int].0);
                return false;
            }
        }
        if is_version_key(found[i].0.as_str(), version) && is_published(found[i].0.as_str())
            && found[i].1 {
            assert(names_version(all[i as int].0, wanted));
            proven = true;
        }
    }
    proven
}

fn push_evidence(out: &mut Vec<(String, bool)>, key: String, sound_entry: bool)
    ensures
        evidence_views(final(out)@) == evidence_views(old(out)@).push((key@, sound_entry)),
{
    let ghost before = out@;
    out.push((key, sound_entry));
    assert(evidence_views(out@) =~= evidence_views(before).push((key@, sound_entry)));
}

fn weigh_evidence(found: &Vec<(String, bool)>, version: Option<&str>) -> (r: Weight)
    ensures
        r == evidence_weight(evidence_views(found@), str_option(version)),
{
    assert(evidence_views(found@).len() == found@.len());
    if found.len() == 0 {
        Weight::Silent
    } else if proves_evidence(found, version) {
        Weight::Proof
    } else {
        Weight::Contrary
    }
}

fn no_evidence() -> (r: Vec<(String, bool)>)
    ensures
        evidence_views(r@) == Seq::<(Seq<char>, bool)>::empty(),
{
    let r: Vec<(String, bool)> = Vec::new();
    assert(evidence_views(r@) =~= Seq::<(Seq<char>, bool)>::empty());
    r
}

/// The weight of `.crates.toml`.
pub fn weigh_list(bytes: &[u8], version: Option<&str>) -> (r: Weight)
    ensures
        r == list_weight(bytes@, str_option(version)),
{
    let text = match utf8_text(bytes) {
        Ok(text) => text,
        Err(_) => return Weight::Silent,
    };
    match parse_install_list(text.as_str()) {
        None => Weight::Silent,
        Some(entries) => {
            let ghost all = entry_views(entries@);
            let mut found = no_evidence();
            for i in 0..entries.len()
                invariant
                    all == entry_views(entries@),
                    evidence_views(found@) == listed(all.take(i as int)),
            {
                assert(all[i as int] == (entries@[i as int].0@, text_views(entries@[i as int].1@)));
                assert(all.take(i + 1).drop_last() =~= all.take(i as int));
                if text_begins(entries[i].0.as_str(), "ramiz ") {
                    let both = lists(&entries[i].1, "ramiz") && lists(&entries[i].1, "git-ramiz");
                    push_evidence(&mut found, entries[i].0.clone(), both);
                }
            }
            assert(all.take(entries@.len() as int) =~= all);
            weigh_evidence(&found, version)
        },
    }
}

// ---------------------------------------------------------------------------
// binstall/crates-v1.json
// ---------------------------------------------------------------------------

/// The text of a member, where it is one.
pub open spec fn member_text(members: Seq<(Seq<char>, Seq<char>)>, key: Seq<char>) -> Option<
    Seq<char>,
> {
    match member_of(members, key) {
        Some(raw) => json_text(raw),
        None => None,
    }
}

/// A document of the stream that is about Ramiz.
pub open spec fn about_ramiz(raw: Seq<char>) -> bool {
    match node_of(raw) {
        Some(NodeView::Object(members)) => member_text(members, "name"@) == Some("ramiz"@),
        _ => false,
    }
}

/// A build for `target` runs on `host`: the two are the same, or the same
/// Linux with another C library.
pub open spec fn compatible(target: Seq<char>, host: Seq<char>) -> bool {
    ||| target == host
    ||| exists|arch: Seq<char>| #[trigger] linux_build(arch, target) && linux_build(arch, host)
}

/// `triple` is Linux on `arch`.
pub open spec fn linux_build(arch: Seq<char>, triple: Seq<char>) -> bool {
    triple == arch + "-unknown-linux-gnu"@ || triple == arch + "-unknown-linux-musl"@
}

/// A source that is crates.io.
pub open spec fn from_registry(members: Seq<(Seq<char>, Seq<char>)>) -> bool {
    match member_of(members, "source"@) {
        None => false,
        Some(raw) => match node_of(raw) {
            Some(NodeView::Object(source)) => {
                &&& member_text(source, "source_type"@) == Some("Registry"@)
                &&& member_text(source, "url"@) == Some(
                    "https://github.com/rust-lang/crates.io-index"@,
                )
            },
            _ => false,
        },
    }
}

/// A document of the stream that proves `version` of Ramiz on `host`.
pub open spec fn stream_entry_ok(
    raw: Seq<char>,
    version: Option<Seq<char>>,
    host: Seq<char>,
) -> bool {
    match node_of(raw) {
        Some(NodeView::Object(members)) => {
            match (
                member_text(members, "version_req"@),
                member_text(members, "current_version"@),
                member_text(members, "target"@),
            ) {
                (Some(requirement), Some(current), Some(target)) => {
                    &&& requirement_meets(requirement, current)
                    &&& version is Some ==> version == Some(current)
                    &&& compatible(target, host)
                    &&& from_registry(members)
                    &&& bins_ok(members)
                },
                _ => false,
            }
        },
        _ => false,
    }
}

/// The documents about Ramiz.
pub open spec fn ramiz_documents(documents: Seq<Seq<char>>) -> Seq<Seq<char>>
    decreases documents.len(),
{
    if documents.len() == 0 {
        Seq::empty()
    } else if about_ramiz(documents.last()) {
        ramiz_documents(documents.drop_last()).push(documents.last())
    } else {
        ramiz_documents(documents.drop_last())
    }
}

/// The other documents.
pub open spec fn other_documents(documents: Seq<Seq<char>>) -> Seq<Seq<char>>
    decreases documents.len(),
{
    if documents.len() == 0 {
        Seq::empty()
    } else if about_ramiz(documents.last()) {
        other_documents(documents.drop_last())
    } else {
        other_documents(documents.drop_last()).push(documents.last())
    }
}

/// The documents of a stream, each of which can be opened at every level.
pub open spec fn sound_stream(bytes: Seq<u8>) -> Option<Seq<Seq<char>>> {
    if !valid_utf8(bytes) {
        None
    } else {
        match stream_of(decode_utf8(bytes)) {
            None => None,
            Some(documents) => if forall|i: int|
                0 <= i < documents.len() ==> sound(#[trigger] documents[i], DEPTH as nat) {
                Some(documents)
            } else {
                None
            },
        }
    }
}

/// The weight of the stream of cargo-binstall.
pub open spec fn stream_weight(
    bytes: Seq<u8>,
    version: Option<Seq<char>>,
    host: Seq<char>,
) -> Weight {
    match sound_stream(bytes) {
        None => Weight::Contrary,
        Some(documents) => {
            let ours = ramiz_documents(documents);
            if ours.len() == 0 {
                Weight::Silent
            } else if ours.len() == 1 && stream_entry_ok(ours[0], version, host) {
                Weight::Proof
            } else {
                Weight::Contrary
            }
        },
    }
}

fn text_member(members: &Vec<(String, String)>, key: &str) -> (r: Option<String>)
    ensures
        match r {
            Some(text) => member_text(pair_views(members@), key@) == Some(text@),
            None => member_text(pair_views(members@), key@) is None,
        },
{
    match member(members, key) {
        Some(raw) => text_json(raw.as_str()),
        None => None,
    }
}

fn member_is(members: &Vec<(String, String)>, key: &str, wanted: &str) -> (r: bool)
    ensures
        r == (member_text(pair_views(members@), key@) == Some(wanted@)),
{
    match text_member(members, key) {
        Some(text) => same(text.as_str(), wanted),
        None => false,
    }
}

fn is_about_ramiz(raw: &str) -> (r: bool)
    ensures
        r == about_ramiz(raw@),
{
    match node(raw) {
        Some(Node::Object(members)) => member_is(&members, "name", "ramiz"),
        _ => false,
    }
}

/// The architecture of a Linux triple.
fn linux_arch(triple: &str) -> (r: Option<String>)
    ensures
        match r {
            Some(arch) => linux_build(arch@, triple@),
            None => forall|arch: Seq<char>| !#[trigger] linux_build(arch, triple@),
        },
        forall|arch: Seq<char>| #[trigger] linux_build(
            arch,
            triple@,
        ) ==> r is Some && r->0@ == arch,
{
    let ghost gnu = "-unknown-linux-gnu"@;
    let ghost musl = "-unknown-linux-musl"@;
    proof {
        reveal_strlit("-unknown-linux-gnu");
        reveal_strlit("-unknown-linux-musl");
        assert(gnu.len() == 18 && gnu[17] == 'u');
        assert(musl.len() == 19 && musl[18] == 'l');
        assert forall|arch: Seq<char>| #[trigger] linux_build(arch, triple@) implies finishes(
            triple@,
            gnu,
        ) && arch == triple@.take(triple@.len() - 18) || finishes(triple@, musl) && arch
            == triple@.take(triple@.len() - 19) by {
            if triple@ == arch + gnu {
                assert(triple@.skip(triple@.len() - 18) =~= gnu);
                assert(arch =~= triple@.take(triple@.len() - 18));
            } else {
                assert(triple@.skip(triple@.len() - 19) =~= musl);
                assert(arch =~= triple@.take(triple@.len() - 19));
            }
        }
        if finishes(triple@, gnu) && finishes(triple@, musl) {
            assert(triple@.skip(triple@.len() - 18)[17] == triple@.last());
            assert(triple@.skip(triple@.len() - 19)[18] == triple@.last());
        }
    }
    let chars = crate::text::chars_of(triple);
    if text_finishes(triple, "-unknown-linux-gnu") {
        let arch = crate::text::text_range(chars.as_slice(), 0, chars.len() - 18);
        assert(arch@ =~= triple@.take(triple@.len() - 18));
        assert(triple@ =~= arch@ + gnu) by {
            assert(triple@ =~= triple@.take(triple@.len() - 18) + triple@.skip(triple@.len() - 18));
        }
        Some(arch)
    } else if text_finishes(triple, "-unknown-linux-musl") {
        let arch = crate::text::text_range(chars.as_slice(), 0, chars.len() - 19);
        assert(arch@ =~= triple@.take(triple@.len() - 19));
        assert(triple@ =~= arch@ + musl) by {
            assert(triple@ =~= triple@.take(triple@.len() - 19) + triple@.skip(triple@.len() - 19));
        }
        Some(arch)
    } else {
        None
    }
}

/// A build for `target` runs on `host`.
pub fn is_compatible(target: &str, host: &str) -> (r: bool)
    ensures
        r == compatible(target@, host@),
{
    if same(target, host) {
        return true;
    }
    match (linux_arch(target), linux_arch(host)) {
        (Some(a), Some(b)) => {
            let r = same(a.as_str(), b.as_str());
            assert(r ==> linux_build(a@, target@) && linux_build(a@, host@));
            r
        },
        _ => false,
    }
}

fn is_from_registry(members: &Vec<(String, String)>) -> (r: bool)
    ensures
        r == from_registry(pair_views(members@)),
{
    match member(members, "source") {
        None => false,
        Some(raw) => match node(raw.as_str()) {
            Some(Node::Object(source)) => member_is(&source, "source_type", "Registry")
                && member_is(&source, "url", "https://github.com/rust-lang/crates.io-index"),
            _ => false,
        },
    }
}

fn is_stream_entry_ok(raw: &str, version: Option<&str>, host: &str) -> (r: bool)
    ensures
        r == stream_entry_ok(raw@, str_option(version), host@),
{
    match node(raw) {
        Some(Node::Object(members)) => {
            match (
                text_member(&members, "version_req"),
                text_member(&members, "current_version"),
                text_member(&members, "target"),
            ) {
                (Some(requirement), Some(current), Some(target)) => {
                    let expected = match version {
                        None => true,
                        Some(version) => same(version, current.as_str()),
                    };
                    requirement_admits(requirement.as_str(), current.as_str()) && expected
                        && is_compatible(target.as_str(), host) && is_from_registry(&members)
                        && are_bins_ok(&members)
                },
                _ => false,
            }
        },
        _ => false,
    }
}

/// The documents of a stream, each of which can be opened at every level.
pub fn open_stream(bytes: &[u8]) -> (r: Option<Vec<String>>)
    ensures
        match r {
            Some(documents) => sound_stream(bytes@) == Some(text_views(documents@)),
            None => sound_stream(bytes@) is None,
        },
{
    let text = match utf8_text(bytes) {
        Ok(text) => text,
        Err(_) => return None,
    };
    match stream(text.as_str()) {
        None => None,
        Some(documents) => {
            let ghost views = text_views(documents@);
            for i in 0..documents.len()
                invariant
                    views == text_views(documents@),
                    valid_utf8(bytes@),
                    stream_of(decode_utf8(bytes@)) == Some(views),
                    forall|k: int| 0 <= k < i ==> sound(#[trigger] views[k], DEPTH as nat),
            {
                assert(views[i as int] == documents@[i as int]@);
                if !is_sound(documents[i].as_str(), DEPTH) {
                    return None;
                }
            }
            Some(documents)
        },
    }
}

/// The documents of a stream that are about Ramiz, or the others.
pub fn select_documents(documents: &Vec<String>, ours: bool) -> (r: Vec<String>)
    ensures
        text_views(r@) == (if ours {
            ramiz_documents(text_views(documents@))
        } else {
            other_documents(text_views(documents@))
        }),
{
    let ghost all = text_views(documents@);
    let mut out: Vec<String> = Vec::new();
    assert(text_views(out@) =~= Seq::empty());
    for i in 0..documents.len()
        invariant
            all == text_views(documents@),
            text_views(out@) == (if ours {
                ramiz_documents(all.take(i as int))
            } else {
                other_documents(all.take(i as int))
            }),
    {
        assert(all[i as int] == documents@[i as int]@);
        assert(all.take(i + 1).drop_last() =~= all.take(i as int));
        if is_about_ramiz(documents[i].as_str()) == ours {
            let ghost before = out@;
            out.push(documents[i].clone());
            assert(text_views(out@) =~= text_views(before).push(all[i as int]));
        }
    }
    assert(all.take(documents@.len() as int) =~= all);
    out
}

/// The weight of the stream of cargo-binstall.
pub fn weigh_stream(bytes: &[u8], version: Option<&str>, host: &str) -> (r: Weight)
    ensures
        r == stream_weight(bytes@, str_option(version), host@),
{
    match open_stream(bytes) {
        None => Weight::Contrary,
        Some(documents) => {
            let ours = select_documents(&documents, true);
            assert(text_views(ours@).len() == ours@.len());
            if ours.len() == 0 {
                return Weight::Silent;
            }
            assert(text_views(ours@)[0] == ours@[0]@);
            if ours.len() == 1 && is_stream_entry_ok(ours[0].as_str(), version, host) {
                Weight::Proof
            } else {
                Weight::Contrary
            }
        },
    }
}

// ---------------------------------------------------------------------------
// All three
// ---------------------------------------------------------------------------

/// The records prove that Cargo installed `version` of Ramiz on `host`: none
/// stands against it, and `.crates2.json` or the stream proves it.
pub open spec fn records_prove(
    records: RecordsView,
    version: Option<Seq<char>>,
    host: Seq<char>,
) -> bool {
    let list = match records.list {
        Some(bytes) => list_weight(bytes, version),
        None => Weight::Silent,
    };
    let legacy = match records.legacy {
        Some(bytes) => legacy_weight(bytes, version),
        None => Weight::Silent,
    };
    let stream = match records.stream {
        Some(bytes) => stream_weight(bytes, version, host),
        None => Weight::Silent,
    };
    &&& list != Weight::Contrary
    &&& legacy != Weight::Contrary
    &&& stream != Weight::Contrary
    &&& legacy == Weight::Proof || stream == Weight::Proof
}

/// The records prove that Cargo installed `version` of Ramiz on `host`.
pub fn do_records_prove(records: &Records, version: Option<&str>, host: &str) -> (r: bool)
    ensures
        r == records_prove(records@, str_option(version), host@),
{
    let list = match &records.list {
        Some(bytes) => weigh_list(bytes.as_slice(), version),
        None => Weight::Silent,
    };
    let legacy = match &records.legacy {
        Some(bytes) => json_has_cargo_install(bytes.as_slice(), version),
        None => Weight::Silent,
    };
    let stream = match &records.stream {
        Some(bytes) => weigh_stream(bytes.as_slice(), version, host),
        None => Weight::Silent,
    };
    list != Weight::Contrary && legacy != Weight::Contrary && stream != Weight::Contrary && (legacy
        == Weight::Proof || stream == Weight::Proof)
}

/// The two JSON records below `root` can be read, and with the install list,
/// where that can be read too, they prove `version` on `host`.
#[verifier::opaque]
pub open spec fn record_present_at(
    l: Seq<IoEvent>,
    i: int,
    root: Seq<u8>,
    version: Option<Seq<char>>,
    host: Seq<char>,
) -> (bool, int) {
    let (legacy, i) = snapshot_at(l, i, legacy_at(root));
    let (list, i) = snapshot_at(l, i, list_at(root));
    let (stream, i) = snapshot_at(l, i, stream_at(root));
    let list = match list {
        Ok(bytes) => bytes,
        Err(_) => None,
    };
    match (legacy, stream) {
        (Ok(legacy), Ok(stream)) => (
            records_prove(RecordsView { list, legacy, stream }, version, host),
            i,
        ),
        _ => (false, i),
    }
}

/// The records below `root` prove `version` on `host`.
pub fn cargo_record_present<I: UpdateIo>(
    io: &mut I,
    root: &[u8],
    version: Option<&str>,
    host: &str,
) -> (r: bool)
    ensures
        extends(final(io).log(), old(io).log()),
        forall|l: Seq<IoEvent>|
            extends(l, final(io).log()) ==> #[trigger] record_present_at(
                l,
                old(io).log().len() as int,
                root@,
                str_option(version),
                host@,
            ) == (r, final(io).log().len() as int),
{
    proof {
        reveal(record_present_at);
    }
    let legacy = snapshot_optional(io, legacy_path(root).as_slice());
    let list = match snapshot_optional(io, list_path(root).as_slice()) {
        Ok(bytes) => bytes,
        Err(_) => None,
    };
    let stream = snapshot_optional(io, stream_path(root).as_slice());
    match (legacy, stream) {
        (Ok(legacy), Ok(stream)) => {
            let records = Records { list, legacy, stream };
            do_records_prove(&records, version, host)
        },
        _ => false,
    }
}

} // verus!
