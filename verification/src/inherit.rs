//! Complete inheritance of a working tree.
//!
//! A donor's tree is recorded, copied below a destination, and compared with
//! the record again. The caller owns registration and rollback. Before the
//! record is made it has pinned the donor's commit and index, and it compares
//! both again afterwards. Links that the target commit tracks are left out:
//! they come from Git.
use crate::fsclone::{clone_file, clone_file_at, worded};
use crate::host::{
    bytes_if, canonicalize_at, copy_new_at, create_directory_at, entry_names_at, fault,
    hard_link_at, is_directory_at, is_file_at, metadata_at, read_link_at, set_mode_at,
    set_times_at, symlink_at, CopyFault, CopyFaultView, Event, Host, Metadata, Moment, Session,
    DIRECTORY, KIND_BITS, LINK, REGULAR,
};
use crate::order::{ordered, sort_names};
use crate::outside::{lossy, lossy_text};
use crate::path::{
    components, component_views, join, joined, parent, parent_of, path_starts_with, same_path,
    steps, Component, Step, SLASH,
};
use crate::text::{begins, copy, same_bytes, text2, text3, text4, text_views, utf8, utf8_of, views};
use crate::update::io::extends;
use crate::update::model::IoErrorKind;
use std::collections::BTreeMap;
use vstd::prelude::*;

verus! {

/// What tells one state of a file, a directory or a link from another.
pub struct Entry {
    pub dev: u64,
    pub ino: u64,
    pub mode: u32,
    pub size: u64,
    pub links: u64,
    pub modified: Moment,
    pub changed: Moment,
    /// The text of a link.
    pub target: Option<Vec<u8>>,
}

/// The model of an [`Entry`].
#[verifier::ext_equal]
pub struct EntryState {
    pub dev: u64,
    pub ino: u64,
    pub mode: u32,
    pub size: u64,
    pub links: u64,
    pub modified: Moment,
    pub changed: Moment,
    pub target: Option<Seq<u8>>,
}

impl View for Entry {
    type V = EntryState;

    open spec fn view(&self) -> EntryState {
        EntryState {
            dev: self.dev,
            ino: self.ino,
            mode: self.mode,
            size: self.size,
            links: self.links,
            modified: self.modified,
            changed: self.changed,
            target: bytes_if(self.target),
        }
    }
}

impl EntryState {
    /// What it is the state of.
    pub open spec fn kind(self) -> u32 {
        self.mode & KIND_BITS
    }

    /// The state of what `metadata` describes.
    pub open spec fn of(metadata: Metadata, target: Option<Seq<u8>>) -> EntryState {
        EntryState {
            dev: metadata.dev,
            ino: metadata.ino,
            mode: metadata.mode,
            size: metadata.size,
            links: metadata.links,
            modified: metadata.modified,
            changed: metadata.changed,
            target,
        }
    }

    /// Nothing tells the two states apart.
    pub open spec fn alike(self, other: EntryState) -> bool {
        &&& self.dev == other.dev
        &&& self.ino == other.ino
        &&& self.mode == other.mode
        &&& self.size == other.size
        &&& self.links == other.links
        &&& self.modified == other.modified
        &&& self.changed == other.changed
        &&& match (self.target, other.target) {
            (Some(a), Some(b)) => steps(a) == steps(b),
            (None, None) => true,
            _ => false,
        }
    }
}

/// Reads a state.
pub open spec fn entry_at(l: Seq<Event>, i: int, path: Seq<u8>) -> (
    Result<EntryState, Seq<char>>,
    int,
) {
    let (metadata, i) = metadata_at(l, i, path);
    match metadata {
        Err(error) => (Err(error.message), i),
        Ok(metadata) => if metadata.kind() == LINK {
            let (target, i) = read_link_at(l, i, path);
            (
                match target {
                    Ok(target) => Ok(EntryState::of(metadata, Some(target))),
                    Err(error) => Err(error),
                },
                i,
            )
        } else {
            (Ok(EntryState::of(metadata, None)), i)
        },
    }
}

impl Entry {
    /// The state of what is at `path`.
    pub fn read<H: Host>(s: &mut Session<H>, path: &[u8]) -> (r: Result<Entry, String>)
        ensures
            extends(final(s).log(), old(s).log()),
            forall|l: Seq<Event>|
                extends(l, final(s).log()) ==> #[trigger] entry_at(
                    l,
                    old(s).log().len() as int,
                    path@,
                ) == (worded(r), final(s).log().len() as int),
    {
        let metadata = match s.metadata(path) {
            Ok(metadata) => metadata,
            Err(error) => {
                return Err(error.message);
            },
        };
        let target: Option<Vec<u8>> = if metadata.kind_of() == LINK {
            match s.read_link(path) {
                Ok(target) => Some(target),
                Err(error) => {
                    return Err(error);
                },
            }
        } else {
            None
        };
        Ok(
            Entry {
                dev: metadata.dev,
                ino: metadata.ino,
                mode: metadata.mode,
                size: metadata.size,
                links: metadata.links,
                modified: metadata.modified,
                changed: metadata.changed,
                target,
            },
        )
    }

    /// Nothing tells the two states apart.
    pub fn is_alike(&self, other: &Entry) -> (r: bool)
        ensures
            r == self@.alike(other@),
    {
        let targets: bool = match (&self.target, &other.target) {
            (Some(a), Some(b)) => same_path(a.as_slice(), b.as_slice()),
            (None, None) => true,
            _ => false,
        };
        self.dev == other.dev && self.ino == other.ino && self.mode == other.mode && self.size
            == other.size && self.links == other.links && self.modified == other.modified
            && self.changed == other.changed && targets
    }

    /// What it is the state of.
    pub fn kind_of(&self) -> (r: u32)
        ensures
            r == self@.kind(),
    {
        self.mode & KIND_BITS
    }
}

/// A path below a donor, and its state.
pub struct Item {
    pub path: Vec<u8>,
    pub entry: Entry,
}

/// The model of an [`Item`].
#[verifier::ext_equal]
pub struct ItemView {
    pub path: Seq<u8>,
    pub entry: EntryState,
}

impl View for Item {
    type V = ItemView;

    open spec fn view(&self) -> ItemView {
        ItemView { path: self.path@, entry: self.entry@ }
    }
}

/// The views of a list of items.
pub open spec fn item_views(v: Seq<Item>) -> Seq<ItemView> {
    v.map_values(|x: Item| x@)
}

/// The state of every path of a donor, each directory before what is in it and
/// names in order. It detects changes; it is no transactional snapshot.
pub struct Snapshot {
    pub donor: Vec<u8>,
    pub items: Vec<Item>,
}

/// The model of a [`Snapshot`].
#[verifier::ext_equal]
pub struct SnapshotView {
    pub donor: Seq<u8>,
    pub items: Seq<ItemView>,
}

impl View for Snapshot {
    type V = SnapshotView;

    open spec fn view(&self) -> SnapshotView {
        SnapshotView { donor: self.donor@, items: item_views(self.items@) }
    }
}

// ---------------------------------------------------------------------------
// Recording
// ---------------------------------------------------------------------------

/// Whether a directory is a repository: it has a `.git`, or looks like one
/// inside.
pub open spec fn nested_at(l: Seq<Event>, i: int, path: Seq<u8>) -> (bool, int) {
    let (git, i) = metadata_at(l, i, joined(path, utf8(".git"@)));
    if git is Ok {
        (true, i)
    } else {
        let (head, i) = is_file_at(l, i, joined(path, utf8("HEAD"@)));
        if !head {
            (false, i)
        } else {
            let (objects, i) = is_directory_at(l, i, joined(path, utf8("objects"@)));
            if !objects {
                (false, i)
            } else {
                is_directory_at(l, i, joined(path, utf8("refs"@)))
            }
        }
    }
}

fn is_nested<H: Host>(s: &mut Session<H>, path: &[u8]) -> (r: bool)
    ensures
        extends(final(s).log(), old(s).log()),
        forall|l: Seq<Event>|
            extends(l, final(s).log()) ==> #[trigger] nested_at(
                l,
                old(s).log().len() as int,
                path@,
            ) == (r, final(s).log().len() as int),
{
    if s.metadata(join(path, utf8_of(".git")).as_slice()).is_ok() {
        return true;
    }
    if !s.is_file(join(path, utf8_of("HEAD")).as_slice()) {
        return false;
    }
    if !s.is_directory(join(path, utf8_of("objects")).as_slice()) {
        return false;
    }
    s.is_directory(join(path, utf8_of("refs")).as_slice())
}

/// How deep directories may be nested.
pub const MAX_DEPTH: u32 = 0xffff_ffff;

/// Records what is at `relative` and below it, behind `found`.
pub open spec fn scan_at(
    l: Seq<Event>,
    i: int,
    root: Seq<u8>,
    relative: Seq<u8>,
    depth: nat,
    found: Seq<ItemView>,
) -> (Result<Seq<ItemView>, Seq<char>>, int)
    decreases depth, 1nat, 0nat,
{
    let path = joined(root, relative);
    let (entry, i) = entry_at(l, i, path);
    match entry {
        Err(error) => (Err(error), i),
        Ok(entry) => {
            let found = found.push(ItemView { path: relative, entry });
            if entry.kind() != DIRECTORY {
                (Ok(found), i)
            } else {
                let (nested, i) = if relative.len() == 0 {
                    (false, i)
                } else {
                    nested_at(l, i, path)
                };
                if nested {
                    (Err("nested repository: "@ + lossy_text(relative)), i)
                } else {
                    let (names, i) = entry_names_at(l, i, path);
                    match names {
                        Err(error) => (Err(error), i),
                        Ok(names) => children_at(
                            l,
                            i,
                            root,
                            relative,
                            ordered(names),
                            0,
                            depth,
                            found,
                        ),
                    }
                }
            }
        },
    }
}

/// Records the children of a directory from number `k` on, behind `found`. The
/// `.git` of the donor itself is none.
pub open spec fn children_at(
    l: Seq<Event>,
    i: int,
    root: Seq<u8>,
    relative: Seq<u8>,
    names: Seq<Seq<u8>>,
    k: nat,
    depth: nat,
    found: Seq<ItemView>,
) -> (Result<Seq<ItemView>, Seq<char>>, int)
    decreases depth, 0nat, names.len() - k,
{
    if k >= names.len() {
        (Ok(found), i)
    } else if relative.len() == 0 && names[k as int] == utf8(".git"@) {
        children_at(l, i, root, relative, names, k + 1, depth, found)
    } else if depth == 0 {
        (Err("directories are nested too deeply"@), i)
    } else {
        let (r, i) = scan_at(
            l,
            i,
            root,
            joined(relative, names[k as int]),
            (depth - 1) as nat,
            found,
        );
        match r {
            Err(error) => (Err(error), i),
            Ok(found) => children_at(l, i, root, relative, names, k + 1, depth, found),
        }
    }
}

pub proof fn lemma_children_step(
    l: Seq<Event>,
    i: int,
    root: Seq<u8>,
    relative: Seq<u8>,
    names: Seq<Seq<u8>>,
    k: nat,
    depth: nat,
    found: Seq<ItemView>,
)
    requires
        k < names.len(),
        !(relative.len() == 0 && names[k as int] == utf8(".git"@)),
        depth > 0,
    ensures
        children_at(l, i, root, relative, names, k, depth, found) == ({
            let (r, j) = scan_at(
                l,
                i,
                root,
                joined(relative, names[k as int]),
                (depth - 1) as nat,
                found,
            );
            match r {
                Err(error) => (Err::<Seq<ItemView>, Seq<char>>(error), j),
                Ok(more) => children_at(l, j, root, relative, names, k + 1, depth, more),
            }
        }),
{
}

/// The items that a scan has found, or why it stopped.
pub open spec fn scanned(r: Result<(), String>, items: Seq<Item>) -> Result<
    Seq<ItemView>,
    Seq<char>,
> {
    match r {
        Ok(_) => Ok(item_views(items)),
        Err(error) => Err(error@),
    }
}

fn scan<H: Host>(
    s: &mut Session<H>,
    root: &[u8],
    relative: &[u8],
    depth: u32,
    found: &mut Vec<Item>,
) -> (r: Result<(), String>)
    ensures
        extends(final(s).log(), old(s).log()),
        forall|l: Seq<Event>|
            extends(l, final(s).log()) ==> #[trigger] scan_at(
                l,
                old(s).log().len() as int,
                root@,
                relative@,
                depth as nat,
                item_views(old(found)@),
            ) == (scanned(r, final(found)@), final(s).log().len() as int),
    decreases depth,
{
    let path = join(root, relative);
    let ghost from = s.log().len() as int;
    let ghost start = item_views(found@);
    let entry = match Entry::read(s, path.as_slice()) {
        Ok(entry) => entry,
        Err(error) => {
            return Err(error);
        },
    };
    let directory = entry.kind_of() == DIRECTORY;
    let item = Item { path: copy(relative), entry };
    let ghost shown = item@;
    found.push(item);
    assert(item_views(found@) =~= start.push(shown));
    if !directory {
        return Ok(());
    }
    if relative.len() > 0 && is_nested(s, path.as_slice()) {
        return Err(text2("nested repository: ", lossy(relative).as_str()));
    }
    let names = match s.entry_names(path.as_slice()) {
        Ok(names) => names,
        Err(error) => {
            return Err(error);
        },
    };
    let names = sort_names(&names);
    let ghost all = views(names@);
    let n: usize = names.len();
    assert(all.len() == n);
    for k in 0..n
        invariant
            n == names@.len(),
            n == all.len(),
            all == views(names@),
            from == old(s).log().len(),
            start == item_views(old(found)@),
            extends(s.log(), old(s).log()),
            forall|l: Seq<Event>|
                extends(l, s.log()) ==> #[trigger] scan_at(
                    l,
                    from,
                    root@,
                    relative@,
                    depth as nat,
                    start,
                ) == children_at(
                    l,
                    s.log().len() as int,
                    root@,
                    relative@,
                    all,
                    k as nat,
                    depth as nat,
                    item_views(found@),
                ),
    {
        let name = names[k].as_slice();
        assert(all[k as int] == name@);
        if !(relative.len() == 0 && same_bytes(name, utf8_of(".git"))) {
            if depth == 0 {
                return Err("directories are nested too deeply".to_owned());
            }
            let ghost at = s.log();
            let ghost so_far = item_views(found@);
            let outcome = scan(s, root, join(relative, name).as_slice(), depth - 1, found);
            assert forall|l: Seq<Event>| extends(l, s.log()) implies #[trigger] scan_at(
                l,
                from,
                root@,
                relative@,
                depth as nat,
                start,
            ) == (match scanned(outcome, found@) {
                Err(error) => (Err::<Seq<ItemView>, Seq<char>>(error), s.log().len() as int),
                Ok(found) => children_at(
                    l,
                    s.log().len() as int,
                    root@,
                    relative@,
                    all,
                    (k + 1) as nat,
                    depth as nat,
                    found,
                ),
            }) by {
                assert(extends(l, at));
                lemma_children_step(
                    l,
                    at.len() as int,
                    root@,
                    relative@,
                    all,
                    k as nat,
                    depth as nat,
                    so_far,
                );
            }
            match outcome {
                Ok(_) => {},
                Err(error) => {
                    return Err(error);
                },
            }
        }
    }
    Ok(())
}

/// Records a donor.
pub open spec fn snapshot_at(l: Seq<Event>, i: int, donor: Seq<u8>) -> (
    Result<SnapshotView, Seq<char>>,
    int,
) {
    let (root, i) = canonicalize_at(l, i, donor);
    match root {
        Err(error) => (Err(error), i),
        Ok(root) => {
            let (items, i) = scan_at(
                l,
                i,
                root,
                Seq::empty(),
                MAX_DEPTH as nat,
                Seq::empty(),
            );
            (
                match items {
                    Ok(items) => Ok(SnapshotView { donor: root, items }),
                    Err(error) => Err(error),
                },
                i,
            )
        },
    }
}

/// Records the state of every path of `donor`.
pub fn snapshot<H: Host>(s: &mut Session<H>, donor: &[u8]) -> (r: Result<Snapshot, String>)
    ensures
        extends(final(s).log(), old(s).log()),
        forall|l: Seq<Event>|
            extends(l, final(s).log()) ==> #[trigger] snapshot_at(
                l,
                old(s).log().len() as int,
                donor@,
            ) == (worded(r), final(s).log().len() as int),
{
    let root = match s.canonicalize(donor) {
        Ok(root) => root,
        Err(error) => {
            return Err(error);
        },
    };
    let mut items: Vec<Item> = Vec::new();
    let relative: Vec<u8> = Vec::new();
    assert(item_views(items@) =~= Seq::<ItemView>::empty());
    match scan(s, root.as_slice(), relative.as_slice(), MAX_DEPTH, &mut items) {
        Ok(_) => Ok(Snapshot { donor: root, items }),
        Err(error) => Err(error),
    }
}

/// Nothing tells the two records apart.
pub open spec fn same_items(a: Seq<ItemView>, b: Seq<ItemView>) -> bool {
    &&& a.len() == b.len()
    &&& forall|k: int|
        0 <= k < a.len() ==> steps((#[trigger] a[k]).path) == steps(b[k].path) && a[k].entry.alike(
            b[k].entry,
        )
}

fn is_same_items(a: &Vec<Item>, b: &Vec<Item>) -> (r: bool)
    ensures
        r == same_items(item_views(a@), item_views(b@)),
{
    let ghost x = item_views(a@);
    let ghost y = item_views(b@);
    if a.len() != b.len() {
        assert(x.len() != y.len());
        return false;
    }
    for k in 0..a.len()
        invariant
            a@.len() == b@.len(),
            x == item_views(a@),
            y == item_views(b@),
            forall|j: int|
                0 <= j < k ==> steps((#[trigger] x[j]).path) == steps(y[j].path)
                    && x[j].entry.alike(y[j].entry),
    {
        let ghost at = k as int;
        assert(x[at] == a@[at]@ && y[at] == b@[at]@);
        if !(same_path(a[k].path.as_slice(), b[k].path.as_slice()) && a[k].entry.is_alike(
            &b[k].entry,
        )) {
            return false;
        }
    }
    true
}

/// Records a donor once more and compares.
pub open spec fn verify_unchanged_at(l: Seq<Event>, i: int, before: SnapshotView) -> (
    Option<Seq<char>>,
    int,
) {
    let (after, i) = snapshot_at(l, i, before.donor);
    (
        match after {
            Err(error) => Some(error),
            Ok(after) => if same_items(before.items, after.items) {
                None
            } else {
                Some("donor filesystem changed during inheritance"@)
            },
        },
        i,
    )
}

/// The donor is still as it was recorded.
pub fn verify_unchanged<H: Host>(s: &mut Session<H>, before: &Snapshot) -> (r: Result<(), String>)
    ensures
        extends(final(s).log(), old(s).log()),
        forall|l: Seq<Event>|
            extends(l, final(s).log()) ==> #[trigger] verify_unchanged_at(
                l,
                old(s).log().len() as int,
                before@,
            ) == (fault(r), final(s).log().len() as int),
{
    match snapshot(s, before.donor.as_slice()) {
        Err(error) => Err(error),
        Ok(after) => if is_same_items(&before.items, &after.items) {
            Ok(())
        } else {
            Err("donor filesystem changed during inheritance".to_owned())
        },
    }
}

// ---------------------------------------------------------------------------
// Where a link leads
// ---------------------------------------------------------------------------

/// A step as a path of its own.
pub open spec fn step_text(step: Step) -> Seq<u8> {
    match step {
        Step::Root => seq![SLASH],
        Step::Current => crate::path::dot(),
        Step::Parent => crate::path::dot_dot(),
        Step::Normal(name) => name,
    }
}

/// The steps as a path.
pub open spec fn glued(rest: Seq<Step>) -> Seq<u8>
    decreases rest.len(),
{
    if rest.len() == 0 {
        Seq::empty()
    } else {
        joined(glued(rest.drop_last()), step_text(rest.last()))
    }
}

/// What follows `prefix` in `path`, where `path` starts with it.
pub open spec fn rest_of(path: Seq<u8>, prefix: Seq<u8>) -> Option<Seq<u8>> {
    if begins(steps(path), steps(prefix)) {
        Some(glued(steps(path).skip(steps(prefix).len() as int)))
    } else {
        None
    }
}

/// What follows `prefix` in `path`, where `path` starts with it.
pub fn strip_prefix(path: &[u8], prefix: &[u8]) -> (r: Option<Vec<u8>>)
    ensures
        bytes_if(r) == rest_of(path@, prefix@),
{
    if !path_starts_with(path, prefix) {
        return None;
    }
    let all = components(path);
    let front: usize = components(prefix).len();
    let ghost rest = steps(path@).skip(front as int);
    assert(component_views(all@).len() == all@.len());
    let mut out: Vec<u8> = Vec::new();
    let n: usize = all.len();
    assert(rest.take(0) =~= Seq::<Step>::empty());
    for k in front..n
        invariant
            front <= n == all@.len(),
            component_views(all@) == steps(path@),
            rest == steps(path@).skip(front as int),
            out@ == glued(rest.take(k - front)),
    {
        assert(rest.take(k - front + 1).drop_last() =~= rest.take(k - front));
        assert(rest.take(k - front + 1).last() == component_views(all@)[k as int]);
        let text: Vec<u8> = match &all[k] {
            Component::Root => {
                let mut root: Vec<u8> = Vec::new();
                root.push(SLASH);
                assert(root@ =~= seq![SLASH]);
                root
            },
            Component::Current => {
                let mut here: Vec<u8> = Vec::new();
                here.push(crate::path::DOT);
                assert(here@ =~= crate::path::dot());
                here
            },
            Component::Parent => {
                let mut above: Vec<u8> = Vec::new();
                above.push(crate::path::DOT);
                above.push(crate::path::DOT);
                assert(above@ =~= crate::path::dot_dot());
                above
            },
            Component::Normal(name) => copy(name.as_slice()),
        };
        out = join(out.as_slice(), text.as_slice());
    }
    assert(rest.take(n - front) =~= rest);
    Some(out)
}

/// A path without its last component, where it has one above it.
pub open spec fn popped(path: Seq<u8>) -> Seq<u8> {
    match parent_of(path) {
        Some(above) => above,
        None => path,
    }
}

fn pop(path: Vec<u8>) -> (r: Vec<u8>)
    ensures
        r@ == popped(path@),
{
    match parent(path.as_slice()) {
        Some(above) => above,
        None => path,
    }
}

/// Where the steps from number `k` on lead from `resolved`, each link on the
/// way followed before the step behind it. A path below `destination` is looked
/// up in `donor`. No more than `budget` links are followed; what is left of it
/// is the second part of the result.
pub open spec fn walk_from(
    l: Seq<Event>,
    i: int,
    way: Seq<Step>,
    k: nat,
    resolved: Seq<u8>,
    budget: nat,
    destination: Seq<u8>,
    donor: Seq<u8>,
) -> (Result<(Seq<u8>, nat), Seq<char>>, int)
    decreases budget, way.len() - k,
{
    if k >= way.len() {
        (Ok((resolved, budget)), i)
    } else {
        match way[k as int] {
            Step::Root => walk_from(
                l,
                i,
                way,
                k + 1,
                joined(resolved, seq![SLASH]),
                budget,
                destination,
                donor,
            ),
            Step::Current => walk_from(l, i, way, k + 1, resolved, budget, destination, donor),
            Step::Parent => walk_from(
                l,
                i,
                way,
                k + 1,
                popped(resolved),
                budget,
                destination,
                donor,
            ),
            Step::Normal(part) => {
                let reached = joined(resolved, part);
                let lookup = looked_up(reached, destination, donor);
                let (metadata, i) = metadata_at(l, i, lookup);
                match metadata {
                    Err(error) => if error.kind == IoErrorKind::NotFound {
                        walk_from(l, i, way, k + 1, reached, budget, destination, donor)
                    } else {
                        (Err(error.message), i)
                    },
                    Ok(metadata) => if metadata.kind() != LINK {
                        walk_from(l, i, way, k + 1, reached, budget, destination, donor)
                    } else if budget == 0 {
                        (Err("symlink resolution loop"@), i)
                    } else {
                        let (raw, i) = read_link_at(l, i, lookup);
                        match raw {
                            Err(error) => (Err(error), i),
                            Ok(raw) => {
                                let (inner, i) = walk_from(
                                    l,
                                    i,
                                    steps(joined(popped(reached), raw)),
                                    0,
                                    Seq::empty(),
                                    (budget - 1) as nat,
                                    destination,
                                    donor,
                                );
                                match inner {
                                    Err(error) => (Err(error), i),
                                    Ok((end, left)) => if left >= budget {
                                        arbitrary()
                                    } else {
                                        walk_from(
                                            l,
                                            i,
                                            way,
                                            k + 1,
                                            end,
                                            left,
                                            destination,
                                            donor,
                                        )
                                    },
                                }
                            },
                        }
                    },
                }
            },
        }
    }
}

/// Where a path is looked up: in the donor, where it is one below the
/// destination.
pub open spec fn looked_up(path: Seq<u8>, destination: Seq<u8>, donor: Seq<u8>) -> Seq<u8> {
    match rest_of(path, destination) {
        Some(rest) => joined(donor, rest),
        None => path,
    }
}

/// Where `path` leads, with `budget` links to follow.
pub open spec fn walk_at(
    l: Seq<Event>,
    i: int,
    path: Seq<u8>,
    budget: nat,
    destination: Seq<u8>,
    donor: Seq<u8>,
) -> (Result<(Seq<u8>, nat), Seq<char>>, int) {
    walk_from(l, i, steps(path), 0, Seq::empty(), budget, destination, donor)
}

/// How far a walk came, or why it stopped.
pub open spec fn walked(r: Result<(Vec<u8>, u32), String>) -> Result<(Seq<u8>, nat), Seq<char>> {
    match r {
        Ok((path, left)) => Ok((path@, left as nat)),
        Err(error) => Err(error@),
    }
}

pub proof fn lemma_walk_link(
    l: Seq<Event>,
    i: int,
    way: Seq<Step>,
    k: nat,
    resolved: Seq<u8>,
    budget: nat,
    destination: Seq<u8>,
    donor: Seq<u8>,
)
    requires
        k < way.len(),
        way[k as int] is Normal,
        budget > 0,
    ensures
        ({
            let reached = joined(resolved, way[k as int]->Normal_0);
            let lookup = looked_up(reached, destination, donor);
            let (metadata, j) = metadata_at(l, i, lookup);
            let (raw, j) = read_link_at(l, j, lookup);
            let (inner, j) = walk_at(
                l,
                j,
                joined(popped(reached), raw->Ok_0),
                (budget - 1) as nat,
                destination,
                donor,
            );
            metadata is Ok && metadata->Ok_0.kind() == LINK && raw is Ok ==> walk_from(
                l,
                i,
                way,
                k,
                resolved,
                budget,
                destination,
                donor,
            ) == (match inner {
                Err(error) => (Err::<(Seq<u8>, nat), Seq<char>>(error), j),
                Ok((end, left)) => if left >= budget {
                    arbitrary()
                } else {
                    walk_from(l, j, way, k + 1, end, left, destination, donor)
                },
            })
        }),
{
}

fn walk<H: Host>(
    s: &mut Session<H>,
    path: &[u8],
    budget: u32,
    destination: &[u8],
    donor: &[u8],
) -> (r: Result<(Vec<u8>, u32), String>)
    ensures
        extends(final(s).log(), old(s).log()),
        forall|l: Seq<Event>|
            extends(l, final(s).log()) ==> #[trigger] walk_at(
                l,
                old(s).log().len() as int,
                path@,
                budget as nat,
                destination@,
                donor@,
            ) == (walked(r), final(s).log().len() as int),
        r matches Ok((_, left)) ==> left <= budget,
    decreases budget,
{
    let way = components(path);
    let ghost plan = steps(path@);
    let ghost from = s.log().len() as int;
    let n: usize = way.len();
    assert(component_views(way@).len() == n);
    let mut resolved: Vec<u8> = Vec::new();
    let mut left: u32 = budget;
    assert(resolved@ =~= Seq::<u8>::empty());
    for k in 0..n
        invariant
            n == way@.len(),
            n == plan.len(),
            component_views(way@) == plan,
            plan == steps(path@),
            from == old(s).log().len(),
            left <= budget,
            extends(s.log(), old(s).log()),
            forall|l: Seq<Event>|
                extends(l, s.log()) ==> #[trigger] walk_at(
                    l,
                    from,
                    path@,
                    budget as nat,
                    destination@,
                    donor@,
                ) == walk_from(
                    l,
                    s.log().len() as int,
                    plan,
                    k as nat,
                    resolved@,
                    left as nat,
                    destination@,
                    donor@,
                ),
    {
        assert(plan[k as int] == way@[k as int]@);
        match &way[k] {
            Component::Root => {
                let mut root: Vec<u8> = Vec::new();
                root.push(SLASH);
                assert(root@ =~= seq![SLASH]);
                resolved = join(resolved.as_slice(), root.as_slice());
            },
            Component::Current => {},
            Component::Parent => {
                resolved = pop(resolved);
            },
            Component::Normal(part) => {
                let ghost at = s.log();
                let ghost before = resolved@;
                let ghost had = left;
                resolved = join(resolved.as_slice(), part.as_slice());
                let lookup = match strip_prefix(resolved.as_slice(), destination) {
                    Some(rest) => join(donor, rest.as_slice()),
                    None => copy(resolved.as_slice()),
                };
                match s.metadata(lookup.as_slice()) {
                    Err(error) => {
                        if error.kind != IoErrorKind::NotFound {
                            return Err(error.message);
                        }
                    },
                    Ok(metadata) => {
                        if metadata.kind_of() == LINK {
                            if left == 0 {
                                return Err("symlink resolution loop".to_owned());
                            }
                            let raw = match s.read_link(lookup.as_slice()) {
                                Ok(raw) => raw,
                                Err(error) => {
                                    return Err(error);
                                },
                            };
                            let above = pop(resolved);
                            let outcome = walk(
                                s,
                                join(above.as_slice(), raw.as_slice()).as_slice(),
                                left - 1,
                                destination,
                                donor,
                            );
                            assert forall|l: Seq<Event>|
                                extends(l, s.log()) implies #[trigger] walk_at(
                                l,
                                from,
                                path@,
                                budget as nat,
                                destination@,
                                donor@,
                            ) == (match walked(outcome) {
                                Err(error) => (
                                    Err::<(Seq<u8>, nat), Seq<char>>(error),
                                    s.log().len() as int,
                                ),
                                Ok((end, more)) => walk_from(
                                    l,
                                    s.log().len() as int,
                                    plan,
                                    (k + 1) as nat,
                                    end,
                                    more,
                                    destination@,
                                    donor@,
                                ),
                            }) by {
                                assert(extends(l, at));
                                lemma_walk_link(
                                    l,
                                    at.len() as int,
                                    plan,
                                    k as nat,
                                    before,
                                    had as nat,
                                    destination@,
                                    donor@,
                                );
                            }
                            match outcome {
                                Ok((end, more)) => {
                                    resolved = end;
                                    left = more;
                                },
                                Err(error) => {
                                    return Err(error);
                                },
                            }
                        }
                    },
                }
            },
        }
    }
    Ok((resolved, left))
}

/// The most links that are followed to see where one leads.
pub const MAX_LINKS: u32 = 40;

/// Where a link leads, seen from the destination.
pub open spec fn resolve_link_target_at(
    l: Seq<Event>,
    i: int,
    path: Seq<u8>,
    destination: Seq<u8>,
    donor: Seq<u8>,
) -> (Result<Seq<u8>, Seq<char>>, int) {
    let (r, i) = walk_at(l, i, path, MAX_LINKS as nat, destination, donor);
    (
        match r {
            Ok((end, _)) => Ok(end),
            Err(error) => Err(error),
        },
        i,
    )
}

/// Where `path` leads once `donor` has been copied to `destination`: links are
/// followed, and what does not exist stays as it is written.
pub fn resolve_link_target<H: Host>(
    s: &mut Session<H>,
    path: &[u8],
    destination: &[u8],
    donor: &[u8],
) -> (r: Result<Vec<u8>, String>)
    ensures
        extends(final(s).log(), old(s).log()),
        forall|l: Seq<Event>|
            extends(l, final(s).log()) ==> #[trigger] resolve_link_target_at(
                l,
                old(s).log().len() as int,
                path@,
                destination@,
                donor@,
            ) == (worded(r), final(s).log().len() as int),
{
    match walk(s, path, MAX_LINKS, destination, donor) {
        Ok((end, _)) => Ok(end),
        Err(error) => Err(error),
    }
}

// ---------------------------------------------------------------------------
// Copying
// ---------------------------------------------------------------------------

/// What was inherited, and how.
pub struct Report {
    pub cow_files: usize,
    pub copied_files: usize,
    pub hardlinks: usize,
    pub skipped_special: Vec<Vec<u8>>,
    pub symlinks: Vec<Vec<u8>>,
    pub donor_links: Vec<Vec<u8>>,
    pub warnings: Vec<String>,
}

/// The model of a [`Report`].
#[verifier::ext_equal]
pub struct ReportView {
    pub cow_files: int,
    pub copied_files: int,
    pub hardlinks: int,
    pub skipped_special: Seq<Seq<u8>>,
    pub symlinks: Seq<Seq<u8>>,
    pub donor_links: Seq<Seq<u8>>,
    pub warnings: Seq<Seq<char>>,
}

impl View for Report {
    type V = ReportView;

    open spec fn view(&self) -> ReportView {
        ReportView {
            cow_files: self.cow_files as int,
            copied_files: self.copied_files as int,
            hardlinks: self.hardlinks as int,
            skipped_special: views(self.skipped_special@),
            symlinks: views(self.symlinks@),
            donor_links: views(self.donor_links@),
            warnings: text_views(self.warnings@),
        }
    }
}

/// A report of nothing but the links into the donor.
pub open spec fn fresh_report(donor_links: Seq<Seq<u8>>) -> ReportView {
    ReportView {
        cow_files: 0,
        copied_files: 0,
        hardlinks: 0,
        skipped_special: Seq::empty(),
        symlinks: Seq::empty(),
        donor_links,
        warnings: Seq::empty(),
    }
}

/// A file as its device and its number on it.
pub open spec fn file_key(dev: u64, ino: u64) -> u128 {
    (dev as int * 0x1_0000_0000_0000_0000 + ino as int) as u128
}

fn key_of(dev: u64, ino: u64) -> (r: u128)
    ensures
        r == file_key(dev, ino),
{
    dev as u128 * 0x1_0000_0000_0000_0000u128 + ino as u128
}

/// The first copy of each file.
pub struct Firsts {
    pub paths: BTreeMap<u128, Vec<u8>>,
}

impl Firsts {
    /// The first copy of each file.
    pub open spec fn view(&self) -> Map<u128, Seq<u8>> {
        self.paths@.map_values(|path: Vec<u8>| path@)
    }

    /// No file was copied yet.
    pub fn new() -> (r: Self)
        ensures
            r@ == Map::<u128, Seq<u8>>::empty(),
    {
        let r = Firsts { paths: BTreeMap::new() };
        assert(r@ =~= Map::<u128, Seq<u8>>::empty());
        r
    }

    /// The first copy of a file.
    pub fn get(&self, key: u128) -> (r: Option<Vec<u8>>)
        ensures
            match r {
                Some(path) => self@.contains_key(key) && self@[key] == path@,
                None => !self@.contains_key(key),
            },
    {
        broadcast use vstd::std_specs::btree::group_btree_axioms;

        match self.paths.get(&key) {
            Some(path) => Some(copy(path.as_slice())),
            None => None,
        }
    }

    /// Notes the first copy of a file.
    pub fn insert(&mut self, key: u128, path: Vec<u8>)
        ensures
            final(self)@ == old(self)@.insert(key, path@),
    {
        broadcast use vstd::std_specs::btree::group_btree_axioms;

        let ghost shown = path@;
        let ghost before = self@;
        let _ = self.paths.insert(key, path);
        assert(self@ =~= before.insert(key, shown));
    }
}

/// `path` is one of the links.
pub open spec fn is_target(links: Seq<Seq<u8>>, path: Seq<u8>) -> bool {
    exists|k: int| 0 <= k < links.len() && steps(#[trigger] links[k]) == steps(path)
}

/// `path` is one of the links, or below one.
pub open spec fn under_target(links: Seq<Seq<u8>>, path: Seq<u8>) -> bool {
    exists|k: int| 0 <= k < links.len() && begins(steps(path), steps(#[trigger] links[k]))
}

fn is_one_of(links: &Vec<Vec<u8>>, path: &[u8]) -> (r: bool)
    ensures
        r == is_target(views(links@), path@),
{
    for k in 0..links.len()
        invariant
            forall|j: int| 0 <= j < k ==> steps(#[trigger] views(links@)[j]) != steps(path@),
    {
        assert(views(links@)[k as int] == links@[k as int]@);
        if same_path(links[k].as_slice(), path) {
            return true;
        }
    }
    false
}

fn is_under_one(links: &Vec<Vec<u8>>, path: &[u8]) -> (r: bool)
    ensures
        r == under_target(views(links@), path@),
{
    for k in 0..links.len()
        invariant
            forall|j: int|
                0 <= j < k ==> !begins(steps(path@), steps(#[trigger] views(links@)[j])),
    {
        assert(views(links@)[k as int] == links@[k as int]@);
        if path_starts_with(path, links[k].as_slice()) {
            return true;
        }
    }
    false
}

/// The link `item` as a path to follow at the destination.
pub open spec fn link_path(destination: Seq<u8>, relative: Seq<u8>, raw: Seq<u8>) -> Seq<u8> {
    joined(popped(joined(destination, relative)), raw)
}

/// The links among the items from number `k` on that would lead into the
/// donor, behind `found`. Without leave, the first such link ends it.
pub open spec fn donor_links_from(
    l: Seq<Event>,
    i: int,
    items: Seq<ItemView>,
    k: nat,
    destination: Seq<u8>,
    donor: Seq<u8>,
    links: Seq<Seq<u8>>,
    allow_donor_links: bool,
    found: Seq<Seq<u8>>,
) -> (Result<Seq<Seq<u8>>, Seq<char>>, int)
    decreases items.len() - k,
{
    if k >= items.len() {
        (Ok(found), i)
    } else {
        let item = items[k as int];
        if is_target(links, item.path) || item.entry.target is None {
            donor_links_from(
                l,
                i,
                items,
                k + 1,
                destination,
                donor,
                links,
                allow_donor_links,
                found,
            )
        } else {
            let (end, i) = resolve_link_target_at(
                l,
                i,
                link_path(destination, item.path, item.entry.target->0),
                destination,
                donor,
            );
            match end {
                Err(error) => (
                    Err("resolve symlink "@ + lossy_text(item.path) + ": "@ + error),
                    i,
                ),
                Ok(end) => if !begins(steps(end), steps(donor)) {
                    donor_links_from(
                        l,
                        i,
                        items,
                        k + 1,
                        destination,
                        donor,
                        links,
                        allow_donor_links,
                        found,
                    )
                } else if !allow_donor_links {
                    (Err("inherited symlink points into donor: "@ + lossy_text(item.path)), i)
                } else {
                    donor_links_from(
                        l,
                        i,
                        items,
                        k + 1,
                        destination,
                        donor,
                        links,
                        allow_donor_links,
                        found.push(item.path),
                    )
                },
            }
        }
    }
}

/// The links that would lead into the donor.
pub open spec fn donor_links_at(
    l: Seq<Event>,
    i: int,
    items: Seq<ItemView>,
    destination: Seq<u8>,
    donor: Seq<u8>,
    links: Seq<Seq<u8>>,
    allow_donor_links: bool,
) -> (Result<Seq<Seq<u8>>, Seq<char>>, int) {
    donor_links_from(
        l,
        i,
        items,
        0,
        destination,
        donor,
        links,
        allow_donor_links,
        Seq::empty(),
    )
}

/// The view of paths, or of why there are none.
pub open spec fn paths_found(r: Result<Vec<Vec<u8>>, String>) -> Result<Seq<Seq<u8>>, Seq<char>> {
    match r {
        Ok(paths) => Ok(views(paths@)),
        Err(error) => Err(error@),
    }
}

fn find_donor_links<H: Host>(
    s: &mut Session<H>,
    before: &Snapshot,
    destination: &[u8],
    links: &Vec<Vec<u8>>,
    allow_donor_links: bool,
) -> (r: Result<Vec<Vec<u8>>, String>)
    ensures
        extends(final(s).log(), old(s).log()),
        forall|l: Seq<Event>|
            extends(l, final(s).log()) ==> #[trigger] donor_links_at(
                l,
                old(s).log().len() as int,
                before@.items,
                destination@,
                before@.donor,
                views(links@),
                allow_donor_links,
            ) == (paths_found(r), final(s).log().len() as int),
{
    let mut found: Vec<Vec<u8>> = Vec::new();
    let ghost from = s.log().len() as int;
    let ghost items = before@.items;
    let n: usize = before.items.len();
    assert(items.len() == n);
    assert(views(found@) =~= Seq::<Seq<u8>>::empty());
    for k in 0..n
        invariant
            n == before.items@.len(),
            n == items.len(),
            items == item_views(before.items@),
            items == before@.items,
            from == old(s).log().len(),
            extends(s.log(), old(s).log()),
            forall|l: Seq<Event>|
                extends(l, s.log()) ==> #[trigger] donor_links_at(
                    l,
                    from,
                    items,
                    destination@,
                    before@.donor,
                    views(links@),
                    allow_donor_links,
                ) == donor_links_from(
                    l,
                    s.log().len() as int,
                    items,
                    k as nat,
                    destination@,
                    before@.donor,
                    views(links@),
                    allow_donor_links,
                    views(found@),
                ),
    {
        let item = &before.items[k];
        assert(items[k as int] == item@);
        match &item.entry.target {
            None => {},
            Some(raw) => {
                if !is_one_of(links, item.path.as_slice()) {
                    let above = pop(join(destination, item.path.as_slice()));
                    let path = join(above.as_slice(), raw.as_slice());
                    let end = match resolve_link_target(
                        s,
                        path.as_slice(),
                        destination,
                        before.donor.as_slice(),
                    ) {
                        Ok(end) => end,
                        Err(error) => {
                            return Err(
                                text4(
                                    "resolve symlink ",
                                    lossy(item.path.as_slice()).as_str(),
                                    ": ",
                                    error.as_str(),
                                ),
                            );
                        },
                    };
                    if path_starts_with(end.as_slice(), before.donor.as_slice()) {
                        if !allow_donor_links {
                            return Err(
                                text2(
                                    "inherited symlink points into donor: ",
                                    lossy(item.path.as_slice()).as_str(),
                                ),
                            );
                        }
                        let ghost so_far = views(found@);
                        found.push(copy(item.path.as_slice()));
                        assert(views(found@) =~= so_far.push(item.path@));
                    }
                }
            },
        }
    }
    Ok(found)
}

/// Gives a copy the mode, unless it is a link, and the times of the original.
pub open spec fn preserve_metadata_at(
    l: Seq<Event>,
    i: int,
    target: Seq<u8>,
    metadata: Metadata,
    link: bool,
) -> (Option<Seq<char>>, int) {
    let (mode, i) = if link {
        (None, i)
    } else {
        set_mode_at(l, i, target, metadata.mode & 0o1777u32)
    };
    match mode {
        Some(error) => (Some(error), i),
        None => set_times_at(l, i, target, metadata.accessed, metadata.modified),
    }
}

fn preserve_metadata<H: Host>(
    s: &mut Session<H>,
    target: &[u8],
    metadata: &Metadata,
    link: bool,
) -> (r: Result<(), String>)
    ensures
        extends(final(s).log(), old(s).log()),
        forall|l: Seq<Event>|
            extends(l, final(s).log()) ==> #[trigger] preserve_metadata_at(
                l,
                old(s).log().len() as int,
                target@,
                *metadata,
                link,
            ) == (fault(r), final(s).log().len() as int),
{
    if !link {
        match s.set_mode(target, metadata.mode & 0o1777) {
            Ok(_) => {},
            Err(error) => {
                return Err(error);
            },
        }
    }
    s.set_times(target, metadata.accessed, metadata.modified)
}

/// Gives a copy what its original has.
pub open spec fn preserve_from_at(
    l: Seq<Event>,
    i: int,
    source: Seq<u8>,
    target: Seq<u8>,
    link: bool,
) -> (Option<Seq<char>>, int) {
    let (metadata, i) = metadata_at(l, i, source);
    match metadata {
        Err(error) => (Some(error.message), i),
        Ok(metadata) => preserve_metadata_at(l, i, target, metadata, link),
    }
}

fn preserve_from<H: Host>(s: &mut Session<H>, source: &[u8], target: &[u8], link: bool) -> (r:
    Result<(), String>)
    ensures
        extends(final(s).log(), old(s).log()),
        forall|l: Seq<Event>|
            extends(l, final(s).log()) ==> #[trigger] preserve_from_at(
                l,
                old(s).log().len() as int,
                source@,
                target@,
                link,
            ) == (fault(r), final(s).log().len() as int),
{
    match s.metadata(source) {
        Err(error) => Err(error.message),
        Ok(metadata) => preserve_metadata(s, target, &metadata, link),
    }
}

/// What was copied so far.
pub struct Progress {
    pub report: Report,
    pub firsts: Firsts,
}

/// The model of [`Progress`].
#[verifier::ext_equal]
pub struct ProgressView {
    pub report: ReportView,
    pub firsts: Map<u128, Seq<u8>>,
}

impl View for Progress {
    type V = ProgressView;

    open spec fn view(&self) -> ProgressView {
        ProgressView { report: self.report@, firsts: self.firsts@ }
    }
}

/// The warning about a physical copy.
pub open spec fn copy_warning(relative: Seq<u8>) -> Seq<char> {
    "physical copy "@ + lossy_text(relative) + ": sparse layout and extended metadata may differ"@
}

/// Copies the contents of a file: as another name of an earlier copy, as a
/// clone, or with leave as a physical copy.
#[verifier::opaque]
pub open spec fn copy_contents_at(
    l: Seq<Event>,
    i: int,
    item: ItemView,
    source: Seq<u8>,
    target: Seq<u8>,
    allow_copy: bool,
    state: ProgressView,
) -> (Result<ProgressView, Seq<char>>, int) {
    let key = file_key(item.entry.dev, item.entry.ino);
    let report = state.report;
    if state.firsts.contains_key(key) {
        let (linked, i) = hard_link_at(l, i, state.firsts[key], target);
        match linked {
            Some(error) => (Err(error), i),
            None => (
                Ok(
                    ProgressView {
                        report: ReportView { hardlinks: report.hardlinks + 1, ..report },
                        ..state
                    },
                ),
                i,
            ),
        }
    } else {
        let firsts = state.firsts.insert(key, target);
        let (cloned, i) = clone_file_at(l, i, source, target);
        match cloned {
            Ok(_) => (
                Ok(
                    ProgressView {
                        report: ReportView { cow_files: report.cow_files + 1, ..report },
                        firsts,
                    },
                ),
                i,
            ),
            Err(error) => if !allow_copy {
                (Err(error), i)
            } else {
                let (copied, i) = copy_new_at(l, i, source, target);
                match copied {
                    Some(CopyFaultView::Create(e)) => (Err(error + "; copy: "@ + e), i),
                    Some(CopyFaultView::Transfer(e)) => (Err(e), i),
                    None => (
                        Ok(
                            ProgressView {
                                report: ReportView {
                                    copied_files: report.copied_files + 1,
                                    warnings: report.warnings.push(copy_warning(item.path)),
                                    ..report
                                },
                                firsts,
                            },
                        ),
                        i,
                    ),
                }
            },
        }
    }
}

/// Copies an item.
#[verifier::opaque]
pub open spec fn copy_item_at(
    l: Seq<Event>,
    i: int,
    item: ItemView,
    destination: Seq<u8>,
    donor: Seq<u8>,
    links: Seq<Seq<u8>>,
    allow_copy: bool,
    state: ProgressView,
) -> (Result<ProgressView, Seq<char>>, int) {
    if item.path.len() == 0 || under_target(links, item.path) {
        (Ok(state), i)
    } else {
        let source = joined(donor, item.path);
        let target = joined(destination, item.path);
        let report = state.report;
        let (now, i) = entry_at(l, i, source);
        match now {
            Err(error) => (Err(error), i),
            Ok(now) => if !now.alike(item.entry) {
                (Err("donor changed before copying "@ + lossy_text(item.path)), i)
            } else if item.entry.kind() == DIRECTORY {
                let (made, i) = create_directory_at(l, i, target);
                match made {
                    Some(error) => (Err(error), i),
                    None => (Ok(state), i),
                }
            } else if item.entry.kind() == REGULAR {
                let (copied, i) = copy_contents_at(l, i, item, source, target, allow_copy, state);
                match copied {
                    Err(error) => (Err(error), i),
                    Ok(state) => {
                        let (preserved, i) = preserve_from_at(l, i, source, target, false);
                        match preserved {
                            Some(error) => (Err(error), i),
                            None => (Ok(state), i),
                        }
                    },
                }
            } else if item.entry.kind() == LINK {
                let (linked, i) = symlink_at(l, i, link_text(item.entry.target), target);
                match linked {
                    Some(error) => (Err(error), i),
                    None => {
                        let (preserved, i) = preserve_from_at(l, i, source, target, true);
                        match preserved {
                            Some(error) => (Err(error), i),
                            None => (
                                Ok(
                                    ProgressView {
                                        report: ReportView {
                                            symlinks: report.symlinks.push(item.path),
                                            ..report
                                        },
                                        ..state
                                    },
                                ),
                                i,
                            ),
                        }
                    },
                }
            } else {
                (
                    Ok(
                        ProgressView {
                            report: ReportView {
                                skipped_special: report.skipped_special.push(item.path),
                                ..report
                            },
                            ..state
                        },
                    ),
                    i,
                )
            },
        }
    }
}

/// The text of a link.
pub open spec fn link_text(target: Option<Seq<u8>>) -> Seq<u8> {
    match target {
        Some(text) => text,
        None => Seq::empty(),
    }
}

/// How far copying came, or why it stopped.
pub open spec fn progressed(r: Result<(), String>, state: Progress) -> Result<
    ProgressView,
    Seq<char>,
> {
    match r {
        Ok(_) => Ok(state@),
        Err(error) => Err(error@),
    }
}

fn copy_contents<H: Host>(
    s: &mut Session<H>,
    item: &Item,
    source: &[u8],
    target: &[u8],
    allow_copy: bool,
    state: &mut Progress,
) -> (r: Result<(), String>)
    requires
        old(state)@.report.cow_files < usize::MAX,
        old(state)@.report.copied_files < usize::MAX,
        old(state)@.report.hardlinks < usize::MAX,
    ensures
        extends(final(s).log(), old(s).log()),
        forall|l: Seq<Event>|
            extends(l, final(s).log()) ==> #[trigger] copy_contents_at(
                l,
                old(s).log().len() as int,
                item@,
                source@,
                target@,
                allow_copy,
                old(state)@,
            ) == (progressed(r, *final(state)), final(s).log().len() as int),
{
    proof {
        reveal(copy_contents_at);
    }
    let key = key_of(item.entry.dev, item.entry.ino);
    let ghost start = state@;
    match state.firsts.get(key) {
        Some(first) => match s.hard_link(first.as_slice(), target) {
            Err(error) => Err(error),
            Ok(_) => {
                state.report.hardlinks = state.report.hardlinks + 1;
                assert(state@ =~= (ProgressView {
                    report: ReportView { hardlinks: start.report.hardlinks + 1, ..start.report },
                    ..start
                }));
                Ok(())
            },
        },
        None => {
            match clone_file(s, source, target) {
                Ok(_) => {
                    state.report.cow_files = state.report.cow_files + 1;
                    state.firsts.insert(key, copy(target));
                    assert(state@ =~= (ProgressView {
                        report: ReportView { cow_files: start.report.cow_files + 1, ..start.report },
                        firsts: start.firsts.insert(
                            file_key(item@.entry.dev, item@.entry.ino),
                            target@,
                        ),
                    }));
                    Ok(())
                },
                Err(error) => {
                    if !allow_copy {
                        return Err(error);
                    }
                    match s.copy_new(source, target) {
                        Err(CopyFault::Create(e)) => Err(
                            text3(error.as_str(), "; copy: ", e.as_str()),
                        ),
                        Err(CopyFault::Transfer(e)) => Err(e),
                        Ok(_) => {
                            state.report.copied_files = state.report.copied_files + 1;
                            let warning = text3(
                                "physical copy ",
                                lossy(item.path.as_slice()).as_str(),
                                ": sparse layout and extended metadata may differ",
                            );
                            let ghost shown = warning@;
                            state.report.warnings.push(warning);
                            assert(text_views(state.report.warnings@)
                                =~= start.report.warnings.push(shown));
                            state.firsts.insert(key, copy(target));
                            assert(state@ =~= (ProgressView {
                                report: ReportView {
                                    copied_files: start.report.copied_files + 1,
                                    warnings: start.report.warnings.push(shown),
                                    ..start.report
                                },
                                firsts: start.firsts.insert(
                                    file_key(item@.entry.dev, item@.entry.ino),
                                    target@,
                                ),
                            }));
                            Ok(())
                        },
                    }
                },
            }
        },
    }
}

/// At most as many files were copied as items were taken.
pub open spec fn bounded(state: ProgressView, k: int) -> bool {
    &&& 0 <= state.report.cow_files <= k
    &&& 0 <= state.report.copied_files <= k
    &&& 0 <= state.report.hardlinks <= k
}

fn copy_item<H: Host>(
    s: &mut Session<H>,
    item: &Item,
    destination: &[u8],
    donor: &[u8],
    links: &Vec<Vec<u8>>,
    allow_copy: bool,
    state: &mut Progress,
) -> (r: Result<(), String>)
    requires
        bounded(old(state)@, usize::MAX - 1),
    ensures
        extends(final(s).log(), old(s).log()),
        forall|l: Seq<Event>|
            extends(l, final(s).log()) ==> #[trigger] copy_item_at(
                l,
                old(s).log().len() as int,
                item@,
                destination@,
                donor@,
                views(links@),
                allow_copy,
                old(state)@,
            ) == (progressed(r, *final(state)), final(s).log().len() as int),
{
    proof {
        reveal(copy_item_at);
    }
    if item.path.len() == 0 || is_under_one(links, item.path.as_slice()) {
        return Ok(());
    }
    let source = join(donor, item.path.as_slice());
    let target = join(destination, item.path.as_slice());
    let ghost start = state@;
    let now = match Entry::read(s, source.as_slice()) {
        Ok(now) => now,
        Err(error) => {
            return Err(error);
        },
    };
    if !now.is_alike(&item.entry) {
        return Err(text2("donor changed before copying ", lossy(item.path.as_slice()).as_str()));
    }
    let kind = item.entry.kind_of();
    if kind == DIRECTORY {
        s.create_directory(target.as_slice())
    } else if kind == REGULAR {
        match copy_contents(s, item, source.as_slice(), target.as_slice(), allow_copy, state) {
            Err(error) => Err(error),
            Ok(_) => preserve_from(s, source.as_slice(), target.as_slice(), false),
        }
    } else if kind == LINK {
        let empty: Vec<u8> = Vec::new();
        let text: &[u8] = match &item.entry.target {
            Some(text) => text.as_slice(),
            None => empty.as_slice(),
        };
        assert(text@ =~= link_text(item@.entry.target));
        match s.symlink(text, target.as_slice()) {
            Err(error) => Err(error),
            Ok(_) => match preserve_from(s, source.as_slice(), target.as_slice(), true) {
                Err(error) => Err(error),
                Ok(_) => {
                    state.report.symlinks.push(copy(item.path.as_slice()));
                    assert(views(state.report.symlinks@) =~= start.report.symlinks.push(item.path@));
                    assert(state@ =~= (ProgressView {
                        report: ReportView {
                            symlinks: start.report.symlinks.push(item.path@),
                            ..start.report
                        },
                        ..start
                    }));
                    Ok(())
                },
            },
        }
    } else {
        state.report.skipped_special.push(copy(item.path.as_slice()));
        assert(views(state.report.skipped_special@) =~= start.report.skipped_special.push(
            item.path@,
        ));
        assert(state@ =~= (ProgressView {
            report: ReportView {
                skipped_special: start.report.skipped_special.push(item.path@),
                ..start.report
            },
            ..start
        }));
        Ok(())
    }
}

/// Copies the items from number `k` on.
pub open spec fn copy_from(
    l: Seq<Event>,
    i: int,
    before: SnapshotView,
    k: nat,
    destination: Seq<u8>,
    links: Seq<Seq<u8>>,
    allow_copy: bool,
    state: ProgressView,
) -> (Result<ProgressView, Seq<char>>, int)
    decreases before.items.len() - k,
{
    if k >= before.items.len() {
        (Ok(state), i)
    } else {
        let (r, i) = copy_item_at(
            l,
            i,
            before.items[k as int],
            destination,
            before.donor,
            links,
            allow_copy,
            state,
        );
        match r {
            Err(error) => (Err(error), i),
            Ok(state) => copy_from(l, i, before, k + 1, destination, links, allow_copy, state),
        }
    }
}

/// Copies all items.
pub open spec fn copy_items_at(
    l: Seq<Event>,
    i: int,
    before: SnapshotView,
    destination: Seq<u8>,
    links: Seq<Seq<u8>>,
    allow_copy: bool,
    state: ProgressView,
) -> (Result<ProgressView, Seq<char>>, int) {
    copy_from(l, i, before, 0, destination, links, allow_copy, state)
}

proof fn lemma_copy_bounded(
    l: Seq<Event>,
    i: int,
    item: ItemView,
    destination: Seq<u8>,
    donor: Seq<u8>,
    links: Seq<Seq<u8>>,
    allow_copy: bool,
    state: ProgressView,
    k: int,
)
    requires
        bounded(state, k),
    ensures
        copy_item_at(l, i, item, destination, donor, links, allow_copy, state) matches (
            Ok(next),
            _,
        ) ==> bounded(next, k + 1),
{
    reveal(copy_contents_at);
    reveal(copy_item_at);
}

fn copy_items<H: Host>(
    s: &mut Session<H>,
    before: &Snapshot,
    destination: &[u8],
    links: &Vec<Vec<u8>>,
    allow_copy: bool,
    state: &mut Progress,
) -> (r: Result<(), String>)
    requires
        bounded(old(state)@, 0),
    ensures
        extends(final(s).log(), old(s).log()),
        forall|l: Seq<Event>|
            extends(l, final(s).log()) ==> #[trigger] copy_items_at(
                l,
                old(s).log().len() as int,
                before@,
                destination@,
                views(links@),
                allow_copy,
                old(state)@,
            ) == (progressed(r, *final(state)), final(s).log().len() as int),
{
    let ghost from = s.log().len() as int;
    let ghost start = state@;
    let n: usize = before.items.len();
    assert(before@.items.len() == n);
    for k in 0..n
        invariant
            n == before.items@.len(),
            n == before@.items.len(),
            from == old(s).log().len(),
            start == old(state)@,
            bounded(state@, k as int),
            extends(s.log(), old(s).log()),
            forall|l: Seq<Event>|
                extends(l, s.log()) ==> #[trigger] copy_items_at(
                    l,
                    from,
                    before@,
                    destination@,
                    views(links@),
                    allow_copy,
                    start,
                ) == copy_from(
                    l,
                    s.log().len() as int,
                    before@,
                    k as nat,
                    destination@,
                    views(links@),
                    allow_copy,
                    state@,
                ),
    {
        let item = &before.items[k];
        assert(before@.items[k as int] == item@);
        let ghost at = s.log().len() as int;
        let ghost had = state@;
        match copy_item(
            s,
            item,
            destination,
            before.donor.as_slice(),
            links,
            allow_copy,
            state,
        ) {
            Ok(_) => {
                proof {
                    lemma_copy_bounded(
                        s.log(),
                        at,
                        item@,
                        destination@,
                        before@.donor,
                        views(links@),
                        allow_copy,
                        had,
                        k as int,
                    );
                }
            },
            Err(error) => {
                return Err(error);
            },
        }
    }
    Ok(())
}

/// What is said of every inheritance, and of one on Linux besides.
pub open spec fn closing_warnings(linux: bool) -> Seq<Seq<char>> {
    let general =
        "directory/symlink ACLs and xattrs are not copied; platform metadata may differ"@;
    if linux {
        seq![
            general,
            "FICLONE preserves data extents only; file ACLs and xattrs are not copied"@,
        ]
    } else {
        seq![general]
    }
}

/// Nothing but a `.git` is there.
pub open spec fn only_git(names: Seq<Seq<u8>>) -> bool {
    forall|k: int| 0 <= k < names.len() ==> (#[trigger] names[k]) == utf8(".git"@)
}

fn has_only_git(names: &Vec<Vec<u8>>) -> (r: bool)
    ensures
        r == only_git(views(names@)),
{
    for k in 0..names.len()
        invariant
            forall|j: int| 0 <= j < k ==> (#[trigger] views(names@)[j]) == utf8(".git"@),
    {
        assert(views(names@)[k as int] == names@[k as int]@);
        if !same_bytes(names[k].as_slice(), utf8_of(".git")) {
            return false;
        }
    }
    true
}

/// Copies a recorded donor below a destination that holds nothing but its
/// `.git`. Links into the donor are looked for before anything is copied, and
/// the donor is compared with its record in the end.
#[verifier::opaque]
pub open spec fn materialize_at(
    l: Seq<Event>,
    i: int,
    before: SnapshotView,
    destination: Seq<u8>,
    links: Seq<Seq<u8>>,
    allow_copy: bool,
    allow_donor_links: bool,
    linux: bool,
) -> (Result<ReportView, Seq<char>>, int) {
    let (root, i) = canonicalize_at(l, i, destination);
    match root {
        Err(error) => (Err(error), i),
        Ok(root) => if begins(steps(root), steps(before.donor)) || begins(
            steps(before.donor),
            steps(root),
        ) {
            (Err("inheritance destination and donor must be disjoint"@), i)
        } else {
            let (names, i) = entry_names_at(l, i, root);
            match names {
                Err(error) => (Err(error), i),
                Ok(names) => if !only_git(names) {
                    (Err("inheritance destination is not empty apart from .git"@), i)
                } else {
                    let (into, i) = donor_links_at(
                        l,
                        i,
                        before.items,
                        root,
                        before.donor,
                        links,
                        allow_donor_links,
                    );
                    match into {
                        Err(error) => (Err(error), i),
                        Ok(into) => {
                            let (copied, i) = copy_items_at(
                                l,
                                i,
                                before,
                                root,
                                links,
                                allow_copy,
                                ProgressView {
                                    report: fresh_report(into),
                                    firsts: Map::empty(),
                                },
                            );
                            match copied {
                                Err(error) => (Err(error), i),
                                Ok(state) => {
                                    let (changed, i) = verify_unchanged_at(l, i, before);
                                    match changed {
                                        Some(error) => (Err(error), i),
                                        None => (
                                            Ok(
                                                ReportView {
                                                    warnings: state.report.warnings
                                                        + closing_warnings(linux),
                                                    ..state.report
                                                },
                                            ),
                                            i,
                                        ),
                                    }
                                },
                            }
                        },
                    }
                },
            }
        },
    }
}

/// Copies the recorded donor below `destination`, which must hold nothing but
/// its `.git`. What is at `links` or below comes from elsewhere. Whatever the
/// failure, taking the destination away again is up to the caller.
pub fn materialize<H: Host>(
    s: &mut Session<H>,
    before: &Snapshot,
    destination: &[u8],
    links: &Vec<Vec<u8>>,
    allow_copy: bool,
    allow_donor_links: bool,
    linux: bool,
) -> (r: Result<Report, String>)
    ensures
        extends(final(s).log(), old(s).log()),
        forall|l: Seq<Event>|
            extends(l, final(s).log()) ==> #[trigger] materialize_at(
                l,
                old(s).log().len() as int,
                before@,
                destination@,
                views(links@),
                allow_copy,
                allow_donor_links,
                linux,
            ) == (worded(r), final(s).log().len() as int),
{
    proof {
        reveal(materialize_at);
    }
    let root = match s.canonicalize(destination) {
        Ok(root) => root,
        Err(error) => {
            return Err(error);
        },
    };
    if path_starts_with(root.as_slice(), before.donor.as_slice()) || path_starts_with(
        before.donor.as_slice(),
        root.as_slice(),
    ) {
        return Err("inheritance destination and donor must be disjoint".to_owned());
    }
    let names = match s.entry_names(root.as_slice()) {
        Ok(names) => names,
        Err(error) => {
            return Err(error);
        },
    };
    if !has_only_git(&names) {
        return Err("inheritance destination is not empty apart from .git".to_owned());
    }
    let into = match find_donor_links(s, before, root.as_slice(), links, allow_donor_links) {
        Ok(into) => into,
        Err(error) => {
            return Err(error);
        },
    };
    let mut state = Progress {
        report: Report {
            cow_files: 0,
            copied_files: 0,
            hardlinks: 0,
            skipped_special: Vec::new(),
            symlinks: Vec::new(),
            donor_links: into,
            warnings: Vec::new(),
        },
        firsts: Firsts::new(),
    };
    assert(state@.report =~= fresh_report(views(into@)));
    match copy_items(s, before, root.as_slice(), links, allow_copy, &mut state) {
        Ok(_) => {},
        Err(error) => {
            return Err(error);
        },
    }
    let ghost copied = state@;
    let mut report = state.report;
    let ghost had = text_views(report.warnings@);
    report.warnings.push(
        "directory/symlink ACLs and xattrs are not copied; platform metadata may differ".to_owned(),
    );
    if linux {
        report.warnings.push(
            "FICLONE preserves data extents only; file ACLs and xattrs are not copied".to_owned(),
        );
    }
    assert(text_views(report.warnings@) =~= had + closing_warnings(linux));
    assert(report@ =~= (ReportView {
        warnings: copied.report.warnings + closing_warnings(linux),
        ..copied.report
    }));
    match verify_unchanged(s, before) {
        Ok(_) => Ok(report),
        Err(error) => Err(error),
    }
}

// ---------------------------------------------------------------------------
// Finishing directories
// ---------------------------------------------------------------------------

/// Gives the directories among the first `k` items what those of the donor
/// have, the last one first.
pub open spec fn finalize_from(
    l: Seq<Event>,
    i: int,
    before: SnapshotView,
    k: nat,
    destination: Seq<u8>,
    links: Seq<Seq<u8>>,
) -> (Option<Seq<char>>, int)
    decreases k,
{
    if k == 0 || k > before.items.len() {
        (None, i)
    } else {
        let item = before.items[k - 1];
        if item.entry.kind() == DIRECTORY && !under_target(links, item.path) {
            let (r, i) = preserve_from_at(
                l,
                i,
                joined(before.donor, item.path),
                joined(destination, item.path),
                false,
            );
            match r {
                Some(error) => (Some(error), i),
                None => finalize_from(l, i, before, (k - 1) as nat, destination, links),
            }
        } else {
            finalize_from(l, i, before, (k - 1) as nat, destination, links)
        }
    }
}

/// Gives every inherited directory what that of the donor has.
pub open spec fn finalize_directories_at(
    l: Seq<Event>,
    i: int,
    before: SnapshotView,
    destination: Seq<u8>,
    links: Seq<Seq<u8>>,
) -> (Option<Seq<char>>, int) {
    finalize_from(l, i, before, before.items.len(), destination, links)
}

/// Gives every inherited directory the mode and the times of the donor's, from
/// the inside out. What else is put into them has to be there already.
pub fn finalize_directories<H: Host>(
    s: &mut Session<H>,
    before: &Snapshot,
    destination: &[u8],
    links: &Vec<Vec<u8>>,
) -> (r: Result<(), String>)
    ensures
        extends(final(s).log(), old(s).log()),
        forall|l: Seq<Event>|
            extends(l, final(s).log()) ==> #[trigger] finalize_directories_at(
                l,
                old(s).log().len() as int,
                before@,
                destination@,
                views(links@),
            ) == (fault(r), final(s).log().len() as int),
{
    let ghost from = s.log().len() as int;
    let mut k: usize = before.items.len();
    assert(before@.items.len() == k);
    while k > 0
        invariant
            k <= before.items@.len(),
            before@.items.len() == before.items@.len(),
            from == old(s).log().len(),
            extends(s.log(), old(s).log()),
            forall|l: Seq<Event>|
                extends(l, s.log()) ==> #[trigger] finalize_directories_at(
                    l,
                    from,
                    before@,
                    destination@,
                    views(links@),
                ) == finalize_from(
                    l,
                    s.log().len() as int,
                    before@,
                    k as nat,
                    destination@,
                    views(links@),
                ),
        decreases k,
    {
        let item = &before.items[k - 1];
        assert(before@.items[k - 1] == item@);
        if item.entry.kind_of() == DIRECTORY && !is_under_one(links, item.path.as_slice()) {
            let source = join(before.donor.as_slice(), item.path.as_slice());
            let target = join(destination, item.path.as_slice());
            match preserve_from(s, source.as_slice(), target.as_slice(), false) {
                Ok(_) => {},
                Err(error) => {
                    return Err(error);
                },
            }
        }
        k = k - 1;
    }
    Ok(())
}

} // verus!
