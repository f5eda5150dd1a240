//! The links that a commit tracks, put into an inherited worktree.
use crate::add::branch::{git_error, git_problem};
use crate::add::transaction::{fail, fail_at, Transaction, TransactionView};
use crate::error::{ErrorView, RamizError};
use crate::git::{blob, blob_at, entry_views, EntryView, IndexEntry};
use crate::host::{
    descend_at, fault, link_below_at, make_below_at, metadata_at, open_base_at, Event, Host,
    Session, DIRECTORY,
};
use crate::order::{bytes_leq, is_leq};
use crate::outside::{lossy, lossy_text};
use crate::path::{
    component_views, components, file_name, join, joined, name_of, parent, parent_of, same_path,
    steps, Component, Step,
};
use crate::text::{copy, same_bytes, text2, text4, views};
use crate::update::io::extends;
use crate::update::model::IoErrorKind;
use vstd::prelude::*;

verus! {

/// The mode of a tracked link.
pub const LINK_ENTRY: u32 = 0o120000;

/// A tracked link: its path and its text.
pub struct TargetLink {
    pub path: Vec<u8>,
    pub data: Vec<u8>,
}

/// The model of a [`TargetLink`].
#[verifier::ext_equal]
pub struct LinkView {
    pub path: Seq<u8>,
    pub data: Seq<u8>,
}

impl View for TargetLink {
    type V = LinkView;

    open spec fn view(&self) -> LinkView {
        LinkView { path: self.path@, data: self.data@ }
    }
}

/// The views of a list of links.
pub open spec fn link_views(v: Seq<TargetLink>) -> Seq<LinkView> {
    v.map_values(|x: TargetLink| x@)
}

/// The paths of the links.
pub open spec fn link_paths(links: Seq<LinkView>) -> Seq<Seq<u8>> {
    links.map_values(|x: LinkView| x.path)
}

/// The paths of the links.
pub fn paths_of(links: &Vec<TargetLink>) -> (r: Vec<Vec<u8>>)
    ensures
        views(r@) == link_paths(link_views(links@)),
{
    let mut out: Vec<Vec<u8>> = Vec::new();
    for k in 0..links.len()
        invariant
            out@.len() == k,
            forall|j: int| 0 <= j < k ==> (#[trigger] out@[j])@ == links@[j].path@,
    {
        out.push(copy(links[k].path.as_slice()));
    }
    assert(views(out@) =~= link_paths(link_views(links@)));
    out
}

// ---------------------------------------------------------------------------
// The order of paths
// ---------------------------------------------------------------------------

/// The place of a kind of step.
pub open spec fn step_rank(step: Step) -> int {
    match step {
        Step::Root => 0,
        Step::Current => 1,
        Step::Parent => 2,
        Step::Normal(_) => 3,
    }
}

/// `a` comes before `b`.
pub open spec fn step_before(a: Step, b: Step) -> bool {
    match (a, b) {
        (Step::Normal(x), Step::Normal(y)) => x != y && bytes_leq(x, y),
        _ => step_rank(a) < step_rank(b),
    }
}

/// `a` comes before `b`, step by step: a directory before what is in it.
pub open spec fn way_before(a: Seq<Step>, b: Seq<Step>) -> bool
    decreases a.len(),
{
    if b.len() == 0 {
        false
    } else if a.len() == 0 {
        true
    } else if a[0] == b[0] {
        way_before(a.skip(1), b.skip(1))
    } else {
        step_before(a[0], b[0])
    }
}

fn rank(c: &Component) -> (r: u8)
    ensures
        r == step_rank(c@),
{
    match c {
        Component::Root => 0,
        Component::Current => 1,
        Component::Parent => 2,
        Component::Normal(_) => 3,
    }
}

fn component_before(a: &Component, b: &Component) -> (r: bool)
    ensures
        r == step_before(a@, b@),
{
    match (a, b) {
        (Component::Normal(x), Component::Normal(y)) => !same_bytes(x.as_slice(), y.as_slice())
            && is_leq(x.as_slice(), y.as_slice()),
        _ => rank(a) < rank(b),
    }
}

fn same_step(a: &Component, b: &Component) -> (r: bool)
    ensures
        r == (a@ == b@),
{
    match (a, b) {
        (Component::Normal(x), Component::Normal(y)) => same_bytes(x.as_slice(), y.as_slice()),
        _ => rank(a) == rank(b),
    }
}

/// The path `a` comes before `b`.
pub fn path_before(a: &[u8], b: &[u8]) -> (r: bool)
    ensures
        r == way_before(steps(a@), steps(b@)),
{
    let x = components(a);
    let y = components(b);
    let ghost p = steps(a@);
    let ghost q = steps(b@);
    assert(component_views(x@).len() == x@.len());
    assert(component_views(y@).len() == y@.len());
    let mut k: usize = 0;
    assert(p.skip(0) =~= p);
    assert(q.skip(0) =~= q);
    while k < x.len() && k < y.len()
        invariant
            k <= x@.len(),
            k <= y@.len(),
            p == component_views(x@),
            q == component_views(y@),
            p.len() == x@.len(),
            q.len() == y@.len(),
            p == steps(a@),
            q == steps(b@),
            way_before(p, q) == way_before(p.skip(k as int), q.skip(k as int)),
        decreases x@.len() - k,
    {
        assert(p.skip(k as int)[0] == x@[k as int]@);
        assert(q.skip(k as int)[0] == y@[k as int]@);
        if !same_step(&x[k], &y[k]) {
            return component_before(&x[k], &y[k]);
        }
        assert(p.skip(k as int).skip(1) =~= p.skip(k + 1));
        assert(q.skip(k as int).skip(1) =~= q.skip(k + 1));
        k = k + 1;
    }
    k < y.len()
}

// ---------------------------------------------------------------------------
// Collecting
// ---------------------------------------------------------------------------

/// The links with one more, in the order of their paths. A second link at a
/// path takes the place of the first.
pub open spec fn linked(links: Seq<LinkView>, link: LinkView) -> Seq<LinkView>
    decreases links.len(),
{
    if links.len() == 0 {
        seq![link]
    } else if way_before(steps(links.last().path), steps(link.path)) {
        links.push(link)
    } else if steps(links.last().path) == steps(link.path) {
        links.drop_last().push(LinkView { path: links.last().path, data: link.data })
    } else {
        linked(links.drop_last(), link).push(links.last())
    }
}

fn insert_link(links: &mut Vec<TargetLink>, link: TargetLink)
    ensures
        link_views(final(links)@) == linked(link_views(old(links)@), link@),
{
    let ghost all = link_views(links@);
    let ghost one = link@;
    let mut k: usize = links.len();
    assert(all.take(k as int) =~= all);
    assert(linked(all, one) =~= linked(all.take(k as int), one) + all.skip(k as int));
    while k > 0 && !path_before(links[k - 1].path.as_slice(), link.path.as_slice()) && !same_path(
        links[k - 1].path.as_slice(),
        link.path.as_slice(),
    )
        invariant
            k <= links@.len(),
            *links == *old(links),
            all == link_views(links@),
            one == link@,
            linked(all, one) == linked(all.take(k as int), one) + all.skip(k as int),
        decreases k,
    {
        assert(all.take(k as int).last() == links@[k - 1]@);
        assert(all.take(k as int).drop_last() =~= all.take(k - 1));
        assert(linked(all.take(k - 1), one).push(all[k - 1]) + all.skip(k as int) =~= linked(
            all.take(k - 1),
            one,
        ) + all.skip(k - 1));
        k = k - 1;
    }
    if k > 0 {
        assert(all.take(k as int).last() == links@[k - 1]@);
        if same_path(links[k - 1].path.as_slice(), link.path.as_slice()) && !path_before(
            links[k - 1].path.as_slice(),
            link.path.as_slice(),
        ) {
            let path = copy(links[k - 1].path.as_slice());
            let ghost shown = LinkView { path: path@, data: one.data };
            links.set(k - 1, TargetLink { path, data: link.data });
            assert(link_views(links@) =~= all.take(k as int).drop_last().push(shown) + all.skip(
                k as int,
            ));
            return ;
        }
    }
    links.insert(k, link);
    assert(link_views(links@) =~= (if k == 0 {
        seq![one]
    } else {
        all.take(k as int).push(one)
    }) + all.skip(k as int));
}

/// Collects the links among the entries from number `k` on.
pub open spec fn collect_from(
    l: Seq<Event>,
    i: int,
    entries: Seq<EntryView>,
    k: nat,
    destination: Seq<u8>,
    json: bool,
    t: TransactionView,
    links: Seq<LinkView>,
) -> (Result<Seq<LinkView>, ErrorView>, int)
    decreases entries.len() - k,
{
    if k >= entries.len() {
        (Ok(links), i)
    } else {
        let entry = entries[k as int];
        if !(entry.stage == 0 && entry.mode == LINK_ENTRY) {
            collect_from(l, i, entries, k + 1, destination, json, t, links)
        } else {
            let (data, i) = blob_at(l, i, destination, entry.oid);
            match data {
                Err(failure) => {
                    let (error, i) = fail_at(
                        l,
                        i,
                        git_problem("target_symlink_read"@, failure, json),
                        t,
                    );
                    (Err(error), i)
                },
                Ok(data) => collect_from(
                    l,
                    i,
                    entries,
                    k + 1,
                    destination,
                    json,
                    t,
                    linked(links, LinkView { path: entry.path, data }),
                ),
            }
        }
    }
}

/// The links among the entries.
pub open spec fn collect_links_at(
    l: Seq<Event>,
    i: int,
    entries: Seq<EntryView>,
    destination: Seq<u8>,
    json: bool,
    t: TransactionView,
) -> (Result<Seq<LinkView>, ErrorView>, int) {
    collect_from(l, i, entries, 0, destination, json, t, Seq::empty())
}

/// The view of links, or of the failure.
pub open spec fn collected(r: Result<Vec<TargetLink>, RamizError>) -> Result<
    Seq<LinkView>,
    ErrorView,
> {
    match r {
        Ok(links) => Ok(link_views(links@)),
        Err(error) => Err(error@),
    }
}

/// The links among the entries.
pub fn collect_links<H: Host>(
    s: &mut Session<H>,
    entries: &Vec<IndexEntry>,
    destination: &[u8],
    json: bool,
    t: &mut Transaction,
) -> (r: Result<Vec<TargetLink>, RamizError>)
    ensures
        extends(final(s).log(), old(s).log()),
        forall|l: Seq<Event>|
            extends(l, final(s).log()) ==> #[trigger] collect_links_at(
                l,
                old(s).log().len() as int,
                entry_views(entries@),
                destination@,
                json,
                old(t)@,
            ) == (collected(r), final(s).log().len() as int),
        r is Ok ==> *final(t) == *old(t),
        r is Err ==> final(t)@ == (TransactionView { rollback_enabled: false, ..old(t)@ }),
{
    let mut links: Vec<TargetLink> = Vec::new();
    let ghost from = s.log().len() as int;
    let ghost all = entry_views(entries@);
    let ghost had = t@;
    let n: usize = entries.len();
    assert(all.len() == n);
    assert(link_views(links@) =~= Seq::<LinkView>::empty());
    for k in 0..n
        invariant
            n == entries@.len(),
            n == all.len(),
            all == entry_views(entries@),
            from == old(s).log().len(),
            had == old(t)@,
            *t == *old(t),
            extends(s.log(), old(s).log()),
            forall|l: Seq<Event>|
                extends(l, s.log()) ==> #[trigger] collect_links_at(
                    l,
                    from,
                    all,
                    destination@,
                    json,
                    had,
                ) == collect_from(
                    l,
                    s.log().len() as int,
                    all,
                    k as nat,
                    destination@,
                    json,
                    had,
                    link_views(links@),
                ),
    {
        let entry = &entries[k];
        assert(all[k as int] == entry@);
        if entry.stage == 0 && entry.mode == LINK_ENTRY {
            let data = match blob(s, destination, entry.oid.as_str()) {
                Ok(data) => data,
                Err(failure) => {
                    return Err(fail(s, git_error("target_symlink_read", failure, json), t));
                },
            };
            insert_link(&mut links, TargetLink { path: copy(entry.path.as_slice()), data });
        }
    }
    Ok(links)
}

// ---------------------------------------------------------------------------
// Checking
// ---------------------------------------------------------------------------

/// The directory that a link is in.
pub open spec fn link_parent(path: Seq<u8>) -> Seq<u8> {
    match parent_of(path) {
        Some(above) => above,
        None => Seq::empty(),
    }
}

fn parent_or_empty(path: &[u8]) -> (r: Vec<u8>)
    ensures
        r@ == link_parent(path@),
{
    match parent(path) {
        Some(above) => above,
        None => {
            let empty: Vec<u8> = Vec::new();
            assert(empty@ =~= Seq::<u8>::empty());
            empty
        },
    }
}

/// A path with anything but names in it.
pub open spec fn unsafe_link(path: Seq<u8>) -> Seq<char> {
    "unsafe target symlink path "@ + lossy_text(path)
}

/// What speaks against a link: the donor has something else than a directory
/// where it needs one. Once nothing is there, nothing below is looked at.
pub open spec fn ancestors_from(
    l: Seq<Event>,
    i: int,
    donor: Seq<u8>,
    path: Seq<u8>,
    way: Seq<Step>,
    k: nat,
    ancestor: Seq<u8>,
) -> (Option<Seq<char>>, int)
    decreases way.len() - k,
{
    if k >= way.len() {
        (None, i)
    } else {
        match way[k as int] {
            Step::Normal(name) => {
                let ancestor = joined(ancestor, name);
                let (metadata, i) = metadata_at(l, i, joined(donor, ancestor));
                match metadata {
                    Ok(metadata) => if metadata.kind() == DIRECTORY {
                        ancestors_from(l, i, donor, path, way, k + 1, ancestor)
                    } else {
                        (
                            Some(
                                "target symlink "@ + lossy_text(path)
                                    + " has non-directory donor ancestor "@ + lossy_text(ancestor),
                            ),
                            i,
                        )
                    },
                    Err(error) => if error.kind == IoErrorKind::NotFound {
                        (None, i)
                    } else {
                        (Some(error.message), i)
                    },
                }
            },
            _ => (Some(unsafe_link(path)), i),
        }
    }
}

/// What speaks against one link.
pub open spec fn ancestors_at(l: Seq<Event>, i: int, donor: Seq<u8>, path: Seq<u8>) -> (
    Option<Seq<char>>,
    int,
) {
    ancestors_from(l, i, donor, path, steps(link_parent(path)), 0, Seq::empty())
}

fn check_ancestors<H: Host>(
    s: &mut Session<H>,
    donor: &[u8],
    path: &[u8],
) -> (r: Result<(), String>)
    ensures
        extends(final(s).log(), old(s).log()),
        forall|l: Seq<Event>|
            extends(l, final(s).log()) ==> #[trigger] ancestors_at(
                l,
                old(s).log().len() as int,
                donor@,
                path@,
            ) == (fault(r), final(s).log().len() as int),
{
    let above = parent_or_empty(path);
    let way = components(above.as_slice());
    let ghost plan = steps(link_parent(path@));
    let ghost from = s.log().len() as int;
    let n: usize = way.len();
    assert(component_views(way@).len() == n);
    let mut ancestor: Vec<u8> = Vec::new();
    assert(ancestor@ =~= Seq::<u8>::empty());
    for k in 0..n
        invariant
            n == way@.len(),
            n == plan.len(),
            plan == steps(link_parent(path@)),
            component_views(way@) == plan,
            from == old(s).log().len(),
            extends(s.log(), old(s).log()),
            forall|l: Seq<Event>|
                extends(l, s.log()) ==> #[trigger] ancestors_at(l, from, donor@, path@)
                    == ancestors_from(
                    l,
                    s.log().len() as int,
                    donor@,
                    path@,
                    plan,
                    k as nat,
                    ancestor@,
                ),
    {
        assert(plan[k as int] == way@[k as int]@);
        match &way[k] {
            Component::Normal(name) => {
                ancestor = join(ancestor.as_slice(), name.as_slice());
                match s.metadata(join(donor, ancestor.as_slice()).as_slice()) {
                    Ok(metadata) => {
                        if metadata.kind_of() != DIRECTORY {
                            return Err(
                                text4(
                                    "target symlink ",
                                    lossy(path).as_str(),
                                    " has non-directory donor ancestor ",
                                    lossy(ancestor.as_slice()).as_str(),
                                ),
                            );
                        }
                    },
                    Err(error) => {
                        if error.kind == IoErrorKind::NotFound {
                            return Ok(());
                        }
                        return Err(error.message);
                    },
                }
            },
            _ => {
                return Err(text2("unsafe target symlink path ", lossy(path).as_str()));
            },
        }
    }
    Ok(())
}

/// What speaks against one of the links from number `k` on.
pub open spec fn validate_from(
    l: Seq<Event>,
    i: int,
    donor: Seq<u8>,
    links: Seq<LinkView>,
    k: nat,
) -> (Option<Seq<char>>, int)
    decreases links.len() - k,
{
    if k >= links.len() {
        (None, i)
    } else {
        let (wrong, i) = ancestors_at(l, i, donor, links[k as int].path);
        match wrong {
            Some(error) => (Some(error), i),
            None => validate_from(l, i, donor, links, k + 1),
        }
    }
}

/// What speaks against one of the links.
pub open spec fn validate_target_symlink_ancestors_at(
    l: Seq<Event>,
    i: int,
    donor: Seq<u8>,
    links: Seq<LinkView>,
) -> (Option<Seq<char>>, int) {
    validate_from(l, i, donor, links, 0)
}

/// Every link is below directories of the donor, as far as the donor has
/// anything there.
pub fn validate_target_symlink_ancestors<H: Host>(
    s: &mut Session<H>,
    donor: &[u8],
    links: &Vec<TargetLink>,
) -> (r: Result<(), String>)
    ensures
        extends(final(s).log(), old(s).log()),
        forall|l: Seq<Event>|
            extends(l, final(s).log()) ==> #[trigger] validate_target_symlink_ancestors_at(
                l,
                old(s).log().len() as int,
                donor@,
                link_views(links@),
            ) == (fault(r), final(s).log().len() as int),
{
    let ghost from = s.log().len() as int;
    let ghost all = link_views(links@);
    let n: usize = links.len();
    assert(all.len() == n);
    for k in 0..n
        invariant
            n == links@.len(),
            n == all.len(),
            all == link_views(links@),
            from == old(s).log().len(),
            extends(s.log(), old(s).log()),
            forall|l: Seq<Event>|
                extends(l, s.log()) ==> #[trigger] validate_target_symlink_ancestors_at(
                    l,
                    from,
                    donor@,
                    all,
                ) == validate_from(l, s.log().len() as int, donor@, all, k as nat),
    {
        assert(all[k as int] == links@[k as int]@);
        match check_ancestors(s, donor, links[k].path.as_slice()) {
            Ok(_) => {},
            Err(error) => {
                return Err(error);
            },
        }
    }
    Ok(())
}

// ---------------------------------------------------------------------------
// Making
// ---------------------------------------------------------------------------

fn has_zero(bytes: &[u8]) -> (r: bool)
    ensures
        r == bytes@.contains(0u8),
{
    for k in 0..bytes.len()
        invariant
            forall|j: int| 0 <= j < k ==> (#[trigger] bytes@[j]) != 0,
    {
        if bytes[k] == 0 {
            assert(bytes@.contains(bytes@[k as int]));
            return true;
        }
    }
    false
}

/// Moves into the directory `name`, which is made where it is missing.
pub open spec fn enter_at(l: Seq<Event>, i: int, name: Seq<u8>) -> (Option<Seq<char>>, int) {
    let (r, i) = descend_at(l, i, name);
    match r {
        None => (None, i),
        Some(error) => if error.kind != IoErrorKind::NotFound {
            (Some(error.message), i)
        } else {
            let (made, i) = make_below_at(l, i, name);
            match made {
                Some(error) => (Some(error), i),
                None => {
                    let (r, i) = descend_at(l, i, name);
                    (
                        match r {
                            None => None,
                            Some(error) => Some(error.message),
                        },
                        i,
                    )
                },
            }
        },
    }
}

fn enter<H: Host>(s: &mut Session<H>, name: &[u8]) -> (r: Result<(), String>)
    ensures
        extends(final(s).log(), old(s).log()),
        forall|l: Seq<Event>|
            extends(l, final(s).log()) ==> #[trigger] enter_at(
                l,
                old(s).log().len() as int,
                name@,
            ) == (fault(r), final(s).log().len() as int),
{
    match s.descend(name) {
        Ok(_) => {
            return Ok(());
        },
        Err(error) => {
            if error.kind != IoErrorKind::NotFound {
                return Err(error.message);
            }
        },
    }
    match s.make_below(name) {
        Ok(_) => {},
        Err(error) => {
            return Err(error);
        },
    }
    match s.descend(name) {
        Ok(_) => Ok(()),
        Err(error) => Err(error.message),
    }
}

/// Moves along the way from step number `k` on, no link followed.
pub open spec fn enter_from(
    l: Seq<Event>,
    i: int,
    path: Seq<u8>,
    way: Seq<Step>,
    k: nat,
) -> (Option<Seq<char>>, int)
    decreases way.len() - k,
{
    if k >= way.len() {
        (None, i)
    } else {
        match way[k as int] {
            Step::Normal(name) => if name.contains(0u8) {
                (Some("path contains NUL"@), i)
            } else {
                let (r, i) = enter_at(l, i, name);
                match r {
                    Some(error) => (Some(error), i),
                    None => enter_from(l, i, path, way, k + 1),
                }
            },
            _ => (Some(unsafe_link(path)), i),
        }
    }
}

/// Moves along the way to the directory that a link goes into.
pub open spec fn enter_parent_at(l: Seq<Event>, i: int, path: Seq<u8>) -> (
    Option<Seq<char>>,
    int,
) {
    enter_from(l, i, path, steps(link_parent(path)), 0)
}

fn enter_parent<H: Host>(s: &mut Session<H>, path: &[u8]) -> (r: Result<(), String>)
    ensures
        extends(final(s).log(), old(s).log()),
        forall|l: Seq<Event>|
            extends(l, final(s).log()) ==> #[trigger] enter_parent_at(
                l,
                old(s).log().len() as int,
                path@,
            ) == (fault(r), final(s).log().len() as int),
{
    let above = parent_or_empty(path);
    let way = components(above.as_slice());
    let ghost plan = steps(link_parent(path@));
    let ghost from = s.log().len() as int;
    let n: usize = way.len();
    assert(component_views(way@).len() == n);
    for k in 0..n
        invariant
            n == way@.len(),
            n == plan.len(),
            plan == steps(link_parent(path@)),
            component_views(way@) == plan,
            from == old(s).log().len(),
            extends(s.log(), old(s).log()),
            forall|l: Seq<Event>|
                extends(l, s.log()) ==> #[trigger] enter_parent_at(l, from, path@) == enter_from(
                    l,
                    s.log().len() as int,
                    path@,
                    plan,
                    k as nat,
                ),
    {
        assert(plan[k as int] == way@[k as int]@);
        match &way[k] {
            Component::Normal(name) => {
                if has_zero(name.as_slice()) {
                    return Err("path contains NUL".to_owned());
                }
                match enter(s, name.as_slice()) {
                    Ok(_) => {},
                    Err(error) => {
                        return Err(error);
                    },
                }
            },
            _ => {
                return Err(text2("unsafe target symlink path ", lossy(path).as_str()));
            },
        }
    }
    Ok(())
}

/// Makes one link.
pub open spec fn make_link_at(l: Seq<Event>, i: int, destination: Seq<u8>, link: LinkView) -> (
    Option<Seq<char>>,
    int,
) {
    let (opened, i) = open_base_at(l, i, destination);
    match opened {
        Some(error) => (Some(error), i),
        None => {
            let (entered, i) = enter_parent_at(l, i, link.path);
            match entered {
                Some(error) => (Some(error), i),
                None => match name_of(link.path) {
                    None => (Some("symlink path has no leaf"@), i),
                    Some(leaf) => if leaf.contains(0u8) {
                        (Some("path contains NUL"@), i)
                    } else if link.data.contains(0u8) {
                        (Some("symlink target contains NUL"@), i)
                    } else {
                        link_below_at(l, i, link.data, leaf)
                    },
                },
            }
        },
    }
}

fn make_link<H: Host>(s: &mut Session<H>, destination: &[u8], link: &TargetLink) -> (r: Result<
    (),
    String,
>)
    ensures
        extends(final(s).log(), old(s).log()),
        forall|l: Seq<Event>|
            extends(l, final(s).log()) ==> #[trigger] make_link_at(
                l,
                old(s).log().len() as int,
                destination@,
                link@,
            ) == (fault(r), final(s).log().len() as int),
{
    match s.open_base(destination) {
        Ok(_) => {},
        Err(error) => {
            return Err(error);
        },
    }
    match enter_parent(s, link.path.as_slice()) {
        Ok(_) => {},
        Err(error) => {
            return Err(error);
        },
    }
    match file_name(link.path.as_slice()) {
        None => Err("symlink path has no leaf".to_owned()),
        Some(leaf) => if has_zero(leaf.as_slice()) {
            Err("path contains NUL".to_owned())
        } else if has_zero(link.data.as_slice()) {
            Err("symlink target contains NUL".to_owned())
        } else {
            s.link_below(link.data.as_slice(), leaf.as_slice())
        },
    }
}

/// Makes the links from number `k` on.
pub open spec fn make_from(
    l: Seq<Event>,
    i: int,
    destination: Seq<u8>,
    links: Seq<LinkView>,
    k: nat,
) -> (Option<Seq<char>>, int)
    decreases links.len() - k,
{
    if k >= links.len() {
        (None, i)
    } else {
        let (r, i) = make_link_at(l, i, destination, links[k as int]);
        match r {
            Some(error) => (Some(error), i),
            None => make_from(l, i, destination, links, k + 1),
        }
    }
}

/// Makes the links below a destination.
pub open spec fn materialize_target_symlinks_at(
    l: Seq<Event>,
    i: int,
    destination: Seq<u8>,
    links: Seq<LinkView>,
) -> (Option<Seq<char>>, int) {
    make_from(l, i, destination, links, 0)
}

/// Makes the links below `destination`. Directories on the way are made where
/// they are missing, and no link on the way is followed.
pub fn materialize_target_symlinks<H: Host>(
    s: &mut Session<H>,
    destination: &[u8],
    links: &Vec<TargetLink>,
) -> (r: Result<(), String>)
    ensures
        extends(final(s).log(), old(s).log()),
        forall|l: Seq<Event>|
            extends(l, final(s).log()) ==> #[trigger] materialize_target_symlinks_at(
                l,
                old(s).log().len() as int,
                destination@,
                link_views(links@),
            ) == (fault(r), final(s).log().len() as int),
{
    let ghost from = s.log().len() as int;
    let ghost all = link_views(links@);
    let n: usize = links.len();
    assert(all.len() == n);
    for k in 0..n
        invariant
            n == links@.len(),
            n == all.len(),
            all == link_views(links@),
            from == old(s).log().len(),
            extends(s.log(), old(s).log()),
            forall|l: Seq<Event>|
                extends(l, s.log()) ==> #[trigger] materialize_target_symlinks_at(
                    l,
                    from,
                    destination@,
                    all,
                ) == make_from(l, s.log().len() as int, destination@, all, k as nat),
    {
        assert(all[k as int] == links@[k as int]@);
        match make_link(s, destination, &links[k]) {
            Ok(_) => {},
            Err(error) => {
                return Err(error);
            },
        }
    }
    Ok(())
}

} // verus!
