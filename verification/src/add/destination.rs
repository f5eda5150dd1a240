//! Where a new worktree goes.
use crate::error::{problem, ErrorView, RamizError};
use crate::git::{canonical_or_self, canonical_or_self_at, same_place, same_place_at};
use crate::host::{
    canonicalize_at, is_occupied_at, metadata_at, path_exists_at, Event, Host, Session, DIRECTORY,
};
use crate::fsclone::worded;
use crate::outside::{lossy, lossy_text};
use crate::path::{
    components, component_views, file_name, join, joined, lemma_parent_shorter, name_of, parent,
    parent_of, path_starts_with, steps, Component, Step,
};
use crate::text::{begins, text2, text4, views};
use crate::update::io::extends;
use vstd::prelude::*;

verus! {

/// Climbs from `existing` to what exists, and notes the names left behind.
pub open spec fn climb_from(
    l: Seq<Event>,
    i: int,
    requested: Seq<u8>,
    existing: Seq<u8>,
    tail: Seq<Seq<u8>>,
) -> (Result<(Seq<u8>, Seq<Seq<u8>>), Seq<char>>, int)
    decreases existing.len(),
{
    let (there, i) = path_exists_at(l, i, existing);
    if there {
        (Ok((existing, tail)), i)
    } else {
        match (name_of(existing), parent_of(existing)) {
            (None, _) => (Err("invalid destination "@ + lossy_text(requested)), i),
            (Some(_), None) => (Err("no existing parent for "@ + lossy_text(requested)), i),
            (Some(name), Some(above)) => {
                proof {
                    lemma_parent_shorter(existing);
                }
                climb_from(l, i, requested, above, tail.push(name))
            },
        }
    }
}

/// The names, the last one first, below `base`.
pub open spec fn descended(base: Seq<u8>, tail: Seq<Seq<u8>>) -> Seq<u8>
    decreases tail.len(),
{
    if tail.len() == 0 {
        base
    } else {
        descended(joined(base, tail.last()), tail.drop_last())
    }
}

/// The destination as an absolute path: what exists of it resolved, and the
/// rest as it was asked for.
#[verifier::opaque]
pub open spec fn resolve_destination_at(
    l: Seq<Event>,
    i: int,
    cwd: Seq<u8>,
    requested: Seq<u8>,
) -> (Result<Seq<u8>, Seq<char>>, int) {
    let (climbed, i) = climb_from(l, i, requested, joined(cwd, requested), Seq::empty());
    match climbed {
        Err(error) => (Err(error), i),
        Ok((existing, tail)) => {
            let (base, i) = canonicalize_at(l, i, existing);
            match base {
                Err(error) => (
                    Err("resolve "@ + lossy_text(existing) + ": "@ + error),
                    i,
                ),
                Ok(base) => {
                    let resolved = descended(base, tail);
                    if steps(resolved).contains(Step::Parent) {
                        (Err("destination contains unresolved parent components"@), i)
                    } else {
                        (Ok(resolved), i)
                    }
                },
            }
        },
    }
}

fn has_parent_step(path: &[u8]) -> (r: bool)
    ensures
        r == steps(path@).contains(Step::Parent),
{
    let all = components(path);
    let ghost plan = steps(path@);
    let n: usize = all.len();
    assert(component_views(all@).len() == n);
    for k in 0..n
        invariant
            n == all@.len(),
            n == plan.len(),
            plan == steps(path@),
            component_views(all@) == plan,
            forall|j: int| 0 <= j < k ==> (#[trigger] plan[j]) != Step::Parent,
    {
        assert(plan[k as int] == all@[k as int]@);
        match &all[k] {
            Component::Parent => {
                assert(plan.contains(plan[k as int]));
                return true;
            },
            _ => {},
        }
    }
    false
}

/// The destination `requested`, seen from `cwd`, as an absolute path.
pub fn resolve_destination<H: Host>(s: &mut Session<H>, cwd: &[u8], requested: &[u8]) -> (r: Result<
    Vec<u8>,
    String,
>)
    ensures
        extends(final(s).log(), old(s).log()),
        forall|l: Seq<Event>|
            extends(l, final(s).log()) ==> #[trigger] resolve_destination_at(
                l,
                old(s).log().len() as int,
                cwd@,
                requested@,
            ) == (worded(r), final(s).log().len() as int),
{
    proof {
        reveal(resolve_destination_at);
    }
    let ghost from = s.log().len() as int;
    let mut existing = join(cwd, requested);
    let mut tail: Vec<Vec<u8>> = Vec::new();
    assert(views(tail@) =~= Seq::<Seq<u8>>::empty());
    let ghost start = existing@;
    while !s.path_exists(existing.as_slice())
        invariant_except_break
            from == old(s).log().len(),
            start == joined(cwd@, requested@),
            extends(s.log(), old(s).log()),
            forall|l: Seq<Event>|
                extends(l, s.log()) ==> #[trigger] climb_from(
                    l,
                    from,
                    requested@,
                    start,
                    Seq::empty(),
                ) == climb_from(l, s.log().len() as int, requested@, existing@, views(tail@)),
        ensures
            from == old(s).log().len(),
            start == joined(cwd@, requested@),
            extends(s.log(), old(s).log()),
            forall|l: Seq<Event>|
                extends(l, s.log()) ==> #[trigger] climb_from(
                    l,
                    from,
                    requested@,
                    start,
                    Seq::empty(),
                ) == (
                    Ok::<(Seq<u8>, Seq<Seq<u8>>), Seq<char>>((existing@, views(tail@))),
                    s.log().len() as int,
                ),
        decreases existing@.len(),
    {
        proof {
            reveal(resolve_destination_at);
        }
        let name = match file_name(existing.as_slice()) {
            Some(name) => name,
            None => {
                return Err(text2("invalid destination ", lossy(requested).as_str()));
            },
        };
        let above = match parent(existing.as_slice()) {
            Some(above) => above,
            None => {
                return Err(text2("no existing parent for ", lossy(requested).as_str()));
            },
        };
        proof {
            lemma_parent_shorter(existing@);
        }
        let ghost before = views(tail@);
        let ghost shown = name@;
        tail.push(name);
        assert(views(tail@) =~= before.push(shown));
        existing = above;
    }
    let mut resolved = match s.canonicalize(existing.as_slice()) {
        Ok(base) => base,
        Err(error) => {
            return Err(
                text4("resolve ", lossy(existing.as_slice()).as_str(), ": ", error.as_str()),
            );
        },
    };
    let ghost base = resolved@;
    let ghost names = views(tail@);
    while tail.len() > 0
        invariant
            descended(base, names) == descended(resolved@, views(tail@)),
        decreases tail@.len(),
    {
        let ghost before = views(tail@);
        assert(before.len() == tail@.len());
        assert(before.last() == tail@.last()@);
        match tail.pop() {
            Some(name) => {
                assert(views(tail@) =~= before.drop_last());
                resolved = join(resolved.as_slice(), name.as_slice());
            },
            None => {},
        }
    }
    assert(views(tail@).len() == 0);
    if has_parent_step(resolved.as_slice()) {
        return Err("destination contains unresolved parent components".to_owned());
    }
    Ok(resolved)
}

/// Whether a root, if there is one, is the destination.
pub open spec fn is_root_at(l: Seq<Event>, i: int, root: Option<Seq<u8>>, destination: Seq<u8>) -> (
    bool,
    int,
) {
    match root {
        Some(root) => same_place_at(l, i, root, destination),
        None => (false, i),
    }
}

fn is_root<H: Host>(s: &mut Session<H>, root: &Option<Vec<u8>>, destination: &[u8]) -> (r: bool)
    ensures
        extends(final(s).log(), old(s).log()),
        forall|l: Seq<Event>|
            extends(l, final(s).log()) ==> #[trigger] is_root_at(
                l,
                old(s).log().len() as int,
                crate::host::bytes_if(*root),
                destination@,
            ) == (r, final(s).log().len() as int),
{
    match root {
        Some(root) => same_place(s, root.as_slice(), destination),
        None => false,
    }
}

/// Whether the destination is the repository, the donor, or inside the
/// directory that all worktrees share.
pub open spec fn unsafe_at(
    l: Seq<Event>,
    i: int,
    destination: Seq<u8>,
    repository: Option<Seq<u8>>,
    donor: Option<Seq<u8>>,
    common: Seq<u8>,
) -> (bool, int) {
    let (same, i) = is_root_at(l, i, repository, destination);
    if same {
        (true, i)
    } else {
        let (same, i) = is_root_at(l, i, donor, destination);
        if same {
            (true, i)
        } else {
            let (root, i) = canonical_or_self_at(l, i, common);
            (begins(steps(destination), steps(root)), i)
        }
    }
}

fn is_unsafe<H: Host>(
    s: &mut Session<H>,
    destination: &[u8],
    repository: &Option<Vec<u8>>,
    donor: &Option<Vec<u8>>,
    common: &[u8],
) -> (r: bool)
    ensures
        extends(final(s).log(), old(s).log()),
        forall|l: Seq<Event>|
            extends(l, final(s).log()) ==> #[trigger] unsafe_at(
                l,
                old(s).log().len() as int,
                destination@,
                crate::host::bytes_if(*repository),
                crate::host::bytes_if(*donor),
                common@,
            ) == (r, final(s).log().len() as int),
{
    if is_root(s, repository, destination) {
        return true;
    }
    if is_root(s, donor, destination) {
        return true;
    }
    let root = canonical_or_self(s, common);
    path_starts_with(destination, root.as_slice())
}

/// What speaks against a destination: it is one of the roots, or something is
/// there.
#[verifier::opaque]
pub open spec fn validate_destination_at(
    l: Seq<Event>,
    i: int,
    destination: Seq<u8>,
    repository: Option<Seq<u8>>,
    donor: Option<Seq<u8>>,
    common: Seq<u8>,
    json: bool,
) -> (Option<ErrorView>, int) {
    let (taken, i) = unsafe_at(l, i, destination, repository, donor, common);
    if taken {
        (
            Some(
                problem(
                    "unsafe_destination"@,
                    "destination cannot be the repository or donor root"@,
                    json,
                ),
            ),
            i,
        )
    } else {
        let (metadata, i) = metadata_at(l, i, destination);
        match metadata {
            Err(_) => (None, i),
            Ok(metadata) => if metadata.kind() != DIRECTORY {
                (
                    Some(
                        problem(
                            "destination_exists"@,
                            "destination exists and is not a directory"@,
                            json,
                        ),
                    ),
                    i,
                )
            } else {
                let (occupied, i) = is_occupied_at(l, i, destination);
                (
                    match occupied {
                        Err(error) => Some(problem("destination_read"@, error, json)),
                        Ok(true) => Some(
                            problem(
                                "destination_not_empty"@,
                                "destination exists and is not empty"@,
                                json,
                            ),
                        ),
                        Ok(false) => None,
                    },
                    i,
                )
            },
        }
    }
}

/// The failure of an operation that returns nothing.
pub open spec fn objection(r: Result<(), RamizError>) -> Option<ErrorView> {
    match r {
        Ok(_) => None,
        Err(error) => Some(error@),
    }
}

/// A worktree can be made at `destination`.
pub fn validate_destination<H: Host>(
    s: &mut Session<H>,
    destination: &[u8],
    repository: &Option<Vec<u8>>,
    donor: &Option<Vec<u8>>,
    common: &[u8],
    json: bool,
) -> (r: Result<(), RamizError>)
    ensures
        extends(final(s).log(), old(s).log()),
        forall|l: Seq<Event>|
            extends(l, final(s).log()) ==> #[trigger] validate_destination_at(
                l,
                old(s).log().len() as int,
                destination@,
                crate::host::bytes_if(*repository),
                crate::host::bytes_if(*donor),
                common@,
                json,
            ) == (objection(r), final(s).log().len() as int),
{
    proof {
        reveal(validate_destination_at);
    }
    if is_unsafe(s, destination, repository, donor, common) {
        return Err(
            RamizError::new(
                "unsafe_destination",
                "destination cannot be the repository or donor root".to_owned(),
                json,
            ),
        );
    }
    match s.metadata(destination) {
        Err(_) => Ok(()),
        Ok(metadata) => if metadata.kind_of() != DIRECTORY {
            Err(
                RamizError::new(
                    "destination_exists",
                    "destination exists and is not a directory".to_owned(),
                    json,
                ),
            )
        } else {
            match s.is_occupied(destination) {
                Err(error) => Err(RamizError::new("destination_read", error, json)),
                Ok(true) => Err(
                    RamizError::new(
                        "destination_not_empty",
                        "destination exists and is not empty".to_owned(),
                        json,
                    ),
                ),
                Ok(false) => Ok(()),
            }
        },
    }
}

} // verus!
