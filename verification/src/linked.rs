//! Where links lead, and which of them are told of.
use crate::add::laws::{lemma_walk_spends, quiet_walk, quietly};
use crate::add::links::{ancestors_at, ancestors_from, link_parent};
use crate::host::{metadata_at, read_link_at, Event};
use crate::inherit::{
    donor_links_at, donor_links_from, glued, is_target, lemma_walk_link, link_path, looked_up,
    popped, resolve_link_target_at, step_text, walk_from, ItemView, MAX_LINKS,
};
use crate::meanings::{
    law_joining_adds_the_steps, law_parent_and_name_make_the_path, lemma_one_piece,
    lemma_step_of_one,
};
use crate::path::{
    dot, dot_dot, first_step, joined, last_start, name_of, parent_of, steps, steps_of, trimmed,
    Step, DOT, SLASH,
};
use crate::text::{begins, pieces};
use crate::update::model::IoErrorKind;
use vstd::prelude::*;

verus! {

/// `part` is the name of something in a directory.
pub open spec fn plain(part: Seq<u8>) -> bool {
    &&& part.len() > 0
    &&& !part.contains(SLASH)
    &&& part != dot()
    &&& part != dot_dot()
}

/// The steps from number `k` on lead down by names.
pub open spec fn down(way: Seq<Step>, k: int) -> bool {
    forall|m: int| k <= m < way.len() ==> (#[trigger] way[m]) is Normal && plain(way[m]->Normal_0)
}

/// The steps lead from the root down by names.
pub open spec fn straight(way: Seq<Step>) -> bool {
    way.len() > 0 && way[0] == Step::Root && down(way, 1)
}

/// From `i` to `j` nothing that was looked at is a link.
pub open spec fn no_link(l: Seq<Event>, i: int, j: int) -> bool {
    forall|k: int|
        i <= k < j ==> !((#[trigger] l[k]) matches Event::Metadata(_, Ok(metadata))
            && metadata.kind() == 0o120000)
}

/// What was looked at to see what lies at the end of `way`: the place itself,
/// or, where it lies below `destination`, the same place below `donor`.
pub open spec fn seen_at(
    e: Event,
    way: Seq<Step>,
    destination: Seq<u8>,
    donor: Seq<u8>,
) -> bool {
    e matches Event::Metadata(path, _) && {
        let top = steps(destination);
        if begins(way, top) {
            top.len() < way.len() ==> steps(path) == steps(donor) + way.skip(top.len() as int)
        } else {
            steps(path) == way
        }
    }
}

// ---------------------------------------------------------------------------
// Steps
// ---------------------------------------------------------------------------

proof fn lemma_plain_step(part: Seq<u8>)
    requires
        plain(part),
    ensures
        steps(part) == seq![Step::Normal(part)],
        part[0] != SLASH,
        pieces(part, SLASH)[0] != dot(),
{
    assert(part.contains(part[0]));
    lemma_one_piece(part, SLASH);
    lemma_step_of_one(part);
    assert(first_step(part) =~= Seq::<Step>::empty());
    assert(steps(part) =~= seq![Step::Normal(part)]);
}

proof fn lemma_plain_join(base: Seq<u8>, part: Seq<u8>)
    requires
        plain(part),
        base.len() > 0,
    ensures
        steps(joined(base, part)) == steps(base).push(Step::Normal(part)),
        joined(base, part).len() > 0,
{
    lemma_plain_step(part);
    law_joining_adds_the_steps(base, part);
    assert(steps(base) + seq![Step::Normal(part)] =~= steps(base).push(Step::Normal(part)));
}

proof fn lemma_glued(rest: Seq<Step>)
    requires
        rest.len() > 0,
        down(rest, 0),
    ensures
        steps(glued(rest)) == rest,
        glued(rest).len() > 0,
        glued(rest)[0] != SLASH,
        pieces(glued(rest), SLASH)[0] != dot(),
    decreases rest.len(),
{
    let part = rest.last()->Normal_0;
    assert(rest[rest.len() - 1] == rest.last());
    assert(step_text(rest.last()) == part);
    lemma_plain_step(part);
    let front = rest.drop_last();
    if rest.len() == 1 {
        assert(glued(front) =~= Seq::<u8>::empty());
        assert(glued(rest) == part);
        assert(rest =~= seq![Step::Normal(part)]);
    } else {
        assert forall|m: int| 0 <= m < front.len() implies (#[trigger] front[m]) is Normal && plain(
            front[m]->Normal_0,
        ) by {
            assert(rest[m] == front[m]);
        }
        lemma_glued(front);
        lemma_plain_join(glued(front), part);
        assert(glued(rest)[0] == glued(front)[0]);
        assert(front.push(Step::Normal(part)) =~= rest);
    }
    let whole = glued(rest);
    if pieces(whole, SLASH)[0] == dot() {
        assert(first_step(whole) == seq![Step::Current]);
        assert(steps(whole)[0] == Step::Current);
        assert(rest[0] is Normal);
    }
}

proof fn lemma_looked_up(path: Seq<u8>, destination: Seq<u8>, donor: Seq<u8>)
    requires
        straight(steps(path)),
        steps(destination).len() > 0,
        donor.len() > 0,
    ensures
        seen_at(
            Event::Metadata(looked_up(path, destination, donor), arbitrary()),
            steps(path),
            destination,
            donor,
        ),
{
    let way = steps(path);
    let top = steps(destination);
    if begins(way, top) && top.len() < way.len() {
        let rest = way.skip(top.len() as int);
        assert forall|m: int| 0 <= m < rest.len() implies (#[trigger] rest[m]) is Normal && plain(
            rest[m]->Normal_0,
        ) by {
            assert(rest[m] == way[m + top.len()]);
        }
        lemma_glued(rest);
        law_joining_adds_the_steps(donor, glued(rest));
    }
}

proof fn lemma_root_step()
    ensures
        steps(seq![SLASH]) == seq![Step::Root],
{
    let path = seq![SLASH];
    reveal_with_fuel(pieces, 3);
    reveal_with_fuel(steps_of, 3);
    assert(path.drop_last() =~= Seq::<u8>::empty());
    assert(pieces(path, SLASH) =~= seq![Seq::<u8>::empty(), Seq::<u8>::empty()]);
    assert(pieces(path, SLASH).drop_last() =~= seq![Seq::<u8>::empty()]);
    assert(seq![Seq::<u8>::empty()].drop_last() =~= Seq::<Seq<u8>>::empty());
    assert(steps(path) =~= seq![Step::Root]);
}

// ---------------------------------------------------------------------------
// Following
// ---------------------------------------------------------------------------

proof fn lemma_straight_on(
    l: Seq<Event>,
    i: int,
    way: Seq<Step>,
    k: nat,
    resolved: Seq<u8>,
    budget: nat,
    destination: Seq<u8>,
    donor: Seq<u8>,
)
    requires
        0 <= i,
        straight(way),
        1 <= k <= way.len(),
        resolved.len() > 0,
        steps(resolved) == way.take(k as int),
        steps(destination).len() > 0,
        donor.len() > 0,
        walk_from(l, i, way, k, resolved, budget, destination, donor).0 is Ok,
        walk_from(l, i, way, k, resolved, budget, destination, donor).1 != -1,
        no_link(l, i, i + way.len() - k),
    ensures
        ({
            let (r, j) = walk_from(l, i, way, k, resolved, budget, destination, donor);
            &&& r matches Ok((end, left)) && steps(end) == way && left == budget && end.len() > 0
            &&& j == i + way.len() - k
            &&& forall|m: int|
                k <= m < way.len() ==> seen_at(
                    l[i + m - k],
                    #[trigger] way.take(m + 1),
                    destination,
                    donor,
                )
        }),
    decreases way.len() - k,
{
    if k < way.len() {
        let part = way[k as int]->Normal_0;
        let reached = joined(resolved, part);
        lemma_plain_join(resolved, part);
        assert(steps(reached) =~= way.take(k as int + 1));
        let lookup = looked_up(reached, destination, donor);
        assert(straight(steps(reached))) by {
            assert forall|m: int| 1 <= m < steps(reached).len() implies (
            #[trigger] steps(reached)[m]) is Normal && plain(steps(reached)[m]->Normal_0) by {
                assert(way[m] == steps(reached)[m]);
            }
        }
        lemma_looked_up(reached, destination, donor);
        let (metadata, a) = metadata_at(l, i, lookup);
        if a == -1 {
            lemma_lost_step(l, i, way, k, resolved, budget, destination, donor);
        }
        assert(a == i + 1);
        assert(l[i] is Metadata);
        assert(walk_from(l, i, way, k, resolved, budget, destination, donor) == walk_from(
            l,
            a,
            way,
            k + 1,
            reached,
            budget,
            destination,
            donor,
        ));
        lemma_straight_on(l, a, way, k + 1, reached, budget, destination, donor);
        assert forall|m: int| k <= m < way.len() implies seen_at(
            l[i + m - k],
            #[trigger] way.take(m + 1),
            destination,
            donor,
        ) by {
            if m > k {
                assert(l[a + m - (k + 1)] == l[i + m - k]);
            }
        }
    } else {
        assert(way.take(k as int) =~= way);
    }
}

proof fn lemma_lost_step(
    l: Seq<Event>,
    i: int,
    way: Seq<Step>,
    k: nat,
    resolved: Seq<u8>,
    budget: nat,
    destination: Seq<u8>,
    donor: Seq<u8>,
)
    requires
        k < way.len(),
        way[k as int] is Normal,
        metadata_at(
            l,
            i,
            looked_up(joined(resolved, way[k as int]->Normal_0), destination, donor),
        ).1 == -1,
    ensures
        walk_from(l, i, way, k, resolved, budget, destination, donor) matches (Ok(_), j) ==> j
            == -1,
{
    reveal(quietly);
    let reached = joined(resolved, way[k as int]->Normal_0);
    let lookup = looked_up(reached, destination, donor);
    let (metadata, a) = metadata_at(l, i, lookup);
    quiet_walk(l, -1, way, k + 1, reached, budget, destination, donor);
    if budget > 0 {
        let (raw, b) = read_link_at(l, a, lookup);
        lemma_walk_link(l, i, way, k, resolved, budget, destination, donor);
        if raw is Ok {
            let onward = steps(joined(popped(reached), raw->Ok_0));
            let less = (budget - 1) as nat;
            lemma_walk_spends(l, b, onward, 0, Seq::empty(), less, destination, donor);
            quiet_walk(l, b, onward, 0, Seq::empty(), less, destination, donor);
            let (inner, c) = walk_from(
                l,
                b,
                onward,
                0,
                Seq::empty(),
                less,
                destination,
                donor,
            );
            assert(b == -1);
            assert(c == -1);
            if let Ok((end, left)) = inner {
                quiet_walk(l, c, way, k + 1, end, left, destination, donor);
            }
        }
    }
}

/// A path that leads down from the root by names, with no link on the way,
/// leads where it says. Each place on the way is looked at; a place below the
/// destination is looked at where it is in the donor.
pub proof fn law_path_without_links_leads_where_it_says(
    l: Seq<Event>,
    i: int,
    path: Seq<u8>,
    destination: Seq<u8>,
    donor: Seq<u8>,
)
    requires
        0 <= i,
        straight(steps(path)),
        steps(destination).len() > 0,
        donor.len() > 0,
        resolve_link_target_at(l, i, path, destination, donor).0 is Ok,
        resolve_link_target_at(l, i, path, destination, donor).1 != -1,
        no_link(l, i, i + steps(path).len() - 1),
    ensures
        ({
            let (end, j) = resolve_link_target_at(l, i, path, destination, donor);
            &&& steps(end->Ok_0) == steps(path)
            &&& j == i + steps(path).len() - 1
            &&& forall|m: int|
                1 <= m < steps(path).len() ==> seen_at(
                    l[i + m - 1],
                    #[trigger] steps(path).take(m + 1),
                    destination,
                    donor,
                )
        }),
{
    let way = steps(path);
    lemma_root_step();
    assert(joined(Seq::<u8>::empty(), seq![SLASH]) == seq![SLASH]);
    assert(way.take(1) =~= seq![Step::Root]);
    lemma_straight_on(l, i, way, 1, seq![SLASH], MAX_LINKS as nat, destination, donor);
}

/// A link that stands at the end of such a path is followed: by the steps of its
/// text from the root where they begin there, else from the directory that the
/// link is in.
pub proof fn law_link_is_followed_from_its_directory(
    l: Seq<Event>,
    i: int,
    path: Seq<u8>,
    text: Seq<u8>,
    destination: Seq<u8>,
    donor: Seq<u8>,
)
    requires
        0 <= i,
        straight(steps(path)),
        steps(path).len() > 1,
        steps(destination).len() > 0,
        donor.len() > 0,
        text.len() > 0,
        resolve_link_target_at(l, i, path, destination, donor).0 is Ok,
        resolve_link_target_at(l, i, path, destination, donor).1 != -1,
        ({
            let last = i + steps(path).len() - 2;
            let onward = if text[0] == SLASH {
                steps(text)
            } else {
                steps(path).drop_last() + steps(text)
            };
            &&& last + 1 < l.len()
            &&& no_link(l, i, last)
            &&& l[last] matches Event::Metadata(_, Ok(metadata)) && metadata.kind() == 0o120000
            &&& l[last + 1] matches Event::ReadLink(_, Ok(raw)) && raw == text
            &&& straight(onward)
            &&& text[0] == SLASH || down(steps(text), 0)
            &&& no_link(l, last + 2, last + 1 + onward.len())
        }),
    ensures
        steps(resolve_link_target_at(l, i, path, destination, donor).0->Ok_0) == (if text[0]
            == SLASH {
            steps(text)
        } else {
            steps(path).drop_last() + steps(text)
        }),
{
    reveal(quietly);
    let way = steps(path);
    let n = (way.len() - 1) as nat;
    lemma_root_step();
    assert(joined(Seq::<u8>::empty(), seq![SLASH]) == seq![SLASH]);
    assert(way.take(1) =~= seq![Step::Root]);
    let resolved = lemma_straight_until(
        l,
        i,
        way,
        1,
        seq![SLASH],
        MAX_LINKS as nat,
        destination,
        donor,
        n,
    );
    let last = i + way.len() - 2;
    let part = way[n as int]->Normal_0;
    let reached = joined(resolved, part);
    let lookup = looked_up(reached, destination, donor);
    lemma_plain_join(resolved, part);
    lemma_plain_step(part);
    let (metadata, a) = metadata_at(l, last, lookup);
    if a == -1 {
        lemma_lost_step(l, last, way, n, resolved, MAX_LINKS as nat, destination, donor);
    }
    lemma_walk_link(l, last, way, n, resolved, MAX_LINKS as nat, destination, donor);
    let (raw, b) = read_link_at(l, a, lookup);
    assert(raw == Ok::<Seq<u8>, Seq<char>>(text));
    let less = (MAX_LINKS as nat - 1) as nat;
    let onward = joined(popped(reached), text);
    lemma_popped(resolved, part);
    if text[0] == SLASH {
        assert(onward == text);
    } else {
        if pieces(text, SLASH)[0] == dot() {
            assert(first_step(text) == seq![Step::Current]);
            assert(steps(text)[0] == Step::Current);
        }
        law_joining_adds_the_steps(popped(reached), text);
        assert(way.take(n as int) =~= way.drop_last());
    }
    let (inner, c) = walk_from(
        l,
        b,
        steps(onward),
        0,
        Seq::empty(),
        less,
        destination,
        donor,
    );
    lemma_walk_spends(l, b, steps(onward), 0, Seq::empty(), less, destination, donor);
    quiet_walk(l, b, steps(onward), 0, Seq::empty(), less, destination, donor);
    if let Ok((end, left)) = inner {
        quiet_walk(l, c, way, n + 1, end, left, destination, donor);
    }
    assert(c != -1);
    assert(b == last + 2);
    assert(steps(onward).take(1) =~= seq![Step::Root]);
    lemma_straight_on(l, b, steps(onward), 1, seq![SLASH], less, destination, donor);
}

proof fn lemma_popped(resolved: Seq<u8>, part: Seq<u8>)
    requires
        plain(part),
        resolved.len() > 0,
    ensures
        popped(joined(resolved, part)).len() > 0,
        steps(popped(joined(resolved, part))) == steps(resolved),
{
    let path = joined(resolved, part);
    lemma_plain_join(resolved, part);
    lemma_named(resolved, part);
    law_parent_and_name_make_the_path(path);
    let above = parent_of(path)->Some_0;
    assert(steps(above).push(Step::Normal(name_of(path)->Some_0)) == steps(resolved).push(
        Step::Normal(part),
    ));
    assert(steps(above) =~= steps(above).push(Step::Normal(part)).drop_last());
    assert(steps(resolved) =~= steps(resolved).push(Step::Normal(part)).drop_last());
}

proof fn lemma_named(resolved: Seq<u8>, part: Seq<u8>)
    requires
        plain(part),
        resolved.len() > 0,
    ensures
        name_of(joined(resolved, part)) == Some(part),
        parent_of(joined(resolved, part)) is Some,
        parent_of(joined(resolved, part))->Some_0.len() > 0,
{
    let path = joined(resolved, part);
    let front = if resolved.last() == SLASH {
        resolved
    } else {
        resolved.push(SLASH)
    };
    assert(part.contains(part[0]));
    assert(path =~= front + part);
    let n = path.len() as int;
    assert(part.contains(part.last()));
    assert(path[n - 1] == part.last());
    assert(trimmed(path) == path) by {
        if path[n - 1] == DOT && path[n - 2] == SLASH {
            if part.len() > 1 {
                assert(part.contains(part[part.len() - 2]));
                assert(path[n - 2] == part[part.len() - 2]);
            } else {
                assert(part =~= dot());
            }
        }
    }
    lemma_last_part(front, part);
    assert(path.skip(front.len() as int) =~= part);
    assert(path.take(front.len() as int) =~= front);
    assert(path != seq![SLASH]) by {
        assert(path[n - 1] != SLASH);
    }
    lemma_trimmed_some(front);
}

proof fn lemma_last_part(front: Seq<u8>, part: Seq<u8>)
    requires
        front.len() > 0,
        front.last() == SLASH,
        !part.contains(SLASH),
    ensures
        last_start(front + part) == front.len(),
    decreases part.len(),
{
    let path = front + part;
    if part.len() == 0 {
        assert(path =~= front);
    } else {
        assert(part.contains(part.last()));
        assert(path.last() == part.last());
        let less = part.drop_last();
        assert(path.drop_last() =~= front + less);
        assert(!less.contains(SLASH)) by {
            if less.contains(SLASH) {
                let k = choose|k: int| 0 <= k < less.len() && less[k] == SLASH;
                assert(part[k] == SLASH);
            }
        }
        lemma_last_part(front, less);
    }
}

proof fn lemma_trimmed_some(path: Seq<u8>)
    requires
        path.len() > 0,
    ensures
        trimmed(path).len() > 0,
    decreases path.len(),
{
    let n = path.len() as int;
    if n > 1 {
        lemma_trimmed_some(path.take(n - 1));
    }
}

proof fn lemma_straight_until(
    l: Seq<Event>,
    i: int,
    way: Seq<Step>,
    k: nat,
    resolved: Seq<u8>,
    budget: nat,
    destination: Seq<u8>,
    donor: Seq<u8>,
    n: nat,
) -> (end: Seq<u8>)
    requires
        0 <= i,
        straight(way),
        1 <= k <= n <= way.len(),
        resolved.len() > 0,
        steps(resolved) == way.take(k as int),
        walk_from(l, i, way, k, resolved, budget, destination, donor).0 is Ok,
        walk_from(l, i, way, k, resolved, budget, destination, donor).1 != -1,
        no_link(l, i, i + n - k),
    ensures
        end.len() > 0,
        steps(end) == way.take(n as int),
        walk_from(l, i, way, k, resolved, budget, destination, donor) == walk_from(
            l,
            i + n - k,
            way,
            n,
            end,
            budget,
            destination,
            donor,
        ),
    decreases n - k,
{
    if k < n {
        let part = way[k as int]->Normal_0;
        let reached = joined(resolved, part);
        lemma_plain_join(resolved, part);
        assert(steps(reached) =~= way.take(k as int + 1));
        let lookup = looked_up(reached, destination, donor);
        let (metadata, a) = metadata_at(l, i, lookup);
        if a == -1 {
            lemma_lost_step(l, i, way, k, resolved, budget, destination, donor);
        }
        assert(a == i + 1);
        assert(l[i] is Metadata);
        lemma_straight_until(l, a, way, k + 1, reached, budget, destination, donor, n)
    } else {
        resolved
    }
}

// ---------------------------------------------------------------------------
// Links into the donor
// ---------------------------------------------------------------------------

/// An inherited link leads from the place that it has in the destination: by its
/// own steps from the root, or from the directory that it is in there.
pub proof fn law_inherited_link_leads_from_its_new_place(
    destination: Seq<u8>,
    relative: Seq<u8>,
    text: Seq<u8>,
)
    requires
        destination.len() > 0,
        relative.len() > 0,
        steps(relative).len() > 0,
        down(steps(relative), 0),
        name_of(joined(destination, relative)) is Some,
        text.len() > 0,
        text[0] == SLASH || pieces(text, SLASH)[0] != dot(),
    ensures
        steps(link_path(destination, relative, text)) == (if text[0] == SLASH {
            steps(text)
        } else {
            steps(destination) + steps(relative).drop_last() + steps(text)
        }),
{
    let first = steps(relative)[0];
    if relative[0] == SLASH {
        assert(first_step(relative) == seq![Step::Root]);
        assert(first == Step::Root);
    } else if pieces(relative, SLASH)[0] == dot() {
        assert(first_step(relative) == seq![Step::Current]);
        assert(first == Step::Current);
    }
    law_joining_adds_the_steps(destination, relative);
    let whole = joined(destination, relative);
    law_parent_and_name_make_the_path(whole);
    let above = parent_of(whole)->Some_0;
    assert(steps(above) =~= steps(above).push(
        Step::Normal(name_of(whole)->Some_0),
    ).drop_last());
    assert(steps(above) =~= steps(destination) + steps(relative).drop_last());
    if text[0] != SLASH {
        if above.len() > 0 {
            law_joining_adds_the_steps(above, text);
        } else {
            lemma_step_of_one(above);
            lemma_one_piece(above, SLASH);
            assert(first_step(above) =~= Seq::<Step>::empty()) by {
                assert(dot().len() == 1);
            }
            assert(steps(above) =~= Seq::<Step>::empty());
            assert(steps(above) + steps(text) =~= steps(text));
        }
    }
}

/// The link `item` was followed at `j`, and it leads into the donor exactly
/// where `into` says so.
pub open spec fn followed_at(
    l: Seq<Event>,
    j: int,
    item: ItemView,
    destination: Seq<u8>,
    donor: Seq<u8>,
    into: bool,
) -> bool {
    resolve_link_target_at(
        l,
        j,
        link_path(destination, item.path, item.entry.target->Some_0),
        destination,
        donor,
    ).0 matches Ok(end) && into == begins(steps(end), steps(donor))
}

/// A link of the commit has that path.
pub open spec fn commits_own(links: Seq<Seq<u8>>, path: Seq<u8>) -> bool {
    exists|k: int| 0 <= k < links.len() && steps(#[trigger] links[k]) == steps(path)
}

/// The link `item` was followed; where it leads into the donor there is leave
/// for it, and it is among `found`.
pub open spec fn accounted(
    l: Seq<Event>,
    item: ItemView,
    destination: Seq<u8>,
    donor: Seq<u8>,
    allowed: bool,
    found: Seq<Seq<u8>>,
) -> bool {
    exists|j: int, into: bool| #[trigger]
        followed_at(l, j, item, destination, donor, into) && (into ==> allowed && found.contains(
            item.path,
        ))
}

/// `path` is that of an inherited link which leads into the donor.
pub open spec fn is_told(
    l: Seq<Event>,
    items: Seq<ItemView>,
    destination: Seq<u8>,
    donor: Seq<u8>,
    links: Seq<Seq<u8>>,
    path: Seq<u8>,
) -> bool {
    exists|m: int, j: int|
        0 <= m < items.len() && #[trigger] followed_at(
            l,
            j,
            items[m],
            destination,
            donor,
            true,
        ) && items[m].path == path && items[m].entry.target is Some && !commits_own(links, path)
}

/// The links that are told of are those that lead into the donor, of all the
/// links that are inherited and are not the commit's own; without leave there is
/// none.
pub proof fn law_links_into_the_donor_are_told(
    l: Seq<Event>,
    i: int,
    items: Seq<ItemView>,
    destination: Seq<u8>,
    donor: Seq<u8>,
    links: Seq<Seq<u8>>,
    allowed: bool,
)
    requires
        donor_links_at(l, i, items, destination, donor, links, allowed).0 is Ok,
    ensures
        ({
            let found = donor_links_at(l, i, items, destination, donor, links, allowed).0->Ok_0;
            &&& forall|m: int|
                0 <= m < items.len() && (#[trigger] items[m]).entry.target is Some
                    && !commits_own(links, items[m].path) ==> accounted(
                    l,
                    items[m],
                    destination,
                    donor,
                    allowed,
                    found,
                )
            &&& forall|f: int|
                0 <= f < found.len() ==> is_told(
                    l,
                    items,
                    destination,
                    donor,
                    links,
                    #[trigger] found[f],
                )
        }),
{
    lemma_told(l, i, items, 0, destination, donor, links, allowed, Seq::empty());
}

proof fn lemma_told(
    l: Seq<Event>,
    i: int,
    items: Seq<ItemView>,
    k: nat,
    destination: Seq<u8>,
    donor: Seq<u8>,
    links: Seq<Seq<u8>>,
    allowed: bool,
    found: Seq<Seq<u8>>,
)
    requires
        donor_links_from(l, i, items, k, destination, donor, links, allowed, found).0 is Ok,
    ensures
        ({
            let all = donor_links_from(
                l,
                i,
                items,
                k,
                destination,
                donor,
                links,
                allowed,
                found,
            ).0->Ok_0;
            &&& found.len() <= all.len()
            &&& forall|f: int| 0 <= f < found.len() ==> all[f] == #[trigger] found[f]
            &&& forall|m: int|
                k <= m < items.len() && (#[trigger] items[m]).entry.target is Some
                    && !commits_own(links, items[m].path) ==> accounted(
                    l,
                    items[m],
                    destination,
                    donor,
                    allowed,
                    all,
                )
            &&& forall|f: int|
                found.len() <= f < all.len() ==> is_told(
                    l,
                    items,
                    destination,
                    donor,
                    links,
                    #[trigger] all[f],
                )
        }),
    decreases items.len() - k,
{
    if k < items.len() {
        let item = items[k as int];
        if is_target(links, item.path) || item.entry.target is None {
            lemma_told(l, i, items, k + 1, destination, donor, links, allowed, found);
        } else {
            let (end, j) = resolve_link_target_at(
                l,
                i,
                link_path(destination, item.path, item.entry.target->Some_0),
                destination,
                donor,
            );
            let into = begins(steps(end->Ok_0), steps(donor));
            assert(followed_at(l, i, item, destination, donor, into));
            if into {
                let more = found.push(item.path);
                lemma_told(l, j, items, k + 1, destination, donor, links, allowed, more);
                let all = donor_links_from(
                    l,
                    j,
                    items,
                    k + 1,
                    destination,
                    donor,
                    links,
                    allowed,
                    more,
                ).0->Ok_0;
                let n = found.len() as int;
                assert(more[n] == item.path);
                assert(all[n] == item.path);
                assert(all.contains(item.path));
                assert forall|f: int| 0 <= f < found.len() implies all[f] == #[trigger] found[f] by {
                    assert(more[f] == found[f]);
                }
                assert(followed_at(l, i, items[k as int], destination, donor, true));
                assert(is_told(l, items, destination, donor, links, all[n]));
                assert(accounted(l, item, destination, donor, allowed, all));
            } else {
                lemma_told(l, j, items, k + 1, destination, donor, links, allowed, found);
                let all = donor_links_from(
                    l,
                    j,
                    items,
                    k + 1,
                    destination,
                    donor,
                    links,
                    allowed,
                    found,
                ).0->Ok_0;
                assert(accounted(l, item, destination, donor, allowed, all));
            }
        }
    }
}

// ---------------------------------------------------------------------------
// Links of the commit
// ---------------------------------------------------------------------------

/// At `k` the place `way` below the donor was found to be a directory.
pub open spec fn directory_at(l: Seq<Event>, k: int, donor: Seq<u8>, way: Seq<Step>) -> bool {
    l[k] matches Event::Metadata(path, Ok(metadata)) && steps(path) == steps(donor) + way
        && metadata.kind() == 0o040000
}

/// At `k` the place `way` below the donor was found not to be there.
pub open spec fn nothing_at(l: Seq<Event>, k: int, donor: Seq<u8>, way: Seq<Step>) -> bool {
    l[k] matches Event::Metadata(path, Err(error)) && steps(path) == steps(donor) + way
        && error.kind == IoErrorKind::NotFound
}

/// A link of the commit is taken for safe only where each directory that it is
/// in is a real one in the donor, down to the first that is not there.
pub proof fn law_commits_links_stand_in_real_directories(
    l: Seq<Event>,
    i: int,
    donor: Seq<u8>,
    path: Seq<u8>,
)
    requires
        0 <= i,
        donor.len() > 0,
        down(steps(link_parent(path)), 0),
        ancestors_at(l, i, donor, path).0 is None,
        ancestors_at(l, i, donor, path).1 != -1,
    ensures
        exists|n: int| #[trigger] stands_down_to(l, i, donor, steps(link_parent(path)), n),
{
    let way = steps(link_parent(path));
    let n = lemma_ancestors(l, i, donor, path, way, 0, Seq::empty());
    assert(stands_down_to(l, i, donor, way, n));
}

/// The first `n` places of `way` are directories, and then the way ends or leads
/// to nothing.
pub open spec fn stands_down_to(
    l: Seq<Event>,
    i: int,
    donor: Seq<u8>,
    way: Seq<Step>,
    n: int,
) -> bool {
    &&& 0 <= n <= way.len()
    &&& forall|m: int|
        0 <= m < n ==> directory_at(l, i + m, donor, #[trigger] way.take(m + 1))
    &&& n == way.len() || nothing_at(l, i + n, donor, way.take(n + 1))
}

proof fn lemma_ancestors(
    l: Seq<Event>,
    i: int,
    donor: Seq<u8>,
    path: Seq<u8>,
    way: Seq<Step>,
    k: nat,
    ancestor: Seq<u8>,
) -> (n: int)
    requires
        0 <= i,
        donor.len() > 0,
        down(way, 0),
        k <= way.len(),
        k == 0 ==> ancestor.len() == 0,
        k > 0 ==> ancestor.len() > 0 && ancestor[0] != SLASH && steps(ancestor) == way.take(
            k as int,
        ),
        ancestors_from(l, i, donor, path, way, k, ancestor).0 is None,
        ancestors_from(l, i, donor, path, way, k, ancestor).1 != -1,
    ensures
        k <= n <= way.len(),
        forall|m: int|
            k <= m < n ==> directory_at(l, i + m - k, donor, #[trigger] way.take(m + 1)),
        n == way.len() || nothing_at(l, i + n - k, donor, way.take(n + 1)),
    decreases way.len() - k,
{
    if k < way.len() {
        let name = way[k as int]->Normal_0;
        let below = joined(ancestor, name);
        lemma_plain_step(name);
        if k == 0 {
            assert(way.take(1) =~= seq![Step::Normal(name)]);
        } else {
            lemma_plain_join(ancestor, name);
            assert(steps(below) =~= way.take(k as int + 1));
            assert(below[0] == ancestor[0]);
        }
        assert(steps(below) == way.take(k as int + 1));
        if pieces(below, SLASH)[0] == dot() {
            assert(first_step(below) == seq![Step::Current]);
            assert(steps(below)[0] == Step::Current);
            assert(way.take(k as int + 1)[0] == way[0]);
        }
        law_joining_adds_the_steps(donor, below);
        let (metadata, a) = metadata_at(l, i, joined(donor, below));
        lemma_lost_ancestors(l, donor, path, way, k + 1, below);
        assert(a == i + 1);
        if metadata is Ok {
            let n = lemma_ancestors(l, a, donor, path, way, k + 1, below);
            assert forall|m: int| k <= m < n implies directory_at(
                l,
                i + m - k,
                donor,
                #[trigger] way.take(m + 1),
            ) by {
                if m > k {
                    assert(a + m - (k + 1) == i + m - k);
                }
            }
            assert(a + n - (k + 1) == i + n - k);
            n
        } else {
            k as int
        }
    } else {
        k as int
    }
}

proof fn lemma_lost_ancestors(
    l: Seq<Event>,
    donor: Seq<u8>,
    path: Seq<u8>,
    way: Seq<Step>,
    k: nat,
    ancestor: Seq<u8>,
)
    ensures
        ancestors_from(l, -1, donor, path, way, k, ancestor).1 == -1,
    decreases way.len() - k,
{
    if k < way.len() {
        if let Step::Normal(name) = way[k as int] {
            lemma_lost_ancestors(l, donor, path, way, k + 1, joined(ancestor, name));
        }
    }
}

} // verus!
