//! An inherited worktree is registered, filled, settled and reported as asked.
use crate::add::branch::{prepare_branch_at, PreparedView};
use crate::add::carried::{
    emptying, hooked, lemma_hooked, lemma_registered, listing, registering,
};
use crate::add::inherited::{
    differs_at, donor_changed_at, inherit_carry_out_at, inherit_files_at, inherit_into_at,
    settle_in_at, target_links_at, InheritView,
};
use crate::add::links::{
    collect_from, collect_links_at, enter_at, enter_from, link_parent, link_paths, linked,
    make_from, make_link_at, LinkView, way_before,
};
use crate::add::laws::placed;
use crate::add::meant::{asked, head_stood, lemma_prepared_after, ran};
use crate::add::preflight::{opened, register_at, registered};
use crate::add::report::{post_checkout_at, AddedView};
use crate::add::sequence::{
    lemma_entered_onward, lemma_files_onward, lemma_links_onward, lemma_made_onward,
    lemma_seen_again, lemma_settled_in_onward, onward,
};
use crate::add::transaction::TransactionView;
use crate::cli::AddView;
use crate::error::{ErrorView, HookView};
use crate::fsclone::Backend;
use crate::git::{
    disable_index_caches_at, entries_in, git_path_at, install_index_at, line_of,
    read_target_index_at, EntryView, GitFailureView,
};
use crate::host::{is_directory_at, open_base_at, CallView, Event};
use crate::inherit::{finalize_directories_at, materialize_at, ReportView};
use crate::output::{base64_text, EncodedView};
use crate::outside::lossy_text;
use crate::path::{name_of, parent_of, steps, Step};
use crate::text::{pieces, utf8};
use vstd::prelude::*;

verus! {

// ---------------------------------------------------------------------------
// The links of the commit
// ---------------------------------------------------------------------------

/// The names of the directories that were entered, one below the other, between
/// `i` and `j`.
pub open spec fn descents(l: Seq<Event>, i: int, j: int) -> Seq<Seq<u8>>
    decreases j - i,
{
    if i >= j {
        Seq::empty()
    } else {
        let before = descents(l, i, j - 1);
        match l[j - 1] {
            Event::Descend(name, None) => before.push(name),
            _ => before,
        }
    }
}

/// The steps of a path that has no others than names.
pub open spec fn named_steps(names: Seq<Seq<u8>>) -> Seq<Step> {
    names.map_values(|name: Seq<u8>| Step::Normal(name))
}

/// Between `i` and `j` a link was made below `destination`: that directory was
/// opened, the directories on the way to the link were entered, one below the
/// other and no others, and in the last of them the link was made, under its
/// name and with its text.
pub open spec fn link_made(
    l: Seq<Event>,
    i: int,
    j: int,
    destination: Seq<u8>,
    link: LinkView,
) -> bool {
    exists|u: int, v: int| i <= u < v < j && #[trigger] made_between(l, u, v, destination, link)
}

/// The link was made at `v`, on a way that begins at `u`.
pub open spec fn made_between(
    l: Seq<Event>,
    u: int,
    v: int,
    destination: Seq<u8>,
    link: LinkView,
) -> bool {
    &&& l[u] == Event::OpenBase(destination, None)
    &&& named_steps(descents(l, u + 1, v)) == steps(
        match parent_of(link.path) {
            Some(above) => above,
            None => Seq::empty(),
        },
    )
    &&& name_of(link.path) matches Some(leaf) && l[v] == Event::LinkBelow(link.data, leaf, None)
}

proof fn lemma_descents_split(l: Seq<Event>, i: int, m: int, j: int)
    requires
        i <= m <= j,
    ensures
        descents(l, i, j) == descents(l, i, m) + descents(l, m, j),
    decreases j - m,
{
    if m < j {
        lemma_descents_split(l, i, m, j - 1);
        assert(descents(l, i, j) =~= descents(l, i, m) + descents(l, m, j));
    } else {
        assert(descents(l, i, j) =~= descents(l, i, m) + descents(l, m, j));
    }
}

proof fn lemma_entered(l: Seq<Event>, i: int, path: Seq<u8>, way: Seq<Step>, k: nat)
    requires
        placed(l, i),
        k <= way.len(),
        enter_from(l, i, path, way, k).0 is None,
        enter_from(l, i, path, way, k).1 != -1,
    ensures
        0 <= i <= enter_from(l, i, path, way, k).1 <= l.len(),
        named_steps(descents(l, i, enter_from(l, i, path, way, k).1)) == way.skip(k as int),
    decreases way.len() - k,
{
    let j = enter_from(l, i, path, way, k).1;
    if k < way.len() {
        let name = way[k as int]->Normal_0;
        let (r, a) = enter_at(l, i, name);
        lemma_entered_onward(l, a, path, way, k + 1);
        assert(a != -1);
        lemma_entered(l, a, path, way, k + 1);
        lemma_descents_split(l, i, a, j);
        reveal_with_fuel(descents, 4);
        assert(descents(l, i, a) =~= seq![name]);
        let all = named_steps(descents(l, i, j));
        let rest = named_steps(descents(l, a, j));
        assert(rest == way.skip(k as int + 1));
        assert(all.len() == rest.len() + 1);
        assert forall|x: int| 0 <= x < all.len() implies all[x] == way.skip(k as int)[x] by {
            if x > 0 {
                assert(all[x] == rest[x - 1]);
            }
        }
        assert(all =~= way.skip(k as int));
    } else {
        assert(named_steps(descents(l, i, j)) =~= way.skip(k as int));
    }
}

proof fn lemma_link_made(l: Seq<Event>, i: int, destination: Seq<u8>, link: LinkView)
    requires
        placed(l, i),
        make_link_at(l, i, destination, link).0 is None,
        make_link_at(l, i, destination, link).1 != -1,
    ensures
        0 <= i < make_link_at(l, i, destination, link).1 <= l.len(),
        link_made(l, i, make_link_at(l, i, destination, link).1, destination, link),
{
    let (opened, a) = open_base_at(l, i, destination);
    let way = steps(link_parent(link.path));
    let (entered, b) = enter_from(l, a, link.path, way, 0);
    lemma_entered_onward(l, a, link.path, way, 0);
    lemma_entered(l, a, link.path, way, 0);
    assert(way.skip(0) =~= way);
    assert(made_between(l, i, b, destination, link));
}

proof fn lemma_links_made(
    l: Seq<Event>,
    i: int,
    destination: Seq<u8>,
    links: Seq<LinkView>,
    k: nat,
)
    requires
        placed(l, i),
        k <= links.len(),
        make_from(l, i, destination, links, k).0 is None,
        make_from(l, i, destination, links, k).1 != -1,
    ensures
        0 <= i <= make_from(l, i, destination, links, k).1 <= l.len(),
        forall|n: int|
            k <= n < links.len() ==> link_made(
                l,
                i,
                make_from(l, i, destination, links, k).1,
                destination,
                #[trigger] links[n],
            ),
    decreases links.len() - k,
{
    let j = make_from(l, i, destination, links, k).1;
    if k < links.len() {
        let link = links[k as int];
        let (r, a) = make_link_at(l, i, destination, link);
        let way = steps(link_parent(link.path));
        lemma_entered_onward(l, open_base_at(l, i, destination).1, link.path, way, 0);
        assert(placed(l, a));
        lemma_made_onward(l, a, destination, links, k + 1);
        lemma_link_made(l, i, destination, link);
        lemma_links_made(l, a, destination, links, k + 1);
        assert forall|n: int| k <= n < links.len() implies link_made(
            l,
            i,
            j,
            destination,
            #[trigger] links[n],
        ) by {
            let (from, to) = if n == k {
                (i, a)
            } else {
                (a, j)
            };
            assert(link_made(l, from, to, destination, links[n]));
            let (u, v) = choose|u: int, v: int|
                from <= u < v < to && #[trigger] made_between(l, u, v, destination, links[n]);
            assert(made_between(l, u, v, destination, links[n]));
        }
    }
}

/// At `k` in the log Git printed the blob `oid`, which is `data`.
pub open spec fn blob_was(
    l: Seq<Event>,
    k: int,
    cwd: Seq<u8>,
    oid: Seq<char>,
    data: Seq<u8>,
) -> bool {
    ran(l, k, asked(cwd, seq![utf8("cat-file"@), utf8("blob"@), utf8(oid)]), data)
}

/// `link` is one of the links that `entries` hold: it has the path of one, and
/// its text is what Git said between `i` and `j` that is in it.
pub open spec fn link_from(
    l: Seq<Event>,
    i: int,
    j: int,
    cwd: Seq<u8>,
    entries: Seq<EntryView>,
    link: LinkView,
) -> bool {
    exists|n: int, k: int|
        {
            &&& 0 <= n < entries.len()
            &&& (#[trigger] entries[n]).stage == 0
            &&& entries[n].mode == 0o120000
            &&& steps(entries[n].path) == steps(link.path)
            &&& i <= k < j
            &&& #[trigger] blob_was(l, k, cwd, entries[n].oid, link.data)
        }
}

/// One of `links` is at `path`.
pub open spec fn link_at(links: Seq<LinkView>, path: Seq<u8>) -> bool {
    exists|m: int| 0 <= m < links.len() && steps((#[trigger] links[m]).path) == steps(path)
}

proof fn lemma_linked(links: Seq<LinkView>, link: LinkView)
    ensures
        forall|m: int|
            0 <= m < linked(links, link).len() ==> {
                let x = #[trigger] linked(links, link)[m];
                ||| x.data == link.data && steps(x.path) == steps(link.path)
                ||| links.contains(x)
            },
        link_at(linked(links, link), link.path),
        forall|path: Seq<u8>| #[trigger]
            link_at(links, path) ==> link_at(linked(links, link), path),
    decreases links.len(),
{
    let after = linked(links, link);
    if links.len() == 0 {
        assert(after[0] == link);
    } else if way_before(steps(links.last().path), steps(link.path)) {
        assert(after[links.len() as int] == link);
        assert forall|m: int| 0 <= m < after.len() implies {
            let x = #[trigger] after[m];
            ||| x.data == link.data && steps(x.path) == steps(link.path)
            ||| links.contains(x)
        } by {
            if m < links.len() {
                assert(links[m] == after[m]);
            }
        }
        assert forall|path: Seq<u8>| #[trigger] link_at(links, path) implies link_at(
            after,
            path,
        ) by {
            let m = choose|m: int|
                0 <= m < links.len() && steps((#[trigger] links[m]).path) == steps(path);
            assert(after[m] == links[m]);
        }
    } else if steps(links.last().path) == steps(link.path) {
        let end = links.len() - 1;
        assert(after[end].path == links.last().path);
        assert forall|m: int| 0 <= m < after.len() implies {
            let x = #[trigger] after[m];
            ||| x.data == link.data && steps(x.path) == steps(link.path)
            ||| links.contains(x)
        } by {
            if m < end {
                assert(links[m] == after[m]);
            }
        }
        assert forall|path: Seq<u8>| #[trigger] link_at(links, path) implies link_at(
            after,
            path,
        ) by {
            let m = choose|m: int|
                0 <= m < links.len() && steps((#[trigger] links[m]).path) == steps(path);
            assert(after[m].path == links[m].path);
        }
    } else {
        let front = links.drop_last();
        let rest = linked(front, link);
        lemma_linked(front, link);
        assert(after == rest.push(links.last()));
        assert forall|m: int| 0 <= m < after.len() implies {
            let x = #[trigger] after[m];
            ||| x.data == link.data && steps(x.path) == steps(link.path)
            ||| links.contains(x)
        } by {
            if m < rest.len() {
                assert(after[m] == rest[m]);
                if front.contains(rest[m]) {
                    let n = choose|n: int| 0 <= n < front.len() && front[n] == rest[m];
                    assert(links[n] == after[m]);
                }
            } else {
                assert(links[links.len() - 1] == after[m]);
            }
        }
        assert(link_at(after, link.path)) by {
            let m = choose|m: int|
                0 <= m < rest.len() && steps((#[trigger] rest[m]).path) == steps(link.path);
            assert(after[m] == rest[m]);
        }
        assert forall|path: Seq<u8>| #[trigger] link_at(links, path) implies link_at(
            after,
            path,
        ) by {
            let m = choose|m: int|
                0 <= m < links.len() && steps((#[trigger] links[m]).path) == steps(path);
            if m == links.len() - 1 {
                assert(after[rest.len() as int] == links[m]);
            } else {
                assert(front[m] == links[m]);
                assert(link_at(front, path));
                let n = choose|n: int|
                    0 <= n < rest.len() && steps((#[trigger] rest[n]).path) == steps(path);
                assert(after[n] == rest[n]);
            }
        }
    }
}

proof fn lemma_collected(
    l: Seq<Event>,
    start: int,
    i: int,
    entries: Seq<EntryView>,
    k: nat,
    destination: Seq<u8>,
    json: bool,
    t: TransactionView,
    links: Seq<LinkView>,
)
    requires
        placed(l, i),
        i != -1 ==> 0 <= start <= i,
        k <= entries.len(),
        i != -1 ==> forall|m: int|
            0 <= m < links.len() ==> link_from(
                l,
                start,
                i,
                destination,
                entries,
                #[trigger] links[m],
            ),
        forall|n: int|
            0 <= n < k && (#[trigger] entries[n]).stage == 0 && entries[n].mode == 0o120000
                ==> link_at(links, entries[n].path),
        collect_from(l, i, entries, k, destination, json, t, links).0 is Ok,
    ensures
        ({
            let (r, j) = collect_from(l, i, entries, k, destination, json, t, links);
            let found = r->Ok_0;
            &&& j == -1 || (i != -1 && i <= j <= l.len())
            &&& j != -1 ==> forall|m: int|
                0 <= m < found.len() ==> link_from(
                    l,
                    start,
                    j,
                    destination,
                    entries,
                    #[trigger] found[m],
                )
            &&& forall|n: int|
                0 <= n < entries.len() && (#[trigger] entries[n]).stage == 0 && entries[n].mode
                    == 0o120000 ==> link_at(found, entries[n].path)
        }),
    decreases entries.len() - k,
{
    if k < entries.len() {
        let entry = entries[k as int];
        if !(entry.stage == 0 && entry.mode == 0o120000) {
            lemma_collected(l, start, i, entries, k + 1, destination, json, t, links);
        } else {
            let (data, a) = crate::git::blob_at(l, i, destination, entry.oid);
            let data = data->Ok_0;
            let link = LinkView { path: entry.path, data };
            let more = linked(links, link);
            lemma_linked(links, link);
            if a != -1 {
                assert(a == i + 1);
                assert(blob_was(l, i, destination, entry.oid, data));
                assert forall|m: int| 0 <= m < more.len() implies link_from(
                    l,
                    start,
                    a,
                    destination,
                    entries,
                    #[trigger] more[m],
                ) by {
                    let x = more[m];
                    if x.data == link.data && steps(x.path) == steps(link.path) {
                        assert(entries[k as int].stage == 0);
                        assert(blob_was(l, i, destination, entries[k as int].oid, x.data));
                    } else {
                        let o = choose|o: int| 0 <= o < links.len() && links[o] == x;
                        assert(link_from(l, start, i, destination, entries, links[o]));
                        let (n, c) = choose|n: int, c: int|
                            {
                                &&& 0 <= n < entries.len()
                                &&& (#[trigger] entries[n]).stage == 0
                                &&& entries[n].mode == 0o120000
                                &&& steps(entries[n].path) == steps(x.path)
                                &&& start <= c < i
                                &&& #[trigger] blob_was(
                                    l,
                                    c,
                                    destination,
                                    entries[n].oid,
                                    x.data,
                                )
                            };
                        assert(entries[n].stage == 0);
                        assert(blob_was(l, c, destination, entries[n].oid, x.data));
                    }
                }
            }
            lemma_collected(l, start, a, entries, k + 1, destination, json, t, more);
        }
    }
}

// ---------------------------------------------------------------------------
// The worktree
// ---------------------------------------------------------------------------

/// From `a` on Git made the worktree and said that `commit` is checked out in
/// it; then its index was filled from that commit, and `entries` are on it.
#[verifier::opaque]
pub open spec fn readied(
    l: Seq<Event>,
    a: int,
    plan: InheritView,
    args: AddView,
    reference: Option<Seq<char>>,
    commit: Seq<char>,
    entries: Seq<EntryView>,
) -> bool {
    let destination = plan.place.destination;
    &&& l[a] is IsDirectory
    &&& exists|stdout: Seq<u8>| #[trigger]
        ran(l, a + 1, registering(plan.place.cwd, destination, args, reference), stdout)
    &&& l[a + 2] == Event::Cancelled(false)
    &&& head_stood(l, a + 3, destination, commit)
    &&& exists|stdout: Seq<u8>| #[trigger] ran(l, a + 4, emptying(destination, commit), stdout)
    &&& exists|stdout: Seq<u8>| #[trigger]
        ran(l, a + 5, listing(destination), stdout) && entries_in(pieces(stdout, 0)) == Ok::<
            Seq<EntryView>,
            GitFailureView,
        >(entries)
}

/// `links` are the links that `entries` hold, with the texts that Git said
/// between `i` and `j` that are in them.
#[verifier::opaque]
pub open spec fn links_of(
    l: Seq<Event>,
    i: int,
    j: int,
    destination: Seq<u8>,
    entries: Seq<EntryView>,
    links: Seq<LinkView>,
) -> bool {
    &&& forall|m: int|
        0 <= m < links.len() ==> link_from(l, i, j, destination, entries, #[trigger] links[m])
    &&& forall|n: int|
        0 <= n < entries.len() && (#[trigger] entries[n]).stage == 0 && entries[n].mode == 0o120000
            ==> link_at(links, entries[n].path)
}

/// The paths of links.
pub open spec fn paths_on(links: Seq<LinkView>) -> Seq<Seq<u8>> {
    Seq::new(links.len(), |m: int| links[m].path)
}

/// From `q` to `p` the files of the donor were copied, but for the links of the
/// commit.
#[verifier::opaque]
pub open spec fn files_came(
    l: Seq<Event>,
    q: int,
    p: int,
    plan: InheritView,
    links: Seq<LinkView>,
    args: AddView,
    report: ReportView,
) -> bool {
    &&& 0 <= q
    &&& p <= l.len()
    &&& l[p - 1] == Event::Cancelled(false)
    &&& l[q] matches Event::OnLinux(linux) && materialize_at(
        l,
        q + 1,
        plan.record,
        plan.place.destination,
        paths_on(links),
        args.allow_copy,
        args.allow_donor_links,
        linux,
    ) == (Ok::<ReportView, Seq<char>>(report), p - 1)
}

/// The question where the index of a worktree is.
pub open spec fn index_question(cwd: Seq<u8>) -> CallView {
    asked(
        cwd,
        seq![
            utf8("rev-parse"@),
            utf8("--path-format=absolute"@),
            utf8("--git-path"@),
            utf8("index"@),
        ],
    )
}

/// The index of a worktree is to do without what watches and caches it.
pub open spec fn uncaching(cwd: Seq<u8>) -> CallView {
    asked(
        cwd,
        seq![utf8("update-index"@), utf8("--no-fsmonitor"@), utf8("--no-untracked-cache"@)],
    )
}

/// From `p` on the index of the worktree was replaced, at one stroke, by
/// `bytes`, and what watched and cached the donor's was turned off; that was
/// done at `n`.
#[verifier::opaque]
pub open spec fn index_came(
    l: Seq<Event>,
    p: int,
    n: int,
    destination: Seq<u8>,
    bytes: Seq<u8>,
) -> bool {
    exists|stdout: Seq<u8>, stage: Seq<u8>|
        {
            &&& #[trigger] ran(l, p, index_question(destination), stdout)
            &&& l[p + 1] is ProcessId
            &&& #[trigger] index_swapped(l, p, line_of(stdout), stage, bytes)
            &&& n == (if parent_of(line_of(stdout)) is Some {
                p + 5
            } else {
                p + 4
            })
            &&& exists|said: Seq<u8>| #[trigger] ran(l, n, uncaching(destination), said)
        }
}

/// `bytes` were written to `stage`, which was moved to `index`, and that was
/// made to last.
pub open spec fn index_swapped(
    l: Seq<Event>,
    p: int,
    index: Seq<u8>,
    stage: Seq<u8>,
    bytes: Seq<u8>,
) -> bool {
    &&& l[p + 2] == Event::WriteNew(stage, bytes, None)
    &&& l[p + 3] == Event::Rename(stage, index, None)
    &&& parent_of(index) matches Some(above) ==> l[p + 4] == Event::SyncDirectory(above, None)
}

/// From `p` to `a` the worktree was settled: it got the donor's index, its own
/// links, and its directories were finished.
#[verifier::opaque]
pub open spec fn settled_in(
    l: Seq<Event>,
    p: int,
    a: int,
    plan: InheritView,
    links: Seq<LinkView>,
) -> bool {
    let destination = plan.place.destination;
    exists|n: int, d: int|
        {
            &&& p < n < d <= a
            &&& #[trigger] index_came(l, p, n, destination, plan.state.index)
            &&& forall|m: int|
                0 <= m < links.len() ==> link_made(l, n + 1, d, destination, #[trigger] links[m])
            &&& #[trigger] finalize_directories_at(
                l,
                d,
                plan.record,
                destination,
                paths_on(links),
            ) == (None::<Seq<char>>, a)
        }
}

/// What `added` says of an inherited worktree.
#[verifier::opaque]
pub open spec fn tells(
    added: AddedView,
    plan: InheritView,
    report: ReportView,
    links: Seq<LinkView>,
) -> bool {
    &&& added.path.display == lossy_text(plan.place.destination)
    &&& added.path.bytes_base64 == base64_text(plan.place.destination)
    &&& added.head == Some(plan.state.head)
    &&& added.backend == (if report.copied_files > 0 && report.cow_files == 0 {
        "copy"@
    } else {
        match plan.backend {
            Some(Backend::Apfs) => "apfs"@,
            Some(Backend::LinuxReflink) => "linux-reflink"@,
            None => "copy"@,
        }
    })
    &&& added.cow_files == report.cow_files
    &&& added.copied_files == report.copied_files
    &&& added.hardlinks == report.hardlinks
    &&& added.git_files == links.len()
    &&& lists(added.skipped_special, report.skipped_special)
    &&& lists(added.inherited_symlinks, report.symlinks)
    &&& lists(added.donor_links, report.donor_links)
    &&& added.warnings == plan.warnings + report.warnings
}

/// The paths are listed, each by its bytes and as text.
pub open spec fn lists(shown: Seq<EncodedView>, paths: Seq<Seq<u8>>) -> bool {
    &&& shown.len() == paths.len()
    &&& forall|n: int|
        0 <= n < paths.len() ==> (#[trigger] shown[n]).display == lossy_text(paths[n])
            && shown[n].bytes_base64 == base64_text(paths[n])
}

/// An inherited worktree is made as asked. Git makes it on the branch that was
/// settled on, at the donor's commit. The donor's files are copied, but for the
/// links of the commit; the worktree gets the donor's index as it is, with what
/// watches and caches it turned off; the links of the commit are made; and the
/// directories are finished. At last the hook is run, and all that is what is
/// reported.
pub proof fn law_inherited_worktree_is_made_as_asked(
    l: Seq<Event>,
    i: int,
    args: AddView,
    plan: InheritView,
    added: AddedView,
    j: int,
)
    requires
        0 <= i <= l.len(),
        inherit_carry_out_at(l, i, args, plan) == (Ok::<AddedView, ErrorView>(added), j),
        j != -1,
    ensures
        ({
            let destination = plan.place.destination;
            let (prepared, a) = prepare_branch_at(l, i, plan.place.cwd, destination, args);
            &&& prepared is Ok
            &&& exists|
                entries: Seq<EntryView>,
                links: Seq<LinkView>,
                report: ReportView,
                q: int,
                p: int,
                b: int,
                h: int,
            |
                {
                    &&& i <= a
                    &&& a + 6 <= q < p < b < h < j <= l.len()
                    &&& readied(
                        l,
                        a,
                        plan,
                        args,
                        prepared->Ok_0.checkout_ref,
                        plan.state.head,
                        entries,
                    )
                    &&& #[trigger] links_of(l, a + 6, q, destination, entries, links)
                    &&& #[trigger] files_came(l, q, p, plan, links, args, report)
                    &&& #[trigger] settled_in(l, p, b, plan, links)
                    &&& #[trigger] hooked(
                        l,
                        h,
                        j,
                        destination,
                        plan.state.head,
                        args.json,
                        added,
                    )
                    &&& tells(added, plan, report, links)
                }
        }),
{
    let destination = plan.place.destination;
    let (prepared, a) = prepare_branch_at(l, i, plan.place.cwd, destination, args);
    let prepared = prepared->Ok_0;
    let (t, report, links, h) = lemma_inherit_steps(l, i, args, plan, added, j);
    lemma_prepared_after(l, i, plan.place.cwd, destination, args);
    lemma_hooked(l, h, destination, plan.state.head, args.json, added, j);
    let before = opened(
        plan.place.cwd,
        destination,
        is_directory_at(l, a, destination).0,
        prepared,
    );
    let (entries, q, p, b) = lemma_from_registering(
        l,
        a,
        plan,
        args,
        prepared,
        before,
        t,
        report,
        links,
        h,
    );
    assert(links_of(l, a + 6, q, destination, entries, links));
}

proof fn lemma_from_registering(
    l: Seq<Event>,
    a: int,
    plan: InheritView,
    args: AddView,
    prepared: PreparedView,
    before: TransactionView,
    t: TransactionView,
    report: ReportView,
    links: Seq<LinkView>,
    h: int,
) -> (r: (Seq<EntryView>, int, int, int))
    requires
        0 <= a,
        l[a] is IsDirectory,
        before.repository == plan.place.cwd,
        before.destination == plan.place.destination,
        register_at(l, a + 1, args, prepared, before) == (
            Ok::<Seq<char>, ErrorView>(plan.state.head),
            a + 4,
        ),
        inherit_into_at(l, a + 4, plan, plan.state.head, args, t) == (
            Ok::<(ReportView, Seq<LinkView>), ErrorView>((report, links)),
            h,
        ),
        h != -1,
    ensures
        ({
            let (entries, q, p, b) = r;
            let destination = plan.place.destination;
            &&& a + 6 <= q < p < b < h
            &&& readied(
                l,
                a,
                plan,
                args,
                prepared.checkout_ref,
                plan.state.head,
                entries,
            )
            &&& links_of(l, a + 6, q, destination, entries, links)
            &&& files_came(l, q, p, plan, links, args, report)
            &&& settled_in(l, p, b, plan, links)
        }),
{
    let destination = plan.place.destination;
    lemma_registered(l, a + 1, args, prepared, before);
    let (entries, q, p, b) = lemma_inherited_into(l, a + 4, plan, args, t, report, links, h);
    reveal(readied);
    assert(ran(
        l,
        a + 5,
        listing(destination),
        choose|stdout: Seq<u8>| #[trigger]
            ran(l, a + 4 + 1, listing(destination), stdout) && entries_in(pieces(stdout, 0))
                == Ok::<Seq<EntryView>, GitFailureView>(entries),
    ));
    (entries, q, p, b)
}

proof fn lemma_inherit_steps(
    l: Seq<Event>,
    i: int,
    args: AddView,
    plan: InheritView,
    added: AddedView,
    j: int,
) -> (r: (TransactionView, ReportView, Seq<LinkView>, int))
    requires
        0 <= i <= l.len(),
        inherit_carry_out_at(l, i, args, plan) == (Ok::<AddedView, ErrorView>(added), j),
        j != -1,
    ensures
        ({
            let (t, report, links, h) = r;
            let destination = plan.place.destination;
            let (prepared, a) = prepare_branch_at(l, i, plan.place.cwd, destination, args);
            let (existed, b) = is_directory_at(l, a, destination);
            let before = opened(plan.place.cwd, destination, existed, prepared->Ok_0);
            &&& prepared is Ok
            &&& a != -1
            &&& b == a + 1
            &&& l[a] is IsDirectory
            &&& register_at(l, a + 1, args, prepared->Ok_0, before) == (
                Ok::<Seq<char>, ErrorView>(plan.state.head),
                a + 4,
            )
            &&& inherit_into_at(l, a + 4, plan, plan.state.head, args, t) == (
                Ok::<(ReportView, Seq<LinkView>), ErrorView>((report, links)),
                h,
            )
            &&& h != -1
            &&& post_checkout_at(l, h, destination, plan.state.head, args.json) == (
                Ok::<HookView, ErrorView>(added.hook_output),
                j,
            )
            &&& tells(added, plan, report, links)
        }),
{
    reveal(inherit_carry_out_at);
    let destination = plan.place.destination;
    let (prepared, a) = prepare_branch_at(l, i, plan.place.cwd, destination, args);
    let prepared = prepared->Ok_0;
    let (existed, b) = is_directory_at(l, a, destination);
    let before = opened(plan.place.cwd, destination, existed, prepared);
    let (target, c) = register_at(l, b, args, prepared, before);
    let t = registered(before);
    let (done, h) = inherit_into_at(l, c, plan, plan.state.head, args, t);
    let (report, links) = done->Ok_0;
    assert(h != -1);
    assert(c != -1) by {
        if c == -1 {
            lemma_into_onward(l, c, plan, args, t);
        }
    }
    lemma_registered(l, b, args, prepared, before);
    assert(tells(added, plan, report, links)) by {
        reveal(tells);
    }
    (t, report, links, h)
}

proof fn lemma_into_onward(
    l: Seq<Event>,
    i: int,
    plan: InheritView,
    args: AddView,
    t: TransactionView,
)
    requires
        placed(l, i),
        inherit_into_at(l, i, plan, plan.state.head, args, t).0 is Ok,
    ensures
        onward(l, i, inherit_into_at(l, i, plan, plan.state.head, args, t).1),
{
    reveal(inherit_into_at);
    let (links, q) = target_links_at(l, i, plan, plan.state.head, args.json, t);
    lemma_links_onward(l, i, plan, plan.state.head, args.json, t);
    let links = links->Ok_0;
    let (report, p) = inherit_files_at(l, q, plan, links, args, t);
    lemma_files_onward(l, q, plan, links, args, t);
    let (wrong, b) = settle_in_at(l, p, plan, links, args.json, t);
    lemma_settled_in_onward(l, p, plan, links, args.json, t);
    let (changed, c) = donor_changed_at(l, b, plan, args.json, t);
    let (differs, e) = differs_at(l, c, plan, args.json, t);
    lemma_seen_again(l, b, plan, args.json, t);
}

proof fn lemma_inherited_into(
    l: Seq<Event>,
    i: int,
    plan: InheritView,
    args: AddView,
    t: TransactionView,
    report: ReportView,
    links: Seq<LinkView>,
    h: int,
) -> (r: (Seq<EntryView>, int, int, int))
    requires
        0 <= i <= l.len(),
        inherit_into_at(l, i, plan, plan.state.head, args, t) == (
            Ok::<(ReportView, Seq<LinkView>), ErrorView>((report, links)),
            h,
        ),
        h != -1,
    ensures
        ({
            let (entries, q, p, b) = r;
            let destination = plan.place.destination;
            &&& i + 2 <= q < p < b < h
            &&& exists|stdout: Seq<u8>| #[trigger]
                ran(l, i, emptying(destination, plan.state.head), stdout)
            &&& exists|stdout: Seq<u8>| #[trigger]
                ran(l, i + 1, listing(destination), stdout) && entries_in(pieces(stdout, 0))
                    == Ok::<Seq<EntryView>, GitFailureView>(entries)
            &&& links_of(l, i + 2, q, destination, entries, links)
            &&& files_came(l, q, p, plan, links, args, report)
            &&& settled_in(l, p, b, plan, links)
        }),
{
    reveal(inherit_into_at);
    let destination = plan.place.destination;
    let (found, q) = target_links_at(l, i, plan, plan.state.head, args.json, t);
    assert(found->Ok_0 == links);
    lemma_links_onward(l, i, plan, plan.state.head, args.json, t);
    let (done, p) = inherit_files_at(l, q, plan, links, args, t);
    lemma_files_onward(l, q, plan, links, args, t);
    let (wrong, b) = settle_in_at(l, p, plan, links, args.json, t);
    lemma_settled_in_onward(l, p, plan, links, args.json, t);
    let (changed, c) = donor_changed_at(l, b, plan, args.json, t);
    let (differs, e) = differs_at(l, c, plan, args.json, t);
    lemma_seen_again(l, b, plan, args.json, t);
    assert(b < h) by {
        reveal(differs_at);
    }
    let entries = lemma_target_links(l, i, plan, args.json, t, links, q);
    assert(files_came(l, q, p, plan, links, args, report) && q < p) by {
        reveal(files_came);
        reveal(inherit_files_at);
        assert(link_paths(links) =~= paths_on(links));
        let (linux, x) = crate::host::on_linux_at(l, q);
        crate::add::isolation::lemma_materialized(
            l,
            x,
            plan.record,
            destination,
            link_paths(links),
            args.allow_copy,
            args.allow_donor_links,
            linux,
        );
    }
    lemma_settles(l, p, plan, links, args.json, t, b);
    (entries, q, p, b)
}

proof fn lemma_target_links(
    l: Seq<Event>,
    i: int,
    plan: InheritView,
    json: bool,
    t: TransactionView,
    links: Seq<LinkView>,
    q: int,
) -> (entries: Seq<EntryView>)
    requires
        0 <= i <= l.len(),
        target_links_at(l, i, plan, plan.state.head, json, t) == (
            Ok::<Seq<LinkView>, ErrorView>(links),
            q,
        ),
        q != -1,
    ensures
        i + 2 <= q,
        exists|stdout: Seq<u8>| #[trigger]
            ran(l, i, emptying(plan.place.destination, plan.state.head), stdout),
        exists|stdout: Seq<u8>| #[trigger]
            ran(l, i + 1, listing(plan.place.destination), stdout) && entries_in(
                pieces(stdout, 0),
            ) == Ok::<Seq<EntryView>, GitFailureView>(entries),
        links_of(l, i + 2, q, plan.place.destination, entries, links),
{
    reveal(target_links_at);
    reveal(links_of);
    let destination = plan.place.destination;
    let (read, a) = read_target_index_at(l, i, destination, plan.state.head);
    let entries = read->Ok_0;
    let (found, b) = collect_links_at(l, a, entries, destination, json, t);
    if a == -1 {
        lemma_collected(l, a, a, entries, 0, destination, json, t, Seq::empty());
    } else {
        lemma_collected(l, a, a, entries, 0, destination, json, t, Seq::empty());
    }
    crate::add::sequence::lemma_validated_onward(l, b, plan.place.donor, links, 0);
    assert(a == i + 2 && a <= b && b <= q);
    assert(ran(l, i, emptying(destination, plan.state.head), (l[i]->Git_1)->Ok_0.stdout));
    assert(ran(l, i + 1, listing(destination), (l[i + 1]->Git_1)->Ok_0.stdout));
    assert forall|m: int| 0 <= m < links.len() implies link_from(
        l,
        i + 2,
        q,
        destination,
        entries,
        #[trigger] links[m],
    ) by {
        let x = links[m];
        assert(link_from(l, a, b, destination, entries, links[m]));
        let (n, c) = choose|n: int, c: int|
            {
                &&& 0 <= n < entries.len()
                &&& (#[trigger] entries[n]).stage == 0
                &&& entries[n].mode == 0o120000
                &&& steps(entries[n].path) == steps(x.path)
                &&& a <= c < b
                &&& #[trigger] blob_was(l, c, destination, entries[n].oid, x.data)
            };
        assert(entries[n].stage == 0);
        assert(blob_was(l, c, destination, entries[n].oid, x.data));
    }
    entries
}

proof fn lemma_settles(
    l: Seq<Event>,
    p: int,
    plan: InheritView,
    links: Seq<LinkView>,
    json: bool,
    t: TransactionView,
    b: int,
)
    requires
        0 <= p <= l.len(),
        settle_in_at(l, p, plan, links, json, t) == (None::<ErrorView>, b),
        b != -1,
    ensures
        p < b,
        settled_in(l, p, b, plan, links),
{
    reveal(settle_in_at);
    reveal(install_index_at);
    reveal(settled_in);
    let destination = plan.place.destination;
    let (index, a) = git_path_at(l, p, destination, "index"@);
    let index = index->Ok_0;
    let (installed, n) = install_index_at(l, a, plan.state.index, index);
    let (caches, c) = disable_index_caches_at(l, n, destination);
    let (linked, d) = make_from(l, c, destination, links, 0);
    let paths = link_paths(links);
    assert(paths =~= paths_on(links));
    assert(placed(l, c));
    lemma_made_onward(l, c, destination, links, 0);
    crate::add::isolation::lemma_finished(
        l,
        d,
        plan.record,
        plan.record.items.len(),
        destination,
        paths,
    );
    assert(d != -1);
    lemma_links_made(l, c, destination, links, 0);
    assert(index_came(l, p, n, destination, plan.state.index)) by {
        reveal(index_came);
        let stdout = (l[p]->Git_1)->Ok_0.stdout;
        assert(ran(l, p, index_question(destination), stdout));
        let process = l[p + 1]->ProcessId_0;
        let stage = crate::git::index_stage(index, process);
        assert(index_swapped(l, p, line_of(stdout), stage, plan.state.index));
        assert(ran(l, n, uncaching(destination), (l[n]->Git_1)->Ok_0.stdout));
    }
    assert(finalize_directories_at(
        l,
        d,
        plan.record,
        destination,
        paths_on(links),
    ) == (None::<Seq<char>>, b));
}

} // verus!
