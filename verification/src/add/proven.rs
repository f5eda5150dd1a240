//! Only clones that are proven to be what was committed stay.
use crate::add::materialize::{
    candidate, clone_candidates_at, entry_paths, first_fatal, flagged_from, hash_clean_files_at,
    matching_from, materialize_clean_files_at, proven_at, retained, retained_flags, settle_from,
    sort_entries_at, sort_entry_at, sort_from, sources, targets, tracked_paths, unchanged, unflagged_from,
    without_transformed, CandidateView, Filled, Heaps,
};
use crate::add::meant::asked;
use crate::add::transaction::{check_cancelled_at, TransactionView};
use crate::error::ErrorView;
use crate::fsclone::Backend;
use crate::git::{
    batch_end, batch_from, checked_at, hash_args, hash_files_at, hash_files_from, hashes_on,
    transformed_paths_at, zero_ended, zero_fields, changed_by, EntryView, HashFailure, MAX_PATHS,
};
use crate::host::{cancelled_at, clone_all_at, CallView, Event, GitOutputView, OutcomeView};
use crate::outside::lossy_text;
use crate::path::joined;
use crate::text::{pieces, stripped, utf8};
use vstd::multiset::Multiset;
use vstd::prelude::*;

verus! {

// ---------------------------------------------------------------------------
// Hashes
// ---------------------------------------------------------------------------

/// A run of Git between the positions `i` and `j` of the log hashed the file
/// at `path`, and the hash was `oid`.
pub open spec fn hashed_as(
    l: Seq<Event>,
    i: int,
    j: int,
    cwd: Seq<u8>,
    path: Seq<u8>,
    oid: Seq<char>,
) -> bool {
    exists|n: int, batch: Seq<Seq<u8>>, output: GitOutputView, m: int|
        i <= n < j && #[trigger] hash_run(l, n, cwd, batch, output) && #[trigger] gives(
            batch,
            output,
            m,
            path,
            oid,
        )
}

/// At position `n` of the log, Git hashed the files of `batch`.
pub open spec fn hash_run(
    l: Seq<Event>,
    n: int,
    cwd: Seq<u8>,
    batch: Seq<Seq<u8>>,
    output: GitOutputView,
) -> bool {
    &&& 0 <= n < l.len()
    &&& l[n] == Event::Git(
        asked(cwd, seq![utf8("hash-object"@), utf8("--no-filters"@), utf8("--"@)] + batch),
        Ok(output),
    )
    &&& output.code == Some(0i32)
    &&& hashes_on(pieces(output.stdout, 10)).len() == batch.len()
}

/// File number `m` of `batch` is the one at `path`, and its hash is `oid`.
pub open spec fn gives(
    batch: Seq<Seq<u8>>,
    output: GitOutputView,
    m: int,
    path: Seq<u8>,
    oid: Seq<char>,
) -> bool {
    0 <= m < batch.len() && batch[m] == path && hashes_on(pieces(output.stdout, 10))[m] == oid
}

proof fn lemma_hashed_within(
    l: Seq<Event>,
    i: int,
    j: int,
    a: int,
    b: int,
    cwd: Seq<u8>,
    path: Seq<u8>,
    oid: Seq<char>,
)
    requires
        hashed_as(l, a, b, cwd, path, oid),
        i <= a,
        b <= j,
    ensures
        hashed_as(l, i, j, cwd, path, oid),
{
    let (n, batch, output, m) = choose|n: int, batch: Seq<Seq<u8>>, output: GitOutputView, m: int|
        a <= n < b && #[trigger] hash_run(l, n, cwd, batch, output) && #[trigger] gives(
            batch,
            output,
            m,
            path,
            oid,
        );
    assert(i <= n < j && hash_run(l, n, cwd, batch, output) && gives(batch, output, m, path, oid));
}

proof fn lemma_batch_from(paths: Seq<Seq<u8>>, start: int, end: int, bytes: int)
    requires
        0 <= start <= end <= paths.len(),
        start < paths.len(),
    ensures
        end <= batch_from(paths, start, end, bytes) <= paths.len(),
        batch_from(paths, start, end, bytes) > start,
        batch_from(paths, start, end, bytes) - start <= MAX_PATHS || batch_from(
            paths,
            start,
            end,
            bytes,
        ) == end,
    decreases paths.len() - end,
{
    if end < paths.len() && end - start < MAX_PATHS {
        let more = paths[end].len() + 1;
        lemma_batch_from(paths, start, end + 1, bytes + more);
    }
}

/// Files are hashed in batches that follow each other: none is empty, and none
/// is larger than Git is asked to hash at a time.
pub proof fn law_batches_are_bounded(paths: Seq<Seq<u8>>, start: int)
    requires
        0 <= start < paths.len(),
    ensures
        start < batch_end(paths, start) <= paths.len(),
        batch_end(paths, start) - start <= MAX_PATHS,
{
    lemma_batch_from(paths, start, start, 0);
}

proof fn lemma_hashes(
    l: Seq<Event>,
    i: int,
    cwd: Seq<u8>,
    paths: Seq<Seq<u8>>,
    start: int,
    done: Seq<Seq<char>>,
)
    requires
        i == -1 || 0 <= i <= l.len(),
        0 <= start <= paths.len(),
    ensures
        ({
            let (r, j) = hash_files_from(l, i, cwd, paths, start, done);
            &&& j == -1 || (i != -1 && i <= j <= l.len())
            &&& j != -1 && r is Ok ==> {
                &&& r->Ok_0.len() == done.len() + paths.len() - start
                &&& r->Ok_0.take(done.len() as int) == done
                &&& forall|k: int|
                    start <= k < paths.len() ==> #[trigger] hashed_as(
                        l,
                        i,
                        j,
                        cwd,
                        paths[k],
                        r->Ok_0[done.len() + k - start],
                    )
            }
        }),
    decreases paths.len() - start,
{
    let (all, j) = hash_files_from(l, i, cwd, paths, start, done);
    if start >= paths.len() {
        assert(done.take(done.len() as int) =~= done);
    } else {
        law_batches_are_bounded(paths, start);
        let (stop, a) = cancelled_at(l, i);
        if !stop {
            let end = batch_end(paths, start);
            let batch = paths.subrange(start, end);
            let (r, b) = checked_at(l, a, cwd, "git hash-object"@, hash_args(batch));
            if r is Ok {
                let output = r->Ok_0;
                let found = hashes_on(pieces(output.stdout, 10));
                if found.len() == end - start {
                    lemma_hashes(l, b, cwd, paths, end, done + found);
                    let (rest, c) = hash_files_from(l, b, cwd, paths, end, done + found);
                    assert((all, j) == (rest, c));
                    if j != -1 && all is Ok {
                        let h = all->Ok_0;
                        assert(h.take(done.len() as int) =~= (done + found).take(
                            done.len() as int,
                        )) by {
                            assert(h.take((done + found).len() as int) == done + found);
                            assert forall|x: int| 0 <= x < done.len() implies h[x] == (done
                                + found)[x] by {
                                assert(h.take((done + found).len() as int)[x] == h[x]);
                            }
                        }
                        assert((done + found).take(done.len() as int) =~= done);
                        assert(hash_run(l, a, cwd, batch, output));
                        assert forall|k: int| start <= k < paths.len() implies #[trigger] hashed_as(
                            l,
                            i,
                            j,
                            cwd,
                            paths[k],
                            h[done.len() + k - start],
                        ) by {
                            if k < end {
                                let m = k - start;
                                let at = done.len() + m;
                                assert(h.take((done + found).len() as int)[at] == h[at]);
                                assert((done + found)[at] == found[m]);
                                assert(batch[m] == paths[k]);
                                assert(gives(batch, output, m, paths[k], h[at]));
                                assert(i <= a < j);
                            } else {
                                let at = (done + found).len() + k - end;
                                assert(at == done.len() + k - start);
                                assert(hashed_as(l, b, j, cwd, paths[k], h[at]));
                                lemma_hashed_within(l, i, j, b, j, cwd, paths[k], h[at]);
                            }
                        }
                    }
                }
            }
        }
    }
}

/// Every file that is to be hashed is hashed, and the hashes come in the order
/// of the files.
pub proof fn law_every_file_is_hashed(
    l: Seq<Event>,
    i: int,
    cwd: Seq<u8>,
    paths: Seq<Seq<u8>>,
    hashes: Seq<Seq<char>>,
    j: int,
)
    requires
        0 <= i <= l.len(),
        hash_files_at(l, i, cwd, paths) == (Ok::<Seq<Seq<char>>, HashFailure>(hashes), j),
        j != -1,
    ensures
        i <= j <= l.len(),
        hashes.len() == paths.len(),
        forall|k: int|
            0 <= k < paths.len() ==> #[trigger] hashed_as(l, i, j, cwd, paths[k], hashes[k]),
{
    let none = Seq::<Seq<char>>::empty();
    lemma_hashes(l, i, cwd, paths, 0, none);
    assert forall|k: int| 0 <= k < paths.len() implies #[trigger] hashed_as(
        l,
        i,
        j,
        cwd,
        paths[k],
        hashes[k],
    ) by {
        assert(hashed_as(l, i, j, cwd, paths[k], hashes[none.len() + k - 0]));
    }
}

// ---------------------------------------------------------------------------
// The heaps
// ---------------------------------------------------------------------------

/// The paths on both heaps.
pub open spec fn paths_held(heaps: Heaps) -> Multiset<Seq<u8>> {
    heaps.git_paths.to_multiset().add(tracked_paths(heaps.candidates).to_multiset())
}

proof fn lemma_for_git(heaps: Heaps, path: Seq<u8>)
    ensures
        paths_held(heaps.for_git(path)) == paths_held(heaps).insert(path),
{
    broadcast use vstd::multiset::group_multiset_axioms;

    vstd::seq_lib::to_multiset_build(heaps.git_paths, path);
    assert(paths_held(heaps.for_git(path)) =~= paths_held(heaps).insert(path));
}

proof fn lemma_kept(heaps: Heaps, c: CandidateView)
    ensures
        paths_held(heaps.kept(c)) == paths_held(heaps).insert(c.path),
{
    broadcast use vstd::multiset::group_multiset_axioms;

    assert(tracked_paths(heaps.candidates.push(c)) =~= tracked_paths(heaps.candidates).push(
        c.path,
    ));
    vstd::seq_lib::to_multiset_build(tracked_paths(heaps.candidates), c.path);
    assert(paths_held(heaps.kept(c)) =~= paths_held(heaps).insert(c.path));
}

proof fn lemma_insert_first(base: Multiset<Seq<u8>>, rest: Seq<Seq<u8>>)
    requires
        rest.len() > 0,
    ensures
        base.insert(rest[0]).add(rest.skip(1).to_multiset()) == base.add(rest.to_multiset()),
{
    broadcast use vstd::multiset::group_multiset_axioms;

    assert(rest =~= seq![rest[0]] + rest.skip(1));
    vstd::seq_lib::lemma_multiset_commutative(seq![rest[0]], rest.skip(1));
    let none = Seq::<Seq<u8>>::empty();
    vstd::seq_lib::to_multiset_build(none, rest[0]);
    vstd::seq_lib::to_multiset_len(none);
    assert(none.to_multiset() =~= Multiset::<Seq<u8>>::empty());
    assert(none.push(rest[0]) =~= seq![rest[0]]);
    assert(base.insert(rest[0]).add(rest.skip(1).to_multiset()) =~= base.add(rest.to_multiset()));
}

proof fn lemma_nothing_left(base: Multiset<Seq<u8>>, rest: Seq<Seq<u8>>)
    requires
        rest.len() == 0,
    ensures
        base.add(rest.to_multiset()) == base,
{
    broadcast use vstd::multiset::group_multiset_axioms;

    vstd::seq_lib::to_multiset_len(rest);
    assert(rest.to_multiset() =~= Multiset::<Seq<u8>>::empty());
    assert(base.add(rest.to_multiset()) =~= base);
}

/// The donor's file was looked at between `i` and `j`, and was a regular file
/// with the executable bit of `entry`.
pub open spec fn seen_fit(
    l: Seq<Event>,
    i: int,
    j: int,
    path: Seq<u8>,
    entry: EntryView,
) -> bool {
    exists|m: int| i <= m < j && #[trigger] shows_fit(l, m, path, entry)
}

/// At `m` in the log `path` was looked at, and fitted `entry`.
pub open spec fn shows_fit(l: Seq<Event>, m: int, path: Seq<u8>, entry: EntryView) -> bool {
    &&& 0 <= m < l.len()
    &&& match l[m] {
        Event::Metadata(p, Ok(metadata)) => {
            &&& p == path
            &&& metadata.mode & 0o170000u32 == 0o100000u32
            &&& (entry.mode == 0o100755) == (metadata.mode & 0o111u32 != 0)
        },
        _ => false,
    }
}

/// The entry is one of an ordinary file: not in conflict, and neither a link
/// nor a nested repository.
pub open spec fn ordinary(entry: EntryView) -> bool {
    entry.stage == 0 && (entry.mode == 0o100644 || entry.mode == 0o100755)
}

/// `c` stands for `entry`: its file in the donor is to be cloned to its place
/// in the new worktree, executable exactly where the committed one is.
pub open spec fn stands_for(
    c: CandidateView,
    entry: EntryView,
    donor: Seq<u8>,
    destination: Seq<u8>,
) -> bool {
    &&& c.path == entry.path
    &&& c.oid == entry.oid
    &&& c.source == joined(donor, entry.path)
    &&& c.target == joined(destination, entry.path)
    &&& c.executable == (entry.mode == 0o100755)
}

/// `c` stands for an ordinary entry whose file in the donor fitted it when it
/// was looked at, between `i` and `j`.
pub open spec fn stems_from(
    l: Seq<Event>,
    i: int,
    j: int,
    c: CandidateView,
    entries: Seq<EntryView>,
    donor: Seq<u8>,
    destination: Seq<u8>,
) -> bool {
    exists|n: int|
        0 <= n < entries.len() && ordinary(#[trigger] entries[n]) && stands_for(
            c,
            entries[n],
            donor,
            destination,
        ) && seen_fit(l, i, j, c.source, entries[n])
}

proof fn lemma_stems_within(
    l: Seq<Event>,
    i: int,
    j: int,
    k: int,
    c: CandidateView,
    entries: Seq<EntryView>,
    donor: Seq<u8>,
    destination: Seq<u8>,
)
    requires
        stems_from(l, i, j, c, entries, donor, destination),
        j <= k,
    ensures
        stems_from(l, i, k, c, entries, donor, destination),
{
    let n = choose|n: int|
        0 <= n < entries.len() && ordinary(#[trigger] entries[n]) && stands_for(
            c,
            entries[n],
            donor,
            destination,
        ) && seen_fit(l, i, j, c.source, entries[n]);
    let m = choose|m: int| i <= m < j && #[trigger] shows_fit(l, m, c.source, entries[n]);
    assert(i <= m < k && shows_fit(l, m, c.source, entries[n]));
    assert(ordinary(entries[n]) && seen_fit(l, i, k, c.source, entries[n]));
}

proof fn lemma_sorted(
    l: Seq<Event>,
    start: int,
    i: int,
    entries: Seq<EntryView>,
    k: nat,
    donor: Seq<u8>,
    destination: Seq<u8>,
    json: bool,
    t: TransactionView,
    heaps: Heaps,
)
    requires
        i == -1 || 0 <= start <= i <= l.len(),
        k <= entries.len(),
        i != -1 ==> forall|n: int|
            0 <= n < heaps.candidates.len() ==> stems_from(
                l,
                start,
                i,
                #[trigger] heaps.candidates[n],
                entries,
                donor,
                destination,
            ),
    ensures
        ({
            let (r, j) = sort_from(l, i, entries, k, donor, destination, json, t, heaps);
            r is Ok ==> {
                &&& j == -1 || (i != -1 && i <= j <= l.len())
                &&& paths_held(r->Ok_0) == paths_held(heaps).add(
                    entry_paths(entries.skip(k as int)).to_multiset(),
                )
                &&& j != -1 ==> forall|n: int|
                    0 <= n < r->Ok_0.candidates.len() ==> stems_from(
                        l,
                        start,
                        j,
                        #[trigger] r->Ok_0.candidates[n],
                        entries,
                        donor,
                        destination,
                    )
            }
        }),
    decreases entries.len() - k,
{
    let rest = entry_paths(entries.skip(k as int));
    if k >= entries.len() {
        lemma_nothing_left(paths_held(heaps), rest);
    } else {
        let (stop, a) = check_cancelled_at(l, i, json, t);
        if stop is None {
            let entry = entries[k as int];
            let (next, b) = sort_entry_at(l, a, entry, donor, destination, heaps);
            let c = candidate(entry, donor, destination);
            lemma_for_git(heaps, entry.path);
            lemma_kept(heaps, c);
            assert(paths_held(next) == paths_held(heaps).insert(entry.path));
            assert(rest[0] == entry.path);
            assert(rest.skip(1) =~= entry_paths(entries.skip(k as int + 1)));
            lemma_insert_first(paths_held(heaps), rest);
            assert(b == -1 || (i != -1 && i <= a <= b <= l.len()));
            if b != -1 {
                assert forall|n: int| 0 <= n < next.candidates.len() implies stems_from(
                    l,
                    start,
                    b,
                    #[trigger] next.candidates[n],
                    entries,
                    donor,
                    destination,
                ) by {
                    if n < heaps.candidates.len() {
                        assert(next.candidates[n] == heaps.candidates[n]);
                        lemma_stems_within(
                            l,
                            start,
                            i,
                            b,
                            heaps.candidates[n],
                            entries,
                            donor,
                            destination,
                        );
                    } else {
                        assert(next.candidates[n] == c);
                        assert(shows_fit(l, a, c.source, entry));
                        assert(ordinary(entries[k as int]) && seen_fit(
                            l,
                            start,
                            b,
                            c.source,
                            entries[k as int],
                        ));
                    }
                }
            }
            lemma_sorted(l, start, b, entries, k + 1, donor, destination, json, t, next);
        }
    }
}

/// Every candidate of `after` is one of `before` whose number meets `test`.
pub open spec fn selected(
    after: Seq<CandidateView>,
    before: Seq<CandidateView>,
    test: spec_fn(int) -> bool,
) -> bool {
    forall|n: int| 0 <= n < after.len() ==> chosen_from(#[trigger] after[n], before, test)
}

/// `c` is one of `before` whose number meets `test`.
pub open spec fn chosen_from(
    c: CandidateView,
    before: Seq<CandidateView>,
    test: spec_fn(int) -> bool,
) -> bool {
    exists|m: int| 0 <= m < before.len() && #[trigger] before[m] == c && test(m)
}

proof fn lemma_unflagged(candidates: Seq<CandidateView>, flags: Seq<bool>, k: nat, heaps: Heaps)
    requires
        k <= candidates.len(),
        selected(heaps.candidates, candidates, |m: int| !(m < flags.len() && flags[m])),
    ensures
        ({
            let r = unflagged_from(candidates, flags, k, heaps);
            &&& paths_held(r) == paths_held(heaps).add(
                tracked_paths(candidates.skip(k as int)).to_multiset(),
            )
            &&& selected(r.candidates, candidates, |m: int| !(m < flags.len() && flags[m]))
        }),
    decreases candidates.len() - k,
{
    let test = |m: int| !(m < flags.len() && flags[m]);
    let rest = tracked_paths(candidates.skip(k as int));
    if k >= candidates.len() {
        lemma_nothing_left(paths_held(heaps), rest);
    } else {
        let c = candidates[k as int];
        let next = if k < flags.len() && flags[k as int] {
            heaps.for_git(c.path)
        } else {
            heaps.kept(c)
        };
        lemma_for_git(heaps, c.path);
        lemma_kept(heaps, c);
        assert(rest[0] == c.path);
        assert(rest.skip(1) =~= tracked_paths(candidates.skip(k as int + 1)));
        lemma_insert_first(paths_held(heaps), rest);
        assert forall|n: int| 0 <= n < next.candidates.len() implies chosen_from(
            #[trigger] next.candidates[n],
            candidates,
            test,
        ) by {
            if n < heaps.candidates.len() {
                assert(next.candidates[n] == heaps.candidates[n]);
            } else {
                assert(candidates[k as int] == next.candidates[n] && test(k as int));
            }
        }
        lemma_unflagged(candidates, flags, k + 1, next);
    }
}

proof fn lemma_flagged(candidates: Seq<CandidateView>, flags: Seq<bool>, k: nat, heaps: Heaps)
    requires
        k <= candidates.len(),
        selected(heaps.candidates, candidates, |m: int| m < flags.len() && flags[m]),
    ensures
        ({
            let r = flagged_from(candidates, flags, k, heaps);
            &&& paths_held(r) == paths_held(heaps).add(
                tracked_paths(candidates.skip(k as int)).to_multiset(),
            )
            &&& selected(r.candidates, candidates, |m: int| m < flags.len() && flags[m])
        }),
    decreases candidates.len() - k,
{
    let test = |m: int| m < flags.len() && flags[m];
    let rest = tracked_paths(candidates.skip(k as int));
    if k >= candidates.len() {
        lemma_nothing_left(paths_held(heaps), rest);
    } else {
        let c = candidates[k as int];
        let next = if k < flags.len() && flags[k as int] {
            heaps.kept(c)
        } else {
            heaps.for_git(c.path)
        };
        lemma_for_git(heaps, c.path);
        lemma_kept(heaps, c);
        assert(rest[0] == c.path);
        assert(rest.skip(1) =~= tracked_paths(candidates.skip(k as int + 1)));
        lemma_insert_first(paths_held(heaps), rest);
        assert forall|n: int| 0 <= n < next.candidates.len() implies chosen_from(
            #[trigger] next.candidates[n],
            candidates,
            test,
        ) by {
            if n < heaps.candidates.len() {
                assert(next.candidates[n] == heaps.candidates[n]);
            } else {
                assert(candidates[k as int] == next.candidates[n] && test(k as int));
            }
        }
        lemma_flagged(candidates, flags, k + 1, next);
    }
}

proof fn lemma_matching(
    candidates: Seq<CandidateView>,
    hashes: Seq<Seq<char>>,
    k: nat,
    heaps: Heaps,
)
    requires
        k <= candidates.len(),
        hashes.len() == candidates.len(),
        selected(heaps.candidates, candidates, |m: int| hashes[m] == candidates[m].oid),
    ensures
        ({
            let r = matching_from(candidates, hashes, k, heaps);
            &&& paths_held(r) == paths_held(heaps).add(
                tracked_paths(candidates.skip(k as int)).to_multiset(),
            )
            &&& selected(r.candidates, candidates, |m: int| hashes[m] == candidates[m].oid)
        }),
    decreases candidates.len() - k,
{
    let test = |m: int| hashes[m] == candidates[m].oid;
    let rest = tracked_paths(candidates.skip(k as int));
    if k >= candidates.len() {
        lemma_nothing_left(paths_held(heaps), rest);
    } else {
        let c = candidates[k as int];
        let next = if hashes[k as int] == c.oid {
            heaps.kept(c)
        } else {
            heaps.for_git(c.path)
        };
        lemma_for_git(heaps, c.path);
        lemma_kept(heaps, c);
        assert(rest[0] == c.path);
        assert(rest.skip(1) =~= tracked_paths(candidates.skip(k as int + 1)));
        lemma_insert_first(paths_held(heaps), rest);
        assert forall|n: int| 0 <= n < next.candidates.len() implies chosen_from(
            #[trigger] next.candidates[n],
            candidates,
            test,
        ) by {
            if n < heaps.candidates.len() {
                assert(next.candidates[n] == heaps.candidates[n]);
            } else {
                assert(candidates[k as int] == next.candidates[n] && test(k as int));
            }
        }
        lemma_matching(candidates, hashes, k + 1, next);
    }
}

proof fn lemma_settle_onward(
    l: Seq<Event>,
    i: int,
    clones: Seq<CandidateView>,
    hashes: Seq<Seq<char>>,
    k: nat,
    done: Filled,
)
    requires
        i == -1 || 0 <= i <= l.len(),
    ensures
        ({
            let j = settle_from(l, i, clones, hashes, k, done).1;
            j == -1 || (i != -1 && i <= j <= l.len())
        }),
    decreases clones.len() - k,
{
    if k < clones.len() && k < hashes.len() {
        let c = clones[k as int];
        if hashes[k as int] == c.oid {
            let next = Filled { cow_files: done.cow_files + 1, ..done };
            lemma_settle_onward(l, i, clones, hashes, k + 1, next);
        } else {
            let j = crate::host::remove_file_at(l, i, c.target).1;
            let next = Filled { git_paths: done.git_paths.push(c.path), ..done };
            lemma_settle_onward(l, j, clones, hashes, k + 1, next);
        }
    }
}

proof fn lemma_settled(
    l: Seq<Event>,
    i: int,
    clones: Seq<CandidateView>,
    hashes: Seq<Seq<char>>,
    k: nat,
    heaps: Heaps,
)
    requires
        k <= clones.len(),
        hashes.len() == clones.len(),
    ensures
        ({
            let (done, j) = settle_from(
                l,
                i,
                clones,
                hashes,
                k,
                Filled {
                    cow_files: heaps.candidates.len() as int,
                    git_paths: heaps.git_paths,
                },
            );
            let end = matching_from(clones, hashes, k, heaps);
            &&& done.cow_files == end.candidates.len()
            &&& done.git_paths == end.git_paths
        }),
    decreases clones.len() - k,
{
    if k < clones.len() {
        let c = clones[k as int];
        if hashes[k as int] == c.oid {
            lemma_settled(l, i, clones, hashes, k + 1, heaps.kept(c));
        } else {
            let j = crate::host::remove_file_at(l, i, c.target).1;
            lemma_settled(l, j, clones, hashes, k + 1, heaps.for_git(c.path));
        }
    }
}

// ---------------------------------------------------------------------------
// The law
// ---------------------------------------------------------------------------

/// At position `m` of the log Git was asked for the setting `key`, and it is
/// not set, or to something that leaves files as they are committed.
pub open spec fn setting_leaves(l: Seq<Event>, m: int, cwd: Seq<u8>, key: Seq<char>) -> bool {
    &&& 0 <= m < l.len()
    &&& match l[m] {
        Event::Git(call, Ok(output)) => {
            &&& call == asked(cwd, seq![utf8("config"@), utf8("--get"@), utf8(key)])
            &&& output.code == Some(1i32) || (output.code == Some(0i32) && {
                let value = stripped(lossy_text(output.stdout));
                value == ""@ || value == "false"@ || value == "input"@ || value == "native"@
            })
        },
        _ => false,
    }
}

/// The attribute `name` changes files when they are checked out.
pub open spec fn transforming(name: Seq<u8>) -> bool {
    ||| name == utf8("filter"@)
    ||| name == utf8("text"@)
    ||| name == utf8("eol"@)
    ||| name == utf8("working-tree-encoding"@)
    ||| name == utf8("ident"@)
}

/// At position `m` of the log Git was asked for the attributes of `paths`, and
/// `path`, which is one of them, has none that changes files when they are
/// checked out.
pub open spec fn attributes_leave(
    l: Seq<Event>,
    m: int,
    cwd: Seq<u8>,
    paths: Seq<Seq<u8>>,
    path: Seq<u8>,
) -> bool {
    &&& 0 <= m < l.len()
    &&& paths.contains(path)
    &&& match l[m] {
        Event::Git(call, Ok(output)) => {
            &&& call == (CallView {
                cwd,
                args: seq![
                    utf8("check-attr"@),
                    utf8("--cached"@),
                    utf8("-z"@),
                    utf8("-a"@),
                    utf8("--stdin"@),
                ],
                input: Some(zero_ended(paths)),
                lockless: false,
            })
            &&& output.code == Some(0i32)
            &&& {
                let fields = zero_fields(output.stdout);
                &&& fields.len() % 3 == 0
                &&& forall|k: int|
                    0 <= k < fields.len() / 3 && #[trigger] fields[3 * k] == path && transforming(
                        fields[3 * k + 1],
                    ) ==> fields[3 * k + 2] == utf8("unspecified"@) || fields[3 * k + 2] == utf8(
                        "unset"@,
                    )
            }
        },
        _ => false,
    }
}

/// Between the positions `i` and `j` of the log, Git was asked whether a
/// checkout would change `path`, and said that it would not.
pub open spec fn untransformed(
    l: Seq<Event>,
    i: int,
    j: int,
    destination: Seq<u8>,
    path: Seq<u8>,
) -> bool {
    exists|m: int, paths: Seq<Seq<u8>>|
        {
            &&& i <= m
            &&& m + 2 < j
            &&& setting_leaves(l, m, destination, "core.autocrlf"@)
            &&& setting_leaves(l, m + 1, destination, "core.eol"@)
            &&& #[trigger] leaves(l, m, destination, paths, path)
        }
}

/// The attributes that Git was asked for two calls after `m` leave `path`.
pub open spec fn leaves(
    l: Seq<Event>,
    m: int,
    cwd: Seq<u8>,
    paths: Seq<Seq<u8>>,
    path: Seq<u8>,
) -> bool {
    attributes_leave(l, m + 2, cwd, paths, path)
}

/// At position `n` of the log a clone of `c` was asked for, executable where
/// `c` is.
pub open spec fn cloned_at(l: Seq<Event>, n: int, c: CandidateView) -> bool {
    &&& 0 <= n < l.len()
    &&& l[n] matches Event::CloneAll(jobs, _, _)
    &&& exists|k: int|
        0 <= k < jobs.len() && (#[trigger] jobs[k]).source == c.source && jobs[k].target == c.target
            && jobs[k].executable == c.executable
}

/// `c` is proven: it is the candidate of an ordinary tracked file that a
/// checkout would not change; before it was cloned, the donor's file was a
/// regular file with the executable bit of the tracked one and then had the
/// committed hash; and the clone had that hash afterwards.
pub open spec fn proven(
    l: Seq<Event>,
    i: int,
    j: int,
    c: CandidateView,
    entries: Seq<EntryView>,
    donor: Seq<u8>,
    destination: Seq<u8>,
) -> bool {
    &&& untransformed(l, i, j, destination, c.path)
    &&& exists|n: int|
        {
            &&& i <= n < j
            &&& #[trigger] cloned_at(l, n, c)
            &&& stems_from(l, i, n, c, entries, donor, destination)
            &&& hashed_as(l, i, n, destination, c.source, c.oid)
            &&& hashed_as(l, n + 1, j, destination, c.target, c.oid)
        }
}

/// `kept` are clones that are proven, and with the paths for Git they make up
/// all tracked files.
pub open spec fn accounts_for(
    l: Seq<Event>,
    i: int,
    j: int,
    kept: Seq<CandidateView>,
    done: Filled,
    entries: Seq<EntryView>,
    donor: Seq<u8>,
    destination: Seq<u8>,
) -> bool {
    &&& kept.len() == done.cow_files
    &&& done.git_paths.to_multiset().add(tracked_paths(kept).to_multiset()) == entry_paths(
        entries,
    ).to_multiset()
    &&& forall|n: int|
        0 <= n < kept.len() ==> proven(
            l,
            i,
            j,
            #[trigger] kept[n],
            entries,
            donor,
            destination,
        )
}

/// In a clean worktree only clones stay that are proven to be what was
/// committed: no checkout would change the file; the donor's file is a regular
/// one with the right executable bit and has the committed hash; and so has the
/// clone. Every other tracked file is left to
/// Git, and none is left out or filled twice.
#[verifier::rlimit(30)]
pub proof fn law_only_proven_clones_stay(
    l: Seq<Event>,
    i: int,
    entries: Seq<EntryView>,
    donor: Seq<u8>,
    destination: Seq<u8>,
    backend: Backend,
    json: bool,
    t: TransactionView,
    done: Filled,
    j: int,
)
    requires
        0 <= i <= l.len(),
        materialize_clean_files_at(
            l,
            i,
            entries,
            Some(donor),
            destination,
            Some(backend),
            json,
            t,
        ) == (Ok::<Filled, ErrorView>(done), j),
        j != -1,
    ensures
        exists|kept: Seq<CandidateView>| #[trigger]
            accounts_for(l, i, j, kept, done, entries, donor, destination),
{
    reveal(materialize_clean_files_at);
    reveal(proven_at);
    reveal(clone_candidates_at);
    let none = Heaps { git_paths: Seq::empty(), candidates: Seq::empty() };
    // Choosing.
    lemma_sorted(l, i, i, entries, 0, donor, destination, json, t, none);
    let (first, a) = sort_entries_at(l, i, entries, donor, destination, json, t);
    let first = first->Ok_0;
    assert(entries.skip(0) =~= entries);
    lemma_empty_heaps();
    let (_, b) = check_cancelled_at(l, a, json, t);
    let (flags, c) = transformed_paths_at(l, b, destination, tracked_paths(first.candidates));
    let flags = flags->Ok_0;
    let second = without_transformed(first, flags);
    let based = Heaps { git_paths: first.git_paths, candidates: Seq::empty() };
    lemma_unflagged(first.candidates, flags, 0, based);
    lemma_split(first);
    let (_, d) = check_cancelled_at(l, c, json, t);
    let (hashes, e) = hash_clean_files_at(
        l,
        d,
        destination,
        sources(second.candidates),
        "donor_verification"@,
        json,
        t,
    );
    let hashes = hashes->Ok_0;
    let third = unchanged(second, hashes);
    // Cloning.
    let (round_heaps, f) = clone_candidates_at(l, e, third, json, t);
    let fourth = round_heaps->Ok_0;
    let (again, g) = hash_clean_files_at(
        l,
        f,
        destination,
        targets(fourth.candidates),
        "clone_verification"@,
        json,
        t,
    );
    let again = again->Ok_0;
    // No position was lost on the way.
    lemma_transformed_onward(l, b, destination, tracked_paths(first.candidates));
    lemma_hashes(l, d, destination, sources(second.candidates), 0, Seq::empty());
    lemma_hashes(l, f, destination, targets(fourth.candidates), 0, Seq::empty());
    let (umask, u) = crate::host::umask_at(l, e);
    let (round, v) = clone_all_at(
        l,
        u,
        crate::add::materialize::jobs(third.candidates),
        umask,
    );
    let kept_flags = retained_flags(round.outcomes, third.candidates.len());
    assert(fourth == retained(third, kept_flags));
    lemma_settle_onward(
        l,
        g,
        fourth.candidates,
        again,
        0,
        Filled { cow_files: 0, git_paths: fourth.git_paths },
    );
    lemma_settled(
        l,
        g,
        fourth.candidates,
        again,
        0,
        Heaps { git_paths: fourth.git_paths, candidates: Seq::empty() },
    );
    assert(g != -1 && f != -1 && e != -1 && d != -1);
    assert(i <= a && a <= b && b <= d && d <= e && e <= u && u + 1 == v && v <= f && f <= g && g
        <= j);
    law_every_file_is_hashed(l, d, destination, sources(second.candidates), hashes, e);
    law_every_file_is_hashed(l, f, destination, targets(fourth.candidates), again, g);
    lemma_split(second);
    lemma_split(third);
    lemma_split(fourth);
    lemma_matching(
        second.candidates,
        hashes,
        0,
        Heaps { git_paths: second.git_paths, candidates: Seq::empty() },
    );
    lemma_flagged(
        third.candidates,
        kept_flags,
        0,
        Heaps { git_paths: third.git_paths, candidates: Seq::empty() },
    );
    lemma_matching(
        fourth.candidates,
        again,
        0,
        Heaps { git_paths: fourth.git_paths, candidates: Seq::empty() },
    );
    let last = matching_from(
        fourth.candidates,
        again,
        0,
        Heaps { git_paths: fourth.git_paths, candidates: Seq::empty() },
    );
    let kept = last.candidates;
    assert(paths_held(last) == entry_paths(entries).to_multiset());
    assert forall|n: int| 0 <= n < kept.len() implies proven(
        l,
        i,
        j,
        #[trigger] kept[n],
        entries,
        donor,
        destination,
    ) by {
        let x = kept[n];
        let test4 = |m: int| again[m] == fourth.candidates[m].oid;
        assert(chosen_from(x, fourth.candidates, test4));
        let m4 = choose|m: int|
            0 <= m < fourth.candidates.len() && #[trigger] fourth.candidates[m] == x && test4(m);
        assert(targets(fourth.candidates)[m4] == x.target);
        assert(hashed_as(l, f, g, destination, targets(fourth.candidates)[m4], again[m4]));
        lemma_hashed_within(l, u + 1, j, f, g, destination, x.target, x.oid);
        let test3 = |m: int| m < kept_flags.len() && kept_flags[m];
        assert(chosen_from(fourth.candidates[m4], third.candidates, test3));
        let m3 = choose|m: int|
            0 <= m < third.candidates.len() && #[trigger] third.candidates[m] == x && test3(m);
        let test2 = |m: int| hashes[m] == second.candidates[m].oid;
        assert(chosen_from(third.candidates[m3], second.candidates, test2));
        let m2 = choose|m: int|
            0 <= m < second.candidates.len() && #[trigger] second.candidates[m] == x && test2(m);
        assert(sources(second.candidates)[m2] == x.source);
        assert(hashed_as(l, d, e, destination, sources(second.candidates)[m2], hashes[m2]));
        lemma_hashed_within(l, i, u, d, e, destination, x.source, x.oid);
        let wanted = crate::add::materialize::jobs(third.candidates);
        assert(wanted[m3].source == x.source && wanted[m3].target == x.target);
        assert(cloned_at(l, u, x));
        let test1 = |m: int| !(m < flags.len() && flags[m]);
        assert(chosen_from(second.candidates[m2], first.candidates, test1));
        let m1 = choose|m: int|
            0 <= m < first.candidates.len() && #[trigger] first.candidates[m] == x && test1(m);
        assert(tracked_paths(first.candidates)[m1] == x.path);
        lemma_untransformed(l, i, b, j, destination, tracked_paths(first.candidates), m1);
        assert(stems_from(l, i, a, first.candidates[m1], entries, donor, destination));
        lemma_stems_within(l, i, a, u, x, entries, donor, destination);
    }
    assert(accounts_for(l, i, j, kept, done, entries, donor, destination));
}

proof fn lemma_untransformed(
    l: Seq<Event>,
    i: int,
    b: int,
    j: int,
    destination: Seq<u8>,
    paths: Seq<Seq<u8>>,
    m: int,
)
    requires
        0 <= i <= b <= l.len(),
        0 <= m < paths.len(),
        transformed_paths_at(l, b, destination, paths).0 matches Ok(flags) && !(m < flags.len()
            && flags[m]),
        transformed_paths_at(l, b, destination, paths).1 != -1,
        transformed_paths_at(l, b, destination, paths).1 <= j,
    ensures
        untransformed(l, i, j, destination, paths[m]),
{
    reveal(transformed_paths_at);
    assert(paths.contains(paths[m]));
    let output = (l[b + 2]->Git_1)->Ok_0;
    let fields = zero_fields(output.stdout);
    assert(!changed_by(fields, paths[m]));
    assert(leaves(l, b, destination, paths, paths[m]));
}

proof fn lemma_empty_heaps()
    ensures
        forall|m: Multiset<Seq<u8>>|
            #![trigger paths_held(
                Heaps { git_paths: Seq::empty(), candidates: Seq::empty() },
            ).add(m)]
            paths_held(Heaps { git_paths: Seq::empty(), candidates: Seq::empty() }).add(m) == m,
{
    broadcast use vstd::multiset::group_multiset_axioms;

    let none = Heaps { git_paths: Seq::empty(), candidates: Seq::empty() };
    assert(tracked_paths(none.candidates) =~= Seq::<Seq<u8>>::empty());
    vstd::seq_lib::to_multiset_len(Seq::<Seq<u8>>::empty());
    assert(Seq::<Seq<u8>>::empty().to_multiset() =~= Multiset::<Seq<u8>>::empty());
    assert forall|m: Multiset<Seq<u8>>| (#[trigger] paths_held(none).add(m)) == m by {
        assert(paths_held(none).add(m) =~= m);
    }
}

proof fn lemma_split(heaps: Heaps)
    ensures
        paths_held(Heaps { git_paths: heaps.git_paths, candidates: Seq::empty() }).add(
            tracked_paths(heaps.candidates.skip(0)).to_multiset(),
        ) == paths_held(heaps),
{
    broadcast use vstd::multiset::group_multiset_axioms;

    let based = Heaps { git_paths: heaps.git_paths, candidates: Seq::empty() };
    assert(tracked_paths(based.candidates) =~= Seq::<Seq<u8>>::empty());
    vstd::seq_lib::to_multiset_len(Seq::<Seq<u8>>::empty());
    assert(Seq::<Seq<u8>>::empty().to_multiset() =~= Multiset::<Seq<u8>>::empty());
    assert(heaps.candidates.skip(0) =~= heaps.candidates);
    assert(paths_held(based).add(tracked_paths(heaps.candidates).to_multiset()) =~= paths_held(
        heaps,
    ));
}

proof fn lemma_transformed_onward(
    l: Seq<Event>,
    i: int,
    destination: Seq<u8>,
    paths: Seq<Seq<u8>>,
)
    requires
        i == -1 || 0 <= i <= l.len(),
    ensures
        ({
            let j = transformed_paths_at(l, i, destination, paths).1;
            j == -1 || (i != -1 && i <= j <= l.len())
        }),
{
    reveal(transformed_paths_at);
}

// ---------------------------------------------------------------------------
// What is left to Git
// ---------------------------------------------------------------------------

/// `path` is one of `base`, or that of a candidate whose number fails `test`.
pub open spec fn drops(
    path: Seq<u8>,
    base: Seq<Seq<u8>>,
    candidates: Seq<CandidateView>,
    test: spec_fn(int) -> bool,
) -> bool {
    ||| base.contains(path)
    ||| exists|m: int|
        0 <= m < candidates.len() && (#[trigger] candidates[m]).path == path && !test(m)
}

/// Every path of `paths` is one of `base`, or that of a candidate whose number
/// fails `test`.
pub open spec fn dropped(
    paths: Seq<Seq<u8>>,
    base: Seq<Seq<u8>>,
    candidates: Seq<CandidateView>,
    test: spec_fn(int) -> bool,
) -> bool {
    forall|n: int| 0 <= n < paths.len() ==> drops(#[trigger] paths[n], base, candidates, test)
}

proof fn lemma_unflagged_dropped(
    candidates: Seq<CandidateView>,
    flags: Seq<bool>,
    k: nat,
    heaps: Heaps,
    base: Seq<Seq<u8>>,
)
    requires
        k <= candidates.len(),
        dropped(heaps.git_paths, base, candidates, |m: int| !(m < flags.len() && flags[m])),
    ensures
        dropped(
            unflagged_from(candidates, flags, k, heaps).git_paths,
            base,
            candidates,
            |m: int| !(m < flags.len() && flags[m]),
        ),
    decreases candidates.len() - k,
{
    let test = |m: int| !(m < flags.len() && flags[m]);
    if k < candidates.len() {
        let c = candidates[k as int];
        let next = if !(k < flags.len() && flags[k as int]) {
            heaps.kept(c)
        } else {
            heaps.for_git(c.path)
        };
        assert forall|n: int| 0 <= n < next.git_paths.len() implies drops(
            #[trigger] next.git_paths[n],
            base,
            candidates,
            test,
        ) by {
            if n < heaps.git_paths.len() {
                assert(next.git_paths[n] == heaps.git_paths[n]);
            } else {
                assert(candidates[k as int].path == next.git_paths[n] && !test(k as int));
            }
        }
        lemma_unflagged_dropped(candidates, flags, k + 1, next, base);
    }
}

proof fn lemma_flagged_dropped(
    candidates: Seq<CandidateView>,
    flags: Seq<bool>,
    k: nat,
    heaps: Heaps,
    base: Seq<Seq<u8>>,
)
    requires
        k <= candidates.len(),
        dropped(heaps.git_paths, base, candidates, |m: int| m < flags.len() && flags[m]),
    ensures
        dropped(
            flagged_from(candidates, flags, k, heaps).git_paths,
            base,
            candidates,
            |m: int| m < flags.len() && flags[m],
        ),
    decreases candidates.len() - k,
{
    let test = |m: int| m < flags.len() && flags[m];
    if k < candidates.len() {
        let c = candidates[k as int];
        let next = if k < flags.len() && flags[k as int] {
            heaps.kept(c)
        } else {
            heaps.for_git(c.path)
        };
        assert forall|n: int| 0 <= n < next.git_paths.len() implies drops(
            #[trigger] next.git_paths[n],
            base,
            candidates,
            test,
        ) by {
            if n < heaps.git_paths.len() {
                assert(next.git_paths[n] == heaps.git_paths[n]);
            } else {
                assert(candidates[k as int].path == next.git_paths[n] && !test(k as int));
            }
        }
        lemma_flagged_dropped(candidates, flags, k + 1, next, base);
    }
}

proof fn lemma_matching_dropped(
    candidates: Seq<CandidateView>,
    hashes: Seq<Seq<char>>,
    k: nat,
    heaps: Heaps,
    base: Seq<Seq<u8>>,
)
    requires
        k <= candidates.len(),
        hashes.len() == candidates.len(),
        dropped(heaps.git_paths, base, candidates, |m: int| hashes[m] == candidates[m].oid),
    ensures
        dropped(
            matching_from(candidates, hashes, k, heaps).git_paths,
            base,
            candidates,
            |m: int| hashes[m] == candidates[m].oid,
        ),
    decreases candidates.len() - k,
{
    let test = |m: int| hashes[m] == candidates[m].oid;
    if k < candidates.len() {
        let c = candidates[k as int];
        let next = if hashes[k as int] == c.oid {
            heaps.kept(c)
        } else {
            heaps.for_git(c.path)
        };
        assert forall|n: int| 0 <= n < next.git_paths.len() implies drops(
            #[trigger] next.git_paths[n],
            base,
            candidates,
            test,
        ) by {
            if n < heaps.git_paths.len() {
                assert(next.git_paths[n] == heaps.git_paths[n]);
            } else {
                assert(candidates[k as int].path == next.git_paths[n] && !test(k as int));
            }
        }
        lemma_matching_dropped(candidates, hashes, k + 1, next, base);
    }
}

/// At `m` in the log `path` was looked at, and is not there or does not fit
/// `entry`.
pub open spec fn shows_misfit(l: Seq<Event>, m: int, path: Seq<u8>, entry: EntryView) -> bool {
    &&& 0 <= m < l.len()
    &&& match l[m] {
        Event::Metadata(p, Ok(metadata)) => {
            &&& p == path
            &&& metadata.mode & 0o170000u32 != 0o100000u32 || (entry.mode == 0o100755) != (
            metadata.mode & 0o111u32 != 0)
        },
        Event::Metadata(p, Err(_)) => p == path,
        _ => false,
    }
}

/// At `m` in the log Git said that the setting `key` changes files when they
/// are checked out.
pub open spec fn setting_changes(l: Seq<Event>, m: int, cwd: Seq<u8>, key: Seq<char>) -> bool {
    &&& 0 <= m < l.len()
    &&& match l[m] {
        Event::Git(call, Ok(output)) => {
            &&& call == asked(cwd, seq![utf8("config"@), utf8("--get"@), utf8(key)])
            &&& output.code == Some(0i32)
            &&& {
                let value = stripped(lossy_text(output.stdout));
                value != ""@ && value != "false"@ && value != "input"@ && value != "native"@
            }
        },
        _ => false,
    }
}

/// At `m` in the log Git said that an attribute of `path` changes it when it is
/// checked out.
pub open spec fn attribute_changes(l: Seq<Event>, m: int, path: Seq<u8>) -> bool {
    &&& 0 <= m < l.len()
    &&& match l[m] {
        Event::Git(call, Ok(output)) => {
            &&& call.args.len() > 0
            &&& call.args[0] == utf8("check-attr"@)
            &&& {
                let fields = zero_fields(output.stdout);
                exists|k: int|
                    0 <= k < fields.len() / 3 && #[trigger] fields[3 * k] == path && transforming(
                        fields[3 * k + 1],
                    ) && fields[3 * k + 2] != utf8("unspecified"@) && fields[3 * k + 2] != utf8(
                        "unset"@,
                    )
            }
        },
        _ => false,
    }
}

/// At `m` in the log a clone at `target` was asked for, and did not stay.
pub open spec fn clone_failed(l: Seq<Event>, m: int, target: Seq<u8>) -> bool {
    &&& 0 <= m < l.len()
    &&& match l[m] {
        Event::CloneAll(jobs, _, round) => exists|k: int|
            0 <= k < jobs.len() && (#[trigger] jobs[k]).target == target
                && !round.outcomes.contains(OutcomeView::Retained(k)),
        _ => false,
    }
}

/// The event is a reason to leave the file of `entry` to Git.
pub open spec fn tells_against(
    l: Seq<Event>,
    m: int,
    entry: EntryView,
    donor: Seq<u8>,
    destination: Seq<u8>,
) -> bool {
    ||| shows_misfit(l, m, joined(donor, entry.path), entry)
    ||| setting_changes(l, m, destination, "core.autocrlf"@)
    ||| setting_changes(l, m, destination, "core.eol"@)
    ||| attribute_changes(l, m, entry.path)
    ||| clone_failed(l, m, joined(destination, entry.path))
}

/// `path` is left to Git for a reason: it is that of an entry that is not of an
/// ordinary file; or the donor's file is missing, is of another kind, or has
/// not the committed executable bit or hash; or a checkout would change it; or
/// its clone did not stay or has not the committed hash.
pub open spec fn left_to_git(
    l: Seq<Event>,
    i: int,
    j: int,
    path: Seq<u8>,
    entries: Seq<EntryView>,
    donor: Seq<u8>,
    destination: Seq<u8>,
) -> bool {
    exists|n: int|
        {
            &&& 0 <= n < entries.len()
            &&& (#[trigger] entries[n]).path == path
            &&& {
                ||| !ordinary(entries[n])
                ||| exists|m: int|
                    i <= m < j && #[trigger] tells_against(l, m, entries[n], donor, destination)
                ||| exists|oid: Seq<char>|
                    oid != entries[n].oid && #[trigger] hashed_as(
                        l,
                        i,
                        j,
                        destination,
                        joined(donor, path),
                        oid,
                    )
                ||| exists|oid: Seq<char>|
                    oid != entries[n].oid && #[trigger] hashed_as(
                        l,
                        i,
                        j,
                        destination,
                        joined(destination, path),
                        oid,
                    )
            }
        }
}

/// A reason between `i` and `b` is one up to any later position.
pub proof fn lemma_left_within(
    l: Seq<Event>,
    i: int,
    b: int,
    j: int,
    path: Seq<u8>,
    entries: Seq<EntryView>,
    donor: Seq<u8>,
    destination: Seq<u8>,
)
    requires
        left_to_git(l, i, b, path, entries, donor, destination),
        b <= j,
    ensures
        left_to_git(l, i, j, path, entries, donor, destination),
{
    let n = choose|n: int|
        {
            &&& 0 <= n < entries.len()
            &&& (#[trigger] entries[n]).path == path
            &&& {
                ||| !ordinary(entries[n])
                ||| exists|m: int|
                    i <= m < b && #[trigger] tells_against(l, m, entries[n], donor, destination)
                ||| exists|oid: Seq<char>|
                    oid != entries[n].oid && #[trigger] hashed_as(
                        l,
                        i,
                        b,
                        destination,
                        joined(donor, path),
                        oid,
                    )
                ||| exists|oid: Seq<char>|
                    oid != entries[n].oid && #[trigger] hashed_as(
                        l,
                        i,
                        b,
                        destination,
                        joined(destination, path),
                        oid,
                    )
            }
        };
    assert forall|p: Seq<u8>, oid: Seq<char>| #[trigger]
        hashed_as(l, i, b, destination, p, oid) implies hashed_as(
        l,
        i,
        j,
        destination,
        p,
        oid,
    ) by {
        lemma_hashed_within(l, i, j, i, b, destination, p, oid);
    }
    assert(entries[n].path == path);
}

proof fn lemma_sorted_left(
    l: Seq<Event>,
    start: int,
    i: int,
    entries: Seq<EntryView>,
    k: nat,
    donor: Seq<u8>,
    destination: Seq<u8>,
    json: bool,
    t: TransactionView,
    heaps: Heaps,
)
    requires
        i == -1 || 0 <= start <= i <= l.len(),
        k <= entries.len(),
        i != -1 ==> forall|n: int|
            0 <= n < heaps.git_paths.len() ==> left_to_git(
                l,
                start,
                i,
                #[trigger] heaps.git_paths[n],
                entries,
                donor,
                destination,
            ),
    ensures
        ({
            let (r, j) = sort_from(l, i, entries, k, donor, destination, json, t, heaps);
            r is Ok ==> {
                &&& j == -1 || (i != -1 && i <= j <= l.len())
                &&& j != -1 ==> forall|n: int|
                    0 <= n < r->Ok_0.git_paths.len() ==> left_to_git(
                        l,
                        start,
                        j,
                        #[trigger] r->Ok_0.git_paths[n],
                        entries,
                        donor,
                        destination,
                    )
            }
        }),
    decreases entries.len() - k,
{
    if k < entries.len() {
        let (stop, a) = check_cancelled_at(l, i, json, t);
        if stop is None {
            let entry = entries[k as int];
            let (next, b) = sort_entry_at(l, a, entry, donor, destination, heaps);
            assert(b == -1 || (i != -1 && i <= a <= b <= l.len()));
            if b != -1 {
                assert forall|n: int| 0 <= n < next.git_paths.len() implies left_to_git(
                    l,
                    start,
                    b,
                    #[trigger] next.git_paths[n],
                    entries,
                    donor,
                    destination,
                ) by {
                    if n < heaps.git_paths.len() {
                        assert(next.git_paths[n] == heaps.git_paths[n]);
                        lemma_left_within(
                            l,
                            start,
                            i,
                            b,
                            heaps.git_paths[n],
                            entries,
                            donor,
                            destination,
                        );
                    } else {
                        assert(entries[k as int].path == next.git_paths[n]);
                        if ordinary(entry) {
                            assert(tells_against(l, a, entry, donor, destination));
                        }
                    }
                }
            }
            lemma_sorted_left(l, start, b, entries, k + 1, donor, destination, json, t, next);
        }
    }
}

/// Every clone that can be proven stays: a tracked file is left to Git only
/// where the log shows why, be it that there is no ordinary file to clone, that
/// a checkout would change it, that the donor's file or the clone is not what
/// was committed, or that cloning it failed.
#[verifier::rlimit(30)]
pub proof fn law_files_are_left_to_git_for_a_reason(
    l: Seq<Event>,
    i: int,
    entries: Seq<EntryView>,
    donor: Seq<u8>,
    destination: Seq<u8>,
    backend: Backend,
    json: bool,
    t: TransactionView,
    done: Filled,
    j: int,
)
    requires
        0 <= i <= l.len(),
        materialize_clean_files_at(
            l,
            i,
            entries,
            Some(donor),
            destination,
            Some(backend),
            json,
            t,
        ) == (Ok::<Filled, ErrorView>(done), j),
        j != -1,
    ensures
        forall|n: int|
            0 <= n < done.git_paths.len() ==> left_to_git(
                l,
                i,
                j,
                #[trigger] done.git_paths[n],
                entries,
                donor,
                destination,
            ),
{
    reveal(materialize_clean_files_at);
    reveal(proven_at);
    reveal(clone_candidates_at);
    let none = Heaps { git_paths: Seq::empty(), candidates: Seq::empty() };
    lemma_sorted(l, i, i, entries, 0, donor, destination, json, t, none);
    lemma_sorted_left(l, i, i, entries, 0, donor, destination, json, t, none);
    let (first, a) = sort_entries_at(l, i, entries, donor, destination, json, t);
    let first = first->Ok_0;
    let (_, b) = check_cancelled_at(l, a, json, t);
    let paths = tracked_paths(first.candidates);
    let (flags, c) = transformed_paths_at(l, b, destination, paths);
    let flags = flags->Ok_0;
    let second = without_transformed(first, flags);
    let based = Heaps { git_paths: first.git_paths, candidates: Seq::empty() };
    lemma_unflagged(first.candidates, flags, 0, based);
    lemma_dropped_at_first(first.git_paths, first.candidates);
    lemma_unflagged_dropped(first.candidates, flags, 0, based, first.git_paths);
    let (_, d) = check_cancelled_at(l, c, json, t);
    let (hashes, e) = hash_clean_files_at(
        l,
        d,
        destination,
        sources(second.candidates),
        "donor_verification"@,
        json,
        t,
    );
    let hashes = hashes->Ok_0;
    let third = unchanged(second, hashes);
    let (round_heaps, f) = clone_candidates_at(l, e, third, json, t);
    let fourth = round_heaps->Ok_0;
    let (again, g) = hash_clean_files_at(
        l,
        f,
        destination,
        targets(fourth.candidates),
        "clone_verification"@,
        json,
        t,
    );
    let again = again->Ok_0;
    lemma_transformed_onward(l, b, destination, paths);
    lemma_hashes(l, d, destination, sources(second.candidates), 0, Seq::empty());
    lemma_hashes(l, f, destination, targets(fourth.candidates), 0, Seq::empty());
    let (umask, u) = crate::host::umask_at(l, e);
    let wanted = crate::add::materialize::jobs(third.candidates);
    let (round, v) = clone_all_at(l, u, wanted, umask);
    let kept_flags = retained_flags(round.outcomes, third.candidates.len());
    assert(fourth == retained(third, kept_flags));
    lemma_settle_onward(
        l,
        g,
        fourth.candidates,
        again,
        0,
        Filled { cow_files: 0, git_paths: fourth.git_paths },
    );
    assert(g != -1 && f != -1 && e != -1 && d != -1);
    assert(i <= a && a <= b && b <= c && c <= d && d <= e && e <= u && u + 1 == v && v <= f && f
        <= g && g <= j);
    law_every_file_is_hashed(l, d, destination, sources(second.candidates), hashes, e);
    law_every_file_is_hashed(l, f, destination, targets(fourth.candidates), again, g);
    let based = Heaps { git_paths: second.git_paths, candidates: Seq::empty() };
    lemma_matching(second.candidates, hashes, 0, based);
    lemma_dropped_at_first(second.git_paths, second.candidates);
    lemma_matching_dropped(second.candidates, hashes, 0, based, second.git_paths);
    let based = Heaps { git_paths: third.git_paths, candidates: Seq::empty() };
    lemma_flagged(third.candidates, kept_flags, 0, based);
    lemma_dropped_at_first(third.git_paths, third.candidates);
    lemma_flagged_dropped(third.candidates, kept_flags, 0, based, third.git_paths);
    let based = Heaps { git_paths: fourth.git_paths, candidates: Seq::empty() };
    lemma_settled(l, g, fourth.candidates, again, 0, based);
    lemma_dropped_at_first(fourth.git_paths, fourth.candidates);
    lemma_matching_dropped(fourth.candidates, again, 0, based, fourth.git_paths);
    // Where a candidate comes from.
    let test1 = |m: int| !(m < flags.len() && flags[m]);
    let test2 = |m: int| hashes[m] == second.candidates[m].oid;
    let test3 = |m: int| m < kept_flags.len() && kept_flags[m];
    let test4 = |m: int| again[m] == fourth.candidates[m].oid;
    assert forall|m: int| 0 <= m < second.candidates.len() implies stems_from(
        l,
        i,
        a,
        #[trigger] second.candidates[m],
        entries,
        donor,
        destination,
    ) by {
        assert(chosen_from(second.candidates[m], first.candidates, test1));
    }
    assert forall|m: int| 0 <= m < third.candidates.len() implies stems_from(
        l,
        i,
        a,
        #[trigger] third.candidates[m],
        entries,
        donor,
        destination,
    ) by {
        assert(chosen_from(third.candidates[m], second.candidates, test2));
    }
    assert forall|m: int| 0 <= m < fourth.candidates.len() implies stems_from(
        l,
        i,
        a,
        #[trigger] fourth.candidates[m],
        entries,
        donor,
        destination,
    ) by {
        assert(chosen_from(fourth.candidates[m], third.candidates, test3));
    }
    // Why it was dropped.
    assert forall|n: int| 0 <= n < second.git_paths.len() implies left_to_git(
        l,
        i,
        j,
        #[trigger] second.git_paths[n],
        entries,
        donor,
        destination,
    ) by {
        let path = second.git_paths[n];
        assert(drops(path, first.git_paths, first.candidates, test1));
        if first.git_paths.contains(path) {
            let m = choose|m: int| 0 <= m < first.git_paths.len() && first.git_paths[m] == path;
            lemma_left_within(l, i, a, j, first.git_paths[m], entries, donor, destination);
        } else {
            let m = choose|m: int|
                0 <= m < first.candidates.len() && (#[trigger] first.candidates[m]).path == path
                    && !test1(m);
            assert(paths[m] == path);
            let x = lemma_flag_has_a_reason(l, b, destination, paths, m);
            assert(i <= x < j);
            lemma_told_against(
                l,
                i,
                a,
                j,
                x,
                first.candidates[m],
                entries,
                donor,
                destination,
            );
        }
    }
    assert forall|n: int| 0 <= n < third.git_paths.len() implies left_to_git(
        l,
        i,
        j,
        #[trigger] third.git_paths[n],
        entries,
        donor,
        destination,
    ) by {
        let path = third.git_paths[n];
        assert(drops(path, second.git_paths, second.candidates, test2));
        if !second.git_paths.contains(path) {
            let m = choose|m: int|
                0 <= m < second.candidates.len() && (#[trigger] second.candidates[m]).path == path
                    && !test2(m);
            assert(sources(second.candidates)[m] == second.candidates[m].source);
            assert(hashed_as(l, d, e, destination, sources(second.candidates)[m], hashes[m]));
            lemma_hashed_within(
                l,
                i,
                j,
                d,
                e,
                destination,
                second.candidates[m].source,
                hashes[m],
            );
            lemma_hash_differs(
                l,
                i,
                a,
                j,
                hashes[m],
                second.candidates[m],
                entries,
                donor,
                destination,
            );
        }
    }
    assert forall|n: int| 0 <= n < fourth.git_paths.len() implies left_to_git(
        l,
        i,
        j,
        #[trigger] fourth.git_paths[n],
        entries,
        donor,
        destination,
    ) by {
        let path = fourth.git_paths[n];
        assert(drops(path, third.git_paths, third.candidates, test3));
        if !third.git_paths.contains(path) {
            let m = choose|m: int|
                0 <= m < third.candidates.len() && (#[trigger] third.candidates[m]).path == path
                    && !test3(m);
            assert(wanted[m].target == third.candidates[m].target);
            assert(clone_failed(l, u, third.candidates[m].target));
            lemma_told_against(
                l,
                i,
                a,
                j,
                u,
                third.candidates[m],
                entries,
                donor,
                destination,
            );
        }
    }
    assert forall|n: int| 0 <= n < done.git_paths.len() implies left_to_git(
        l,
        i,
        j,
        #[trigger] done.git_paths[n],
        entries,
        donor,
        destination,
    ) by {
        let path = done.git_paths[n];
        assert(drops(path, fourth.git_paths, fourth.candidates, test4));
        if !fourth.git_paths.contains(path) {
            let m = choose|m: int|
                0 <= m < fourth.candidates.len() && (#[trigger] fourth.candidates[m]).path == path
                    && !test4(m);
            assert(targets(fourth.candidates)[m] == fourth.candidates[m].target);
            assert(hashed_as(l, f, g, destination, targets(fourth.candidates)[m], again[m]));
            lemma_hashed_within(
                l,
                i,
                j,
                f,
                g,
                destination,
                fourth.candidates[m].target,
                again[m],
            );
            lemma_hash_differs(
                l,
                i,
                a,
                j,
                again[m],
                fourth.candidates[m],
                entries,
                donor,
                destination,
            );
        }
    }
}

proof fn lemma_dropped_at_first(paths: Seq<Seq<u8>>, candidates: Seq<CandidateView>)
    ensures
        forall|test: spec_fn(int) -> bool| #[trigger] dropped(paths, paths, candidates, test),
{
    assert forall|test: spec_fn(int) -> bool| #[trigger]
        dropped(paths, paths, candidates, test) by {
        assert forall|n: int| 0 <= n < paths.len() implies drops(
            #[trigger] paths[n],
            paths,
            candidates,
            test,
        ) by {
            assert(paths.contains(paths[n]));
        }
    }
}

proof fn lemma_flag_has_a_reason(
    l: Seq<Event>,
    i: int,
    destination: Seq<u8>,
    paths: Seq<Seq<u8>>,
    m: int,
) -> (x: int)
    requires
        0 <= i <= l.len(),
        0 <= m < paths.len(),
        transformed_paths_at(l, i, destination, paths).0 matches Ok(flags) && m < flags.len()
            && flags[m],
        transformed_paths_at(l, i, destination, paths).1 != -1,
    ensures
        i <= x < transformed_paths_at(l, i, destination, paths).1,
        setting_changes(l, x, destination, "core.autocrlf"@) || setting_changes(
            l,
            x,
            destination,
            "core.eol"@,
        ) || attribute_changes(l, x, paths[m]),
{
    reveal(transformed_paths_at);
    let (first, a) = crate::git::setting_at(l, i, destination, "core.autocrlf"@);
    if first == Ok::<bool, crate::git::GitFailureView>(true) {
        assert(setting_changes(l, i, destination, "core.autocrlf"@));
        i
    } else {
        let (second, b) = crate::git::setting_at(l, a, destination, "core.eol"@);
        if second == Ok::<bool, crate::git::GitFailureView>(true) {
            assert(setting_changes(l, a, destination, "core.eol"@));
            a
        } else {
            let fields = zero_fields((l[b]->Git_1)->Ok_0.stdout);
            assert(changed_by(fields, paths[m]));
            let k = choose|k: int|
                0 <= k < fields.len() / 3 && #[trigger] fields[3 * k] == paths[m]
                    && crate::git::changing_attribute(fields[3 * k + 1], fields[3 * k + 2]);
            assert(fields[3 * k] == paths[m]);
            assert(attribute_changes(l, b, paths[m]));
            b
        }
    }
}

proof fn lemma_told_against(
    l: Seq<Event>,
    i: int,
    a: int,
    j: int,
    x: int,
    c: CandidateView,
    entries: Seq<EntryView>,
    donor: Seq<u8>,
    destination: Seq<u8>,
)
    requires
        stems_from(l, i, a, c, entries, donor, destination),
        i <= x < j,
        setting_changes(l, x, destination, "core.autocrlf"@) || setting_changes(
            l,
            x,
            destination,
            "core.eol"@,
        ) || attribute_changes(l, x, c.path) || clone_failed(l, x, c.target),
    ensures
        left_to_git(l, i, j, c.path, entries, donor, destination),
{
    let n = choose|n: int|
        0 <= n < entries.len() && ordinary(#[trigger] entries[n]) && stands_for(
            c,
            entries[n],
            donor,
            destination,
        ) && seen_fit(l, i, a, c.source, entries[n]);
    assert(tells_against(l, x, entries[n], donor, destination));
    assert(entries[n].path == c.path);
}

proof fn lemma_hash_differs(
    l: Seq<Event>,
    i: int,
    a: int,
    j: int,
    oid: Seq<char>,
    c: CandidateView,
    entries: Seq<EntryView>,
    donor: Seq<u8>,
    destination: Seq<u8>,
)
    requires
        stems_from(l, i, a, c, entries, donor, destination),
        hashed_as(l, i, j, destination, c.source, oid) || hashed_as(
            l,
            i,
            j,
            destination,
            c.target,
            oid,
        ),
        oid != c.oid,
    ensures
        left_to_git(l, i, j, c.path, entries, donor, destination),
{
    let n = choose|n: int|
        0 <= n < entries.len() && ordinary(#[trigger] entries[n]) && stands_for(
            c,
            entries[n],
            donor,
            destination,
        ) && seen_fit(l, i, a, c.source, entries[n]);
    assert(entries[n].path == c.path);
}

/// Filling a clean worktree goes on in the log, unless the position is lost.
pub proof fn lemma_materialized_onward(
    l: Seq<Event>,
    i: int,
    entries: Seq<EntryView>,
    donor: Option<Seq<u8>>,
    destination: Seq<u8>,
    backend: Option<Backend>,
    json: bool,
    t: TransactionView,
)
    requires
        i == -1 || 0 <= i <= l.len(),
    ensures
        ({
            let (r, j) = materialize_clean_files_at(
                l,
                i,
                entries,
                donor,
                destination,
                backend,
                json,
                t,
            );
            r is Ok ==> j == -1 || (i != -1 && i <= j <= l.len())
        }),
{
    reveal(materialize_clean_files_at);
    reveal(proven_at);
    reveal(clone_candidates_at);
    if donor is Some && backend is Some {
        let none = Heaps { git_paths: Seq::empty(), candidates: Seq::empty() };
        lemma_sorted_left(l, i, i, entries, 0, donor->0, destination, json, t, none);
        let (first, a) = sort_entries_at(l, i, entries, donor->0, destination, json, t);
        let (stop, b) = check_cancelled_at(l, a, json, t);
        let paths = tracked_paths(first->Ok_0.candidates);
        let (flags, c) = transformed_paths_at(l, b, destination, paths);
        let second = without_transformed(first->Ok_0, flags->Ok_0);
        let (again_stop, d) = check_cancelled_at(l, c, json, t);
        let (hashes, e) = hash_files_at(l, d, destination, sources(second.candidates));
        let third = unchanged(second, hashes->Ok_0);
        let (fourth, f) = clone_candidates_at(l, e, third, json, t);
        let (again, g) = hash_files_at(l, f, destination, targets(fourth->Ok_0.candidates));
        if first is Ok && stop is None && flags is Ok && again_stop is None && hashes is Ok
            && fourth is Ok {
            lemma_transformed_onward(l, b, destination, paths);
            lemma_hashes(l, d, destination, sources(second.candidates), 0, Seq::empty());
            let (umask, u) = crate::host::umask_at(l, e);
            let (round, v) = clone_all_at(
                l,
                u,
                crate::add::materialize::jobs(third.candidates),
                umask,
            );
            assert(f == -1 || (e != -1 && e <= f <= l.len()));
            lemma_hashes(l, f, destination, targets(fourth->Ok_0.candidates), 0, Seq::empty());
            if again is Ok {
                lemma_settle_onward(
                    l,
                    g,
                    fourth->Ok_0.candidates,
                    again->Ok_0,
                    0,
                    Filled { cow_files: 0, git_paths: fourth->Ok_0.git_paths },
                );
            }
        }
    }
}

/// What is proven between `i` and `b` is so up to any later position.
pub proof fn lemma_accounts_within(
    l: Seq<Event>,
    i: int,
    b: int,
    j: int,
    kept: Seq<CandidateView>,
    done: Filled,
    entries: Seq<EntryView>,
    donor: Seq<u8>,
    destination: Seq<u8>,
)
    requires
        accounts_for(l, i, b, kept, done, entries, donor, destination),
        b <= j,
    ensures
        accounts_for(l, i, j, kept, done, entries, donor, destination),
{
    assert forall|n: int| 0 <= n < kept.len() implies proven(
        l,
        i,
        j,
        #[trigger] kept[n],
        entries,
        donor,
        destination,
    ) by {
        let c = kept[n];
        assert(proven(l, i, b, c, entries, donor, destination));
        let m = choose|m: int|
            {
                &&& i <= m < b
                &&& #[trigger] cloned_at(l, m, c)
                &&& stems_from(l, i, m, c, entries, donor, destination)
                &&& hashed_as(l, i, m, destination, c.source, c.oid)
                &&& hashed_as(l, m + 1, b, destination, c.target, c.oid)
            };
        lemma_hashed_within(l, m + 1, j, m + 1, b, destination, c.target, c.oid);
        assert(cloned_at(l, m, c));
    }
}

/// Cloning goes on only from a round that is whole: no worker came to an
/// unforeseen end, no clone failed beyond repair, and every job that was handed
/// over ended once. The jobs run under the process's own mask.
pub proof fn law_clones_come_from_a_whole_round(
    l: Seq<Event>,
    i: int,
    heaps: Heaps,
    json: bool,
    t: TransactionView,
)
    requires
        clone_candidates_at(l, i, heaps, json, t).0 is Ok,
        clone_candidates_at(l, i, heaps, json, t).1 != -1,
    ensures
        0 <= i,
        i + 1 < l.len(),
        l[i] matches Event::Umask(own) && l[i + 1] matches Event::CloneAll(handed, umask, round)
            && {
            &&& umask == own
            &&& handed.len() == heaps.candidates.len()
            &&& !round.panicked
            &&& forall|k: int|
                0 <= k < round.outcomes.len() ==> !((#[trigger] round.outcomes[k]) is Fatal)
            &&& round.outcomes.len() == heaps.candidates.len()
            &&& round.outcomes.no_duplicates()
        },
{
    reveal(clone_candidates_at);
    let own = l[i]->Umask_0;
    let round = l[i + 1]->CloneAll_2;
    lemma_no_fatal(round.outcomes);
    assert(round.outcomes.no_duplicates());
}

proof fn lemma_no_fatal(outcomes: Seq<OutcomeView>)
    requires
        first_fatal(outcomes) is None,
    ensures
        forall|k: int| 0 <= k < outcomes.len() ==> !((#[trigger] outcomes[k]) is Fatal),
    decreases outcomes.len(),
{
    if outcomes.len() > 0 {
        let front = outcomes.drop_last();
        lemma_no_fatal(front);
        assert forall|k: int| 0 <= k < outcomes.len() implies !((#[trigger] outcomes[k]) is Fatal) by {
            if k < front.len() {
                assert(front[k] == outcomes[k]);
            }
        }
    }
}

} // verus!
