//! Filling a clean worktree: clones where the donor's file is proven to be the
//! committed one, and Git for the rest.
use crate::add::branch::{git_error, git_problem};
use crate::add::transaction::{
    check_cancelled, check_cancelled_at, fail, fail_at, interrupted, Transaction, TransactionView,
};
use crate::doctor::ended;
use crate::error::{problem, ErrorView, RamizError};
use crate::fsclone::Backend;
use crate::git::{
    hash_files, hash_files_at, transformed_paths, transformed_paths_at, EntryView, HashFailure,
    HashFilesError, IndexEntry,
};
use crate::git::entry_views;
use crate::host::{
    clone_all_at, job_views, metadata_at, outcome_views, remove_file_at, umask_at, CloneJob,
    CloneOutcome, Event, Host, JobView, Metadata, OutcomeView, Session, REGULAR,
};
use crate::path::{join, joined};
use crate::text::{copy, same, text_views, views};
use crate::update::io::extends;
use vstd::prelude::*;

verus! {

/// The mode of a tracked file.
pub const PLAIN_FILE: u32 = 0o100644;

/// The mode of a tracked executable.
pub const EXECUTABLE_FILE: u32 = 0o100755;

/// A tracked file that the donor may have as it was committed.
pub struct CleanCandidate {
    pub path: Vec<u8>,
    pub oid: String,
    pub source: Vec<u8>,
    pub target: Vec<u8>,
    pub executable: bool,
}

/// The model of a [`CleanCandidate`].
#[verifier::ext_equal]
pub struct CandidateView {
    pub path: Seq<u8>,
    pub oid: Seq<char>,
    pub source: Seq<u8>,
    pub target: Seq<u8>,
    pub executable: bool,
}

impl View for CleanCandidate {
    type V = CandidateView;

    open spec fn view(&self) -> CandidateView {
        CandidateView {
            path: self.path@,
            oid: self.oid@,
            source: self.source@,
            target: self.target@,
            executable: self.executable,
        }
    }
}

/// The views of a list of candidates.
pub open spec fn candidate_views(v: Seq<CleanCandidate>) -> Seq<CandidateView> {
    v.map_values(|c: CleanCandidate| c@)
}

/// Files on two heaps: those for Git, and those that are still candidates.
#[verifier::ext_equal]
pub struct Heaps {
    pub git_paths: Seq<Seq<u8>>,
    pub candidates: Seq<CandidateView>,
}

/// The two heaps.
pub struct Sorted {
    pub git_paths: Vec<Vec<u8>>,
    pub candidates: Vec<CleanCandidate>,
}

impl View for Sorted {
    type V = Heaps;

    open spec fn view(&self) -> Heaps {
        Heaps {
            git_paths: views(self.git_paths@),
            candidates: candidate_views(self.candidates@),
        }
    }
}

impl Heaps {
    /// A file more for Git.
    pub open spec fn for_git(self, path: Seq<u8>) -> Heaps {
        Heaps { git_paths: self.git_paths.push(path), ..self }
    }

    /// A candidate more.
    pub open spec fn kept(self, candidate: CandidateView) -> Heaps {
        Heaps { candidates: self.candidates.push(candidate), ..self }
    }
}

impl Sorted {
    fn new(git_paths: Vec<Vec<u8>>) -> (r: Self)
        ensures
            r@ == (Heaps { git_paths: views(git_paths@), candidates: Seq::empty() }),
    {
        let r = Sorted { git_paths, candidates: Vec::new() };
        assert(r@ =~= (Heaps { git_paths: views(git_paths@), candidates: Seq::empty() }));
        r
    }

    fn push_path(&mut self, path: Vec<u8>)
        ensures
            final(self)@ == old(self)@.for_git(path@),
    {
        let ghost before = self@;
        let ghost shown = path@;
        self.git_paths.push(path);
        assert(views(self.git_paths@) =~= before.git_paths.push(shown));
        assert(self@ =~= before.for_git(shown));
    }

    fn push_candidate(&mut self, candidate: CleanCandidate)
        ensures
            final(self)@ == old(self)@.kept(candidate@),
    {
        let ghost before = self@;
        let ghost shown = candidate@;
        self.candidates.push(candidate);
        assert(candidate_views(self.candidates@) =~= before.candidates.push(shown));
        assert(self@ =~= before.kept(shown));
    }
}

// ---------------------------------------------------------------------------
// Choosing candidates
// ---------------------------------------------------------------------------

/// An entry that a clone can stand for: an ordinary file, not in conflict.
pub open spec fn clonable(entry: EntryView) -> bool {
    entry.stage == 0 && (entry.mode == PLAIN_FILE || entry.mode == EXECUTABLE_FILE)
}

/// What the donor has there is an ordinary file that is executable where it
/// has to be, and only there.
pub open spec fn fits(entry: EntryView, metadata: Metadata) -> bool {
    metadata.kind() == REGULAR && (entry.mode == EXECUTABLE_FILE) == (metadata.mode & 0o111u32
        != 0)
}

/// The entry as a candidate.
pub open spec fn candidate(
    entry: EntryView,
    donor: Seq<u8>,
    destination: Seq<u8>,
) -> CandidateView {
    CandidateView {
        path: entry.path,
        oid: entry.oid,
        source: joined(donor, entry.path),
        target: joined(destination, entry.path),
        executable: entry.mode == EXECUTABLE_FILE,
    }
}

/// Puts an entry on one of the heaps.
pub open spec fn sort_entry_at(
    l: Seq<Event>,
    i: int,
    entry: EntryView,
    donor: Seq<u8>,
    destination: Seq<u8>,
    heaps: Heaps,
) -> (Heaps, int) {
    if !clonable(entry) {
        (heaps.for_git(entry.path), i)
    } else {
        let (metadata, i) = metadata_at(l, i, joined(donor, entry.path));
        match metadata {
            Ok(metadata) => if fits(entry, metadata) {
                (heaps.kept(candidate(entry, donor, destination)), i)
            } else {
                (heaps.for_git(entry.path), i)
            },
            Err(_) => (heaps.for_git(entry.path), i),
        }
    }
}

/// Puts the entries from number `k` on on the heaps, unless the user asks to
/// stop.
pub open spec fn sort_from(
    l: Seq<Event>,
    i: int,
    entries: Seq<EntryView>,
    k: nat,
    donor: Seq<u8>,
    destination: Seq<u8>,
    json: bool,
    t: TransactionView,
    heaps: Heaps,
) -> (Result<Heaps, ErrorView>, int)
    decreases entries.len() - k,
{
    if k >= entries.len() {
        (Ok(heaps), i)
    } else {
        let (stop, i) = check_cancelled_at(l, i, json, t);
        match stop {
            Some(error) => (Err(error), i),
            None => {
                let (heaps, i) = sort_entry_at(
                    l,
                    i,
                    entries[k as int],
                    donor,
                    destination,
                    heaps,
                );
                sort_from(l, i, entries, k + 1, donor, destination, json, t, heaps)
            },
        }
    }
}

/// The entries on two heaps.
pub open spec fn sort_entries_at(
    l: Seq<Event>,
    i: int,
    entries: Seq<EntryView>,
    donor: Seq<u8>,
    destination: Seq<u8>,
    json: bool,
    t: TransactionView,
) -> (Result<Heaps, ErrorView>, int) {
    sort_from(
        l,
        i,
        entries,
        0,
        donor,
        destination,
        json,
        t,
        Heaps { git_paths: Seq::empty(), candidates: Seq::empty() },
    )
}

fn sort_entry<H: Host>(
    s: &mut Session<H>,
    entry: &IndexEntry,
    donor: &[u8],
    destination: &[u8],
    heaps: &mut Sorted,
)
    ensures
        extends(final(s).log(), old(s).log()),
        forall|l: Seq<Event>|
            extends(l, final(s).log()) ==> #[trigger] sort_entry_at(
                l,
                old(s).log().len() as int,
                entry@,
                donor@,
                destination@,
                old(heaps)@,
            ) == (final(heaps)@, final(s).log().len() as int),
{
    if entry.stage != 0 || (entry.mode != PLAIN_FILE && entry.mode != EXECUTABLE_FILE) {
        heaps.push_path(copy(entry.path.as_slice()));
        return ;
    }
    let source = join(donor, entry.path.as_slice());
    let fitting: bool = match s.metadata(source.as_slice()) {
        Ok(metadata) => metadata.kind_of() == REGULAR && (entry.mode == EXECUTABLE_FILE) == (
        metadata.mode & 0o111 != 0),
        Err(_) => false,
    };
    if fitting {
        heaps.push_candidate(
            CleanCandidate {
                target: join(destination, entry.path.as_slice()),
                source,
                executable: entry.mode == EXECUTABLE_FILE,
                path: copy(entry.path.as_slice()),
                oid: entry.oid.clone(),
            },
        );
    } else {
        heaps.push_path(copy(entry.path.as_slice()));
    }
}

fn sort_entries<H: Host>(
    s: &mut Session<H>,
    entries: &Vec<IndexEntry>,
    donor: &[u8],
    destination: &[u8],
    json: bool,
    t: &mut Transaction,
) -> (r: Result<Sorted, RamizError>)
    ensures
        extends(final(s).log(), old(s).log()),
        forall|l: Seq<Event>|
            extends(l, final(s).log()) ==> #[trigger] sort_entries_at(
                l,
                old(s).log().len() as int,
                entry_views(entries@),
                donor@,
                destination@,
                json,
                old(t)@,
            ) == (ended(r), final(s).log().len() as int),
        r is Ok ==> *final(t) == *old(t),
        r is Err ==> final(t)@ == (TransactionView { rollback_enabled: false, ..old(t)@ }),
{
    let mut heaps = Sorted::new(Vec::new());
    let ghost from = s.log().len() as int;
    let ghost all = entry_views(entries@);
    let ghost had = t@;
    let n: usize = entries.len();
    assert(all.len() == n);
    assert(heaps@ =~= (Heaps { git_paths: Seq::empty(), candidates: Seq::empty() }));
    for k in 0..n
        invariant
            n == entries@.len(),
            n == all.len(),
            all == entry_views(entries@),
            from == old(s).log().len(),
            had == old(t)@,
            *t == *old(t),
            extends(s.log(), old(s).log()),
            forall|l: Seq<Event>|
                extends(l, s.log()) ==> #[trigger] sort_entries_at(
                    l,
                    from,
                    all,
                    donor@,
                    destination@,
                    json,
                    had,
                ) == sort_from(
                    l,
                    s.log().len() as int,
                    all,
                    k as nat,
                    donor@,
                    destination@,
                    json,
                    had,
                    heaps@,
                ),
    {
        match check_cancelled(s, json, t) {
            Ok(_) => {},
            Err(error) => {
                return Err(error);
            },
        }
        let entry = &entries[k];
        assert(all[k as int] == entry@);
        sort_entry(s, entry, donor, destination, &mut heaps);
    }
    Ok(heaps)
}

/// The candidates from number `k` on, those with a flag for Git.
pub open spec fn unflagged_from(
    candidates: Seq<CandidateView>,
    flags: Seq<bool>,
    k: nat,
    heaps: Heaps,
) -> Heaps
    decreases candidates.len() - k,
{
    if k >= candidates.len() {
        heaps
    } else {
        unflagged_from(
            candidates,
            flags,
            k + 1,
            if k < flags.len() && flags[k as int] {
                heaps.for_git(candidates[k as int].path)
            } else {
                heaps.kept(candidates[k as int])
            },
        )
    }
}

/// The heaps once the candidates that a checkout would change are Git's.
pub open spec fn without_transformed(heaps: Heaps, flags: Seq<bool>) -> Heaps {
    unflagged_from(
        heaps.candidates,
        flags,
        0,
        Heaps { git_paths: heaps.git_paths, candidates: Seq::empty() },
    )
}

fn copy_candidate(c: &CleanCandidate) -> (r: CleanCandidate)
    ensures
        r@ == c@,
{
    CleanCandidate {
        path: copy(c.path.as_slice()),
        oid: c.oid.clone(),
        source: copy(c.source.as_slice()),
        target: copy(c.target.as_slice()),
        executable: c.executable,
    }
}

fn drop_transformed(heaps: Sorted, flags: &Vec<bool>) -> (r: Sorted)
    ensures
        r@ == without_transformed(heaps@, flags@),
{
    let candidates = heaps.candidates;
    let ghost all = candidate_views(candidates@);
    let ghost goal = without_transformed(heaps@, flags@);
    let mut out = Sorted::new(heaps.git_paths);
    let n: usize = candidates.len();
    assert(all.len() == n);
    for k in 0..n
        invariant
            n == candidates@.len(),
            n == all.len(),
            all == candidate_views(candidates@),
            goal == unflagged_from(all, flags@, k as nat, out@),
    {
        assert(all[k as int] == candidates@[k as int]@);
        if k < flags.len() && flags[k] {
            out.push_path(copy(candidates[k].path.as_slice()));
        } else {
            out.push_candidate(copy_candidate(&candidates[k]));
        }
    }
    out
}

/// The candidates from number `k` on, those whose hash is not the committed
/// one for Git.
pub open spec fn matching_from(
    candidates: Seq<CandidateView>,
    hashes: Seq<Seq<char>>,
    k: nat,
    heaps: Heaps,
) -> Heaps
    decreases candidates.len() - k,
{
    if k >= candidates.len() || k >= hashes.len() {
        heaps
    } else {
        matching_from(
            candidates,
            hashes,
            k + 1,
            if hashes[k as int] == candidates[k as int].oid {
                heaps.kept(candidates[k as int])
            } else {
                heaps.for_git(candidates[k as int].path)
            },
        )
    }
}

/// The heaps once the candidates that the donor has changed are Git's.
pub open spec fn unchanged(heaps: Heaps, hashes: Seq<Seq<char>>) -> Heaps {
    matching_from(
        heaps.candidates,
        hashes,
        0,
        Heaps { git_paths: heaps.git_paths, candidates: Seq::empty() },
    )
}

fn keep_unchanged(heaps: Sorted, hashes: &Vec<String>) -> (r: Sorted)
    ensures
        r@ == unchanged(heaps@, text_views(hashes@)),
{
    let candidates = heaps.candidates;
    let ghost all = candidate_views(candidates@);
    let ghost seen = text_views(hashes@);
    let ghost goal = unchanged(heaps@, seen);
    let mut out = Sorted::new(heaps.git_paths);
    let n: usize = if candidates.len() < hashes.len() {
        candidates.len()
    } else {
        hashes.len()
    };
    assert(all.len() == candidates@.len());
    assert(seen.len() == hashes@.len());
    for k in 0..n
        invariant
            n <= candidates@.len(),
            n <= hashes@.len(),
            all == candidate_views(candidates@),
            seen == text_views(hashes@),
            all.len() == candidates@.len(),
            seen.len() == hashes@.len(),
            goal == matching_from(all, seen, k as nat, out@),
    {
        assert(all[k as int] == candidates@[k as int]@);
        assert(seen[k as int] == hashes@[k as int]@);
        if same(hashes[k].as_str(), candidates[k].oid.as_str()) {
            out.push_candidate(copy_candidate(&candidates[k]));
        } else {
            out.push_path(copy(candidates[k].path.as_slice()));
        }
    }
    out
}

// ---------------------------------------------------------------------------
// Hashing
// ---------------------------------------------------------------------------

/// Hashes files for a new worktree; a failure takes the worktree back.
pub open spec fn hash_clean_files_at(
    l: Seq<Event>,
    i: int,
    destination: Seq<u8>,
    paths: Seq<Seq<u8>>,
    code: Seq<char>,
    json: bool,
    t: TransactionView,
) -> (Result<Seq<Seq<char>>, ErrorView>, int) {
    let (r, i) = hash_files_at(l, i, destination, paths);
    match r {
        Ok(hashes) => (Ok(hashes), i),
        Err(HashFailure::Git(failure)) => {
            let (error, i) = fail_at(l, i, git_problem(code, failure, json), t);
            (Err(error), i)
        },
        Err(HashFailure::Cancelled) => {
            let (error, i) = fail_at(l, i, interrupted(json), t);
            (Err(error), i)
        },
    }
}

/// The view of hashes, or of the failure.
pub open spec fn hashed(r: Result<Vec<String>, RamizError>) -> Result<Seq<Seq<char>>, ErrorView> {
    match r {
        Ok(hashes) => Ok(text_views(hashes@)),
        Err(error) => Err(error@),
    }
}

/// The hash of each file.
pub fn hash_clean_files<H: Host>(
    s: &mut Session<H>,
    destination: &[u8],
    paths: &Vec<Vec<u8>>,
    code: &'static str,
    json: bool,
    t: &mut Transaction,
) -> (r: Result<Vec<String>, RamizError>)
    ensures
        extends(final(s).log(), old(s).log()),
        forall|l: Seq<Event>|
            extends(l, final(s).log()) ==> #[trigger] hash_clean_files_at(
                l,
                old(s).log().len() as int,
                destination@,
                views(paths@),
                code@,
                json,
                old(t)@,
            ) == (hashed(r), final(s).log().len() as int),
        r is Ok ==> *final(t) == *old(t),
        r is Err ==> final(t)@ == (TransactionView { rollback_enabled: false, ..old(t)@ }),
{
    match hash_files(s, destination, paths) {
        Ok(hashes) => Ok(hashes),
        Err(HashFilesError::Git(failure)) => Err(fail(s, git_error(code, failure, json), t)),
        Err(HashFilesError::Cancelled) => {
            let error = RamizError::new("interrupted", "creation interrupted".to_owned(), json);
            Err(fail(s, error, t))
        },
    }
}

/// The paths of the candidates below the donor.
pub open spec fn sources(candidates: Seq<CandidateView>) -> Seq<Seq<u8>> {
    candidates.map_values(|c: CandidateView| c.source)
}

/// The paths of the candidates.
pub open spec fn tracked_paths(candidates: Seq<CandidateView>) -> Seq<Seq<u8>> {
    candidates.map_values(|c: CandidateView| c.path)
}

fn source_paths(candidates: &Vec<CleanCandidate>) -> (r: Vec<Vec<u8>>)
    ensures
        views(r@) == sources(candidate_views(candidates@)),
{
    let mut out: Vec<Vec<u8>> = Vec::new();
    for k in 0..candidates.len()
        invariant
            out@.len() == k,
            forall|j: int| 0 <= j < k ==> (#[trigger] out@[j])@ == candidates@[j].source@,
    {
        out.push(copy(candidates[k].source.as_slice()));
    }
    assert(views(out@) =~= sources(candidate_views(candidates@)));
    out
}

fn candidate_paths(candidates: &Vec<CleanCandidate>) -> (r: Vec<Vec<u8>>)
    ensures
        views(r@) == tracked_paths(candidate_views(candidates@)),
{
    let mut out: Vec<Vec<u8>> = Vec::new();
    for k in 0..candidates.len()
        invariant
            out@.len() == k,
            forall|j: int| 0 <= j < k ==> (#[trigger] out@[j])@ == candidates@[j].path@,
    {
        out.push(copy(candidates[k].path.as_slice()));
    }
    assert(views(out@) =~= tracked_paths(candidate_views(candidates@)));
    out
}

// ---------------------------------------------------------------------------
// Cloning
// ---------------------------------------------------------------------------

/// The candidates as jobs.
pub open spec fn jobs(candidates: Seq<CandidateView>) -> Seq<JobView> {
    candidates.map_values(
        |c: CandidateView| JobView {
            source: c.source,
            target: c.target,
            executable: c.executable,
        },
    )
}

fn job_list(candidates: &Vec<CleanCandidate>) -> (r: Vec<CloneJob>)
    ensures
        job_views(r@) == jobs(candidate_views(candidates@)),
{
    let mut out: Vec<CloneJob> = Vec::new();
    for k in 0..candidates.len()
        invariant
            out@.len() == k,
            forall|j: int|
                0 <= j < k ==> (#[trigger] out@[j])@ == (JobView {
                    source: candidates@[j].source@,
                    target: candidates@[j].target@,
                    executable: candidates@[j].executable,
                }),
    {
        out.push(
            CloneJob {
                source: copy(candidates[k].source.as_slice()),
                target: copy(candidates[k].target.as_slice()),
                executable: candidates[k].executable,
            },
        );
    }
    assert(job_views(out@) =~= jobs(candidate_views(candidates@)));
    out
}

/// The number of the job that an outcome is of.
pub open spec fn job_number(outcome: OutcomeView) -> int {
    match outcome {
        OutcomeView::Retained(index) => index,
        OutcomeView::Checkout(index) => index,
        OutcomeView::Fatal(index, _) => index,
    }
}

/// The fatal outcome of the lowest job, if there is one.
pub open spec fn first_fatal(outcomes: Seq<OutcomeView>) -> Option<(int, Seq<char>)>
    decreases outcomes.len(),
{
    if outcomes.len() == 0 {
        None
    } else {
        let before = first_fatal(outcomes.drop_last());
        match outcomes.last() {
            OutcomeView::Fatal(index, message) => match before {
                Some((lowest, _)) => if lowest <= index {
                    before
                } else {
                    Some((index, message))
                },
                None => Some((index, message)),
            },
            _ => before,
        }
    }
}

/// There is one outcome for each of `n` jobs.
pub open spec fn complete(outcomes: Seq<OutcomeView>, n: int) -> bool {
    &&& outcomes.len() == n
    &&& forall|j: int| 0 <= j < outcomes.len() ==> 0 <= job_number(#[trigger] outcomes[j]) < n
    &&& forall|i: int, j: int|
        0 <= i < j < outcomes.len() ==> job_number(#[trigger] outcomes[i]) != job_number(
            #[trigger] outcomes[j],
        )
}

fn fatal_message(outcomes: &Vec<CloneOutcome>) -> (r: Option<String>)
    ensures
        match r {
            Some(message) => first_fatal(outcome_views(outcomes@)) matches Some((_, m)) && m
                == message@,
            None => first_fatal(outcome_views(outcomes@)) is None,
        },
{
    let mut best: Option<(usize, String)> = None;
    for k in 0..outcomes.len()
        invariant
            match best {
                Some((index, message)) => first_fatal(outcome_views(outcomes@).take(k as int))
                    == Some((index as int, message@)),
                None => first_fatal(outcome_views(outcomes@).take(k as int)) is None,
            },
    {
        let ghost all = outcome_views(outcomes@);
        assert(all.take(k + 1).drop_last() =~= all.take(k as int));
        assert(all.take(k + 1).last() == outcomes@[k as int]@);
        match &outcomes[k] {
            CloneOutcome::Fatal(index, message) => {
                let lower: bool = match &best {
                    Some((lowest, _)) => *index < *lowest,
                    None => true,
                };
                if lower {
                    best = Some((*index, message.clone()));
                }
            },
            _ => {},
        }
    }
    assert(outcome_views(outcomes@).take(outcomes@.len() as int) =~= outcome_views(outcomes@));
    match best {
        Some((_, message)) => Some(message),
        None => None,
    }
}

/// Which jobs left a clone that stays.
pub open spec fn retained_flags(outcomes: Seq<OutcomeView>, n: nat) -> Seq<bool> {
    Seq::new(n, |k: int| outcomes.contains(OutcomeView::Retained(k)))
}

/// Which of `n` jobs left a clone that stays; nothing where there is not one
/// outcome for each.
fn retained_jobs(outcomes: &Vec<CloneOutcome>, n: usize) -> (r: Option<Vec<bool>>)
    ensures
        match r {
            Some(flags) => complete(outcome_views(outcomes@), n as int) && flags@
                == retained_flags(outcome_views(outcomes@), n as nat),
            None => !complete(outcome_views(outcomes@), n as int),
        },
{
    let ghost all = outcome_views(outcomes@);
    assert(all.len() == outcomes@.len());
    if outcomes.len() != n {
        return None;
    }
    let mut seen: Vec<bool> = Vec::new();
    let mut flags: Vec<bool> = Vec::new();
    for k in 0..n
        invariant
            seen@.len() == k,
            flags@.len() == k,
            forall|j: int| 0 <= j < k ==> !(#[trigger] seen@[j]),
            forall|j: int| 0 <= j < k ==> !(#[trigger] flags@[j]),
    {
        seen.push(false);
        flags.push(false);
    }
    for k in 0..n
        invariant
            n == outcomes@.len(),
            n == all.len(),
            all == outcome_views(outcomes@),
            seen@.len() == n,
            flags@.len() == n,
            forall|j: int| 0 <= j < k ==> 0 <= job_number(#[trigger] all[j]) < n,
            forall|i: int, j: int|
                0 <= i < j < k ==> job_number(#[trigger] all[i]) != job_number(#[trigger] all[j]),
            forall|m: int|
                0 <= m < n ==> (#[trigger] seen@[m] == exists|j: int|
                    0 <= j < k && job_number(#[trigger] all[j]) == m),
            forall|m: int|
                0 <= m < n ==> (#[trigger] flags@[m] == exists|j: int|
                    0 <= j < k && #[trigger] all[j] == OutcomeView::Retained(m)),
    {
        assert(all[k as int] == outcomes@[k as int]@);
        let (index, kept): (usize, bool) = match &outcomes[k] {
            CloneOutcome::Retained(index) => (*index, true),
            CloneOutcome::Checkout(index) => (*index, false),
            CloneOutcome::Fatal(index, _) => (*index, false),
        };
        assert(job_number(all[k as int]) == index);
        if index >= n {
            return None;
        }
        if seen[index] {
            let ghost j = choose|j: int| 0 <= j < k && job_number(#[trigger] all[j]) == index;
            assert(job_number(all[j]) == job_number(all[k as int]));
            return None;
        }
        let ghost old_seen = seen@;
        let ghost old_flags = flags@;
        seen.set(index, true);
        if kept {
            flags.set(index, true);
        }
        assert forall|m: int| 0 <= m < n implies (#[trigger] seen@[m] == exists|j: int|
            0 <= j < k + 1 && job_number(#[trigger] all[j]) == m) by {
            if m == index {
                assert(job_number(all[k as int]) == m);
            } else {
                assert(seen@[m] == old_seen[m]);
                if exists|j: int| 0 <= j < k + 1 && job_number(#[trigger] all[j]) == m {
                    let j = choose|j: int| 0 <= j < k + 1 && job_number(#[trigger] all[j]) == m;
                    assert(0 <= j < k && job_number(all[j]) == m);
                }
            }
        }
        assert forall|m: int| 0 <= m < n implies (#[trigger] flags@[m] == exists|j: int|
            0 <= j < k + 1 && #[trigger] all[j] == OutcomeView::Retained(m)) by {
            if m == index && kept {
                assert(all[k as int] == OutcomeView::Retained(m));
            } else {
                assert(flags@[m] == old_flags[m]);
                if exists|j: int| 0 <= j < k + 1 && #[trigger] all[j] == OutcomeView::Retained(m) {
                    let j = choose|j: int|
                        0 <= j < k + 1 && #[trigger] all[j] == OutcomeView::Retained(m);
                    assert(0 <= j < k && all[j] == OutcomeView::Retained(m));
                }
            }
        }
    }
    assert(flags@ =~= retained_flags(all, n as nat)) by {
        assert forall|m: int| 0 <= m < n implies flags@[m] == all.contains(
            OutcomeView::Retained(m),
        ) by {
            if all.contains(OutcomeView::Retained(m)) {
                let j = choose|j: int| 0 <= j < all.len() && all[j] == OutcomeView::Retained(m);
                assert(0 <= j < n && all[j] == OutcomeView::Retained(m));
            }
        }
    }
    Some(flags)
}

/// The candidates whose flag is set; the paths of the others are for Git.
pub open spec fn flagged_from(
    candidates: Seq<CandidateView>,
    flags: Seq<bool>,
    k: nat,
    heaps: Heaps,
) -> Heaps
    decreases candidates.len() - k,
{
    if k >= candidates.len() {
        heaps
    } else {
        flagged_from(
            candidates,
            flags,
            k + 1,
            if k < flags.len() && flags[k as int] {
                heaps.kept(candidates[k as int])
            } else {
                heaps.for_git(candidates[k as int].path)
            },
        )
    }
}

/// The heaps once the candidates without a clone are Git's.
pub open spec fn retained(heaps: Heaps, flags: Seq<bool>) -> Heaps {
    flagged_from(
        heaps.candidates,
        flags,
        0,
        Heaps { git_paths: heaps.git_paths, candidates: Seq::empty() },
    )
}

fn keep_retained(heaps: Sorted, flags: &Vec<bool>) -> (r: Sorted)
    ensures
        r@ == retained(heaps@, flags@),
{
    let candidates = heaps.candidates;
    let ghost all = candidate_views(candidates@);
    let ghost goal = retained(heaps@, flags@);
    let mut out = Sorted::new(heaps.git_paths);
    let n: usize = candidates.len();
    assert(all.len() == n);
    for k in 0..n
        invariant
            n == candidates@.len(),
            n == all.len(),
            all == candidate_views(candidates@),
            goal == flagged_from(all, flags@, k as nat, out@),
    {
        assert(all[k as int] == candidates@[k as int]@);
        if k < flags.len() && flags[k] {
            out.push_candidate(copy_candidate(&candidates[k]));
        } else {
            out.push_path(copy(candidates[k].path.as_slice()));
        }
    }
    out
}

/// A failure to fill the worktree.
pub open spec fn unfilled(message: Seq<char>, json: bool) -> ErrorView {
    problem("materialization_failed"@, message, json)
}

fn unfilled_error(message: String, json: bool) -> (r: RamizError)
    ensures
        r@ == unfilled(message@, json),
{
    RamizError::new("materialization_failed", message, json)
}

/// Clones the candidates; those without a clone that stays are Git's.
#[verifier::opaque]
pub open spec fn clone_candidates_at(
    l: Seq<Event>,
    i: int,
    heaps: Heaps,
    json: bool,
    t: TransactionView,
) -> (Result<Heaps, ErrorView>, int) {
    let (umask, i) = umask_at(l, i);
    let (round, i) = clone_all_at(l, i, jobs(heaps.candidates), umask);
    if round.panicked {
        let (error, i) = fail_at(
            l,
            i,
            unfilled("clean materialization worker panicked"@, json),
            t,
        );
        (Err(error), i)
    } else {
        let (stop, i) = check_cancelled_at(l, i, json, t);
        match stop {
            Some(error) => (Err(error), i),
            None => match first_fatal(round.outcomes) {
                Some((_, message)) => {
                    let (error, i) = fail_at(l, i, unfilled(message, json), t);
                    (Err(error), i)
                },
                None => if !complete(round.outcomes, heaps.candidates.len() as int) {
                    let (error, i) = fail_at(
                        l,
                        i,
                        unfilled(
                            "clean materialization workers returned incomplete results"@,
                            json,
                        ),
                        t,
                    );
                    (Err(error), i)
                } else {
                    (
                        Ok(
                            retained(
                                heaps,
                                retained_flags(round.outcomes, heaps.candidates.len()),
                            ),
                        ),
                        i,
                    )
                },
            },
        }
    }
}

fn clone_candidates<H: Host>(
    s: &mut Session<H>,
    heaps: Sorted,
    json: bool,
    t: &mut Transaction,
) -> (r:
    Result<Sorted, RamizError>)
    ensures
        extends(final(s).log(), old(s).log()),
        forall|l: Seq<Event>|
            extends(l, final(s).log()) ==> #[trigger] clone_candidates_at(
                l,
                old(s).log().len() as int,
                heaps@,
                json,
                old(t)@,
            ) == (ended(r), final(s).log().len() as int),
        r is Ok ==> *final(t) == *old(t),
        r is Err ==> final(t)@ == (TransactionView { rollback_enabled: false, ..old(t)@ }),
{
    proof {
        reveal(clone_candidates_at);
    }
    let umask = s.umask();
    let list = job_list(&heaps.candidates);
    let round = s.clone_all(&list, umask);
    if round.panicked {
        let error = unfilled_error("clean materialization worker panicked".to_owned(), json);
        return Err(fail(s, error, t));
    }
    match check_cancelled(s, json, t) {
        Ok(_) => {},
        Err(error) => {
            return Err(error);
        },
    }
    match fatal_message(&round.outcomes) {
        Some(message) => {
            return Err(fail(s, unfilled_error(message, json), t));
        },
        None => {},
    }
    assert(heaps@.candidates.len() == heaps.candidates@.len());
    match retained_jobs(&round.outcomes, heaps.candidates.len()) {
        None => {
            let error = unfilled_error(
                "clean materialization workers returned incomplete results".to_owned(),
                json,
            );
            Err(fail(s, error, t))
        },
        Some(flags) => Ok(keep_retained(heaps, &flags)),
    }
}

// ---------------------------------------------------------------------------
// Checking clones
// ---------------------------------------------------------------------------

/// How many clones stay, and the paths for Git.
#[verifier::ext_equal]
pub struct Filled {
    pub cow_files: int,
    pub git_paths: Seq<Seq<u8>>,
}

/// The clones from number `k` on: one whose hash is the committed one stays,
/// any other is removed and left to Git.
pub open spec fn settle_from(
    l: Seq<Event>,
    i: int,
    clones: Seq<CandidateView>,
    hashes: Seq<Seq<char>>,
    k: nat,
    done: Filled,
) -> (Filled, int)
    decreases clones.len() - k,
{
    if k >= clones.len() || k >= hashes.len() {
        (done, i)
    } else if hashes[k as int] == clones[k as int].oid {
        settle_from(
            l,
            i,
            clones,
            hashes,
            k + 1,
            Filled { cow_files: done.cow_files + 1, ..done },
        )
    } else {
        let (_, i) = remove_file_at(l, i, clones[k as int].target);
        settle_from(
            l,
            i,
            clones,
            hashes,
            k + 1,
            Filled { git_paths: done.git_paths.push(clones[k as int].path), ..done },
        )
    }
}

/// The clones that stay, and the paths for Git.
pub open spec fn settle_at(l: Seq<Event>, i: int, heaps: Heaps, hashes: Seq<Seq<char>>) -> (
    Filled,
    int,
) {
    settle_from(
        l,
        i,
        heaps.candidates,
        hashes,
        0,
        Filled { cow_files: 0, git_paths: heaps.git_paths },
    )
}

fn settle<H: Host>(s: &mut Session<H>, heaps: Sorted, hashes: &Vec<String>) -> (r: (
    usize,
    Vec<Vec<u8>>,
))
    ensures
        extends(final(s).log(), old(s).log()),
        forall|l: Seq<Event>|
            extends(l, final(s).log()) ==> #[trigger] settle_at(
                l,
                old(s).log().len() as int,
                heaps@,
                text_views(hashes@),
            ) == (
                (Filled { cow_files: r.0 as int, git_paths: views(r.1@) }),
                final(s).log().len() as int,
            ),
{
    let clones = heaps.candidates;
    let mut git_paths = heaps.git_paths;
    let mut cow_files: usize = 0;
    let ghost from = s.log().len() as int;
    let ghost start = heaps@;
    let ghost all = candidate_views(clones@);
    let ghost seen = text_views(hashes@);
    let n: usize = if clones.len() < hashes.len() {
        clones.len()
    } else {
        hashes.len()
    };
    assert(all.len() == clones@.len());
    assert(seen.len() == hashes@.len());
    for k in 0..n
        invariant
            n <= clones@.len(),
            n <= hashes@.len(),
            n == clones@.len() || n == hashes@.len(),
            all == candidate_views(clones@),
            seen == text_views(hashes@),
            all.len() == clones@.len(),
            seen.len() == hashes@.len(),
            all == start.candidates,
            cow_files <= k,
            from == old(s).log().len(),
            extends(s.log(), old(s).log()),
            forall|l: Seq<Event>|
                extends(l, s.log()) ==> #[trigger] settle_at(l, from, start, seen) == settle_from(
                    l,
                    s.log().len() as int,
                    all,
                    seen,
                    k as nat,
                    (Filled { cow_files: cow_files as int, git_paths: views(git_paths@) }),
                ),
    {
        let clone = &clones[k];
        assert(all[k as int] == clone@);
        assert(seen[k as int] == hashes@[k as int]@);
        if same(hashes[k].as_str(), clone.oid.as_str()) {
            cow_files = cow_files + 1;
        } else {
            let _ = s.remove_file(clone.target.as_slice());
            let ghost before = views(git_paths@);
            git_paths.push(copy(clone.path.as_slice()));
            assert(views(git_paths@) =~= before.push(clone.path@));
        }
    }
    (cow_files, git_paths)
}

/// The paths of the clones.
pub open spec fn targets(candidates: Seq<CandidateView>) -> Seq<Seq<u8>> {
    candidates.map_values(|c: CandidateView| c.target)
}

fn target_paths(candidates: &Vec<CleanCandidate>) -> (r: Vec<Vec<u8>>)
    ensures
        views(r@) == targets(candidate_views(candidates@)),
{
    let mut out: Vec<Vec<u8>> = Vec::new();
    for k in 0..candidates.len()
        invariant
            out@.len() == k,
            forall|j: int| 0 <= j < k ==> (#[trigger] out@[j])@ == candidates@[j].target@,
    {
        out.push(copy(candidates[k].target.as_slice()));
    }
    assert(views(out@) =~= targets(candidate_views(candidates@)));
    out
}

// ---------------------------------------------------------------------------
// All together
// ---------------------------------------------------------------------------

/// The paths of all entries.
pub open spec fn entry_paths(entries: Seq<EntryView>) -> Seq<Seq<u8>> {
    entries.map_values(|e: EntryView| e.path)
}

fn all_paths(entries: &Vec<IndexEntry>) -> (r: Vec<Vec<u8>>)
    ensures
        views(r@) == entry_paths(entry_views(entries@)),
{
    let mut out: Vec<Vec<u8>> = Vec::new();
    for k in 0..entries.len()
        invariant
            out@.len() == k,
            forall|j: int| 0 <= j < k ==> (#[trigger] out@[j])@ == entries@[j].path@,
    {
        out.push(copy(entries[k].path.as_slice()));
    }
    assert(views(out@) =~= entry_paths(entry_views(entries@)));
    out
}

/// Finds the candidates that the donor has as they were committed: those that
/// no checkout would change and whose hash is the committed one.
#[verifier::opaque]
pub open spec fn proven_at(
    l: Seq<Event>,
    i: int,
    entries: Seq<EntryView>,
    donor: Seq<u8>,
    destination: Seq<u8>,
    json: bool,
    t: TransactionView,
) -> (Result<Heaps, ErrorView>, int) {
    let (heaps, i) = sort_entries_at(l, i, entries, donor, destination, json, t);
    match heaps {
        Err(error) => (Err(error), i),
        Ok(heaps) => {
            let (stop, i) = check_cancelled_at(l, i, json, t);
            match stop {
                Some(error) => (Err(error), i),
                None => {
                    let (flags, i) = transformed_paths_at(
                        l,
                        i,
                        destination,
                        tracked_paths(heaps.candidates),
                    );
                    match flags {
                        Err(failure) => {
                            let (error, i) = fail_at(
                                l,
                                i,
                                git_problem("attribute_lookup"@, failure, json),
                                t,
                            );
                            (Err(error), i)
                        },
                        Ok(flags) => {
                            let heaps = without_transformed(heaps, flags);
                            let (stop, i) = check_cancelled_at(l, i, json, t);
                            match stop {
                                Some(error) => (Err(error), i),
                                None => {
                                    let (hashes, i) = hash_clean_files_at(
                                        l,
                                        i,
                                        destination,
                                        sources(heaps.candidates),
                                        "donor_verification"@,
                                        json,
                                        t,
                                    );
                                    match hashes {
                                        Err(error) => (Err(error), i),
                                        Ok(hashes) => (Ok(unchanged(heaps, hashes)), i),
                                    }
                                },
                            }
                        },
                    }
                },
            }
        },
    }
}

fn prove<H: Host>(
    s: &mut Session<H>,
    entries: &Vec<IndexEntry>,
    donor: &[u8],
    destination: &[u8],
    json: bool,
    t: &mut Transaction,
) -> (r: Result<Sorted, RamizError>)
    ensures
        extends(final(s).log(), old(s).log()),
        forall|l: Seq<Event>|
            extends(l, final(s).log()) ==> #[trigger] proven_at(
                l,
                old(s).log().len() as int,
                entry_views(entries@),
                donor@,
                destination@,
                json,
                old(t)@,
            ) == (ended(r), final(s).log().len() as int),
        r is Ok ==> *final(t) == *old(t),
        r is Err ==> final(t)@ == (TransactionView { rollback_enabled: false, ..old(t)@ }),
{
    proof {
        reveal(proven_at);
    }
    let heaps = match sort_entries(s, entries, donor, destination, json, t) {
        Ok(heaps) => heaps,
        Err(error) => {
            return Err(error);
        },
    };
    match check_cancelled(s, json, t) {
        Ok(_) => {},
        Err(error) => {
            return Err(error);
        },
    }
    let paths = candidate_paths(&heaps.candidates);
    let flags = match transformed_paths(s, destination, &paths) {
        Ok(flags) => flags,
        Err(failure) => {
            return Err(fail(s, git_error("attribute_lookup", failure, json), t));
        },
    };
    let heaps = drop_transformed(heaps, &flags);
    match check_cancelled(s, json, t) {
        Ok(_) => {},
        Err(error) => {
            return Err(error);
        },
    }
    let paths = source_paths(&heaps.candidates);
    let hashes = match hash_clean_files(s, destination, &paths, "donor_verification", json, t) {
        Ok(hashes) => hashes,
        Err(error) => {
            return Err(error);
        },
    };
    Ok(keep_unchanged(heaps, &hashes))
}

/// Fills a clean worktree with clones. The result says how many stay, and
/// which paths are for Git.
#[verifier::opaque]
pub open spec fn materialize_clean_files_at(
    l: Seq<Event>,
    i: int,
    entries: Seq<EntryView>,
    donor: Option<Seq<u8>>,
    destination: Seq<u8>,
    backend: Option<Backend>,
    json: bool,
    t: TransactionView,
) -> (Result<Filled, ErrorView>, int) {
    if donor is None || backend is None {
        (Ok(Filled { cow_files: 0, git_paths: entry_paths(entries) }), i)
    } else {
        let (heaps, i) = proven_at(l, i, entries, donor->0, destination, json, t);
        match heaps {
            Err(error) => (Err(error), i),
            Ok(heaps) => {
                let (heaps, i) = clone_candidates_at(l, i, heaps, json, t);
                match heaps {
                    Err(error) => (Err(error), i),
                    Ok(heaps) => {
                        let (hashes, i) = hash_clean_files_at(
                            l,
                            i,
                            destination,
                            targets(heaps.candidates),
                            "clone_verification"@,
                            json,
                            t,
                        );
                        match hashes {
                            Err(error) => (Err(error), i),
                            Ok(hashes) => {
                                let (filled, i) = settle_at(l, i, heaps, hashes);
                                (Ok(filled), i)
                            },
                        }
                    },
                }
            },
        }
    }
}

/// The view of a filled worktree, or of the failure.
pub open spec fn filled(r: Result<(usize, Vec<Vec<u8>>), RamizError>) -> Result<Filled, ErrorView> {
    match r {
        Ok((cow_files, git_paths)) => Ok(
            Filled { cow_files: cow_files as int, git_paths: views(git_paths@) },
        ),
        Err(error) => Err(error@),
    }
}

/// Fills the clean worktree at `destination` with clones of the donor's files.
pub fn materialize_clean_files<H: Host>(
    s: &mut Session<H>,
    entries: &Vec<IndexEntry>,
    donor: &Option<Vec<u8>>,
    destination: &[u8],
    backend: Option<Backend>,
    json: bool,
    t: &mut Transaction,
) -> (r: Result<(usize, Vec<Vec<u8>>), RamizError>)
    ensures
        extends(final(s).log(), old(s).log()),
        forall|l: Seq<Event>|
            extends(l, final(s).log()) ==> #[trigger] materialize_clean_files_at(
                l,
                old(s).log().len() as int,
                entry_views(entries@),
                crate::host::bytes_if(*donor),
                destination@,
                backend,
                json,
                old(t)@,
            ) == (filled(r), final(s).log().len() as int),
        r is Ok ==> *final(t) == *old(t),
        r is Err ==> final(t)@ == (TransactionView { rollback_enabled: false, ..old(t)@ }),
{
    proof {
        reveal(materialize_clean_files_at);
    }
    let donor: &[u8] = match (donor, backend) {
        (Some(donor), Some(_)) => donor.as_slice(),
        _ => {
            return Ok((0, all_paths(entries)));
        },
    };
    let heaps = match prove(s, entries, donor, destination, json, t) {
        Ok(heaps) => heaps,
        Err(error) => {
            return Err(error);
        },
    };
    let heaps = match clone_candidates(s, heaps, json, t) {
        Ok(heaps) => heaps,
        Err(error) => {
            return Err(error);
        },
    };
    let paths = target_paths(&heaps.candidates);
    let hashes = match hash_clean_files(s, destination, &paths, "clone_verification", json, t) {
        Ok(hashes) => hashes,
        Err(error) => {
            return Err(error);
        },
    };
    Ok(settle(s, heaps, &hashes))
}

} // verus!
