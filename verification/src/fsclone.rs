//! Copy-on-write clones of files.
use crate::host::{
    canonicalize_at, clock_at, clone_into_at, create_directories_at, is_directory_at,
    process_id_at, remove_file_at, set_mode_at, strip_attributes_at, touch_at, write_new_at,
    CloneFault, CloneFaultView, CloneJob, CloneOutcome, Event, Host, JobView, OutcomeView, Session,
    WriteFault, WriteFaultView,
};
use crate::outside::{lossy, lossy_text};
use crate::path::{join, joined, lemma_parent_shorter, parent, parent_of};
use crate::text::{
    copy, decimal, decimal_text, join_text, joined_text, text2, text3, text4, text5, text_views,
    utf8, utf8_of,
};
use crate::update::io::extends;
use crate::update::model::IoErrorKind;
use vstd::prelude::*;

verus! {

/// A copy-on-write mechanism.
#[derive(Clone, Copy, Debug, PartialEq, Eq, Structural)]
pub enum Backend {
    Apfs,
    LinuxReflink,
}

impl Backend {
    /// The name of the mechanism.
    pub open spec fn label(self) -> Seq<char> {
        match self {
            Backend::Apfs => "apfs"@,
            Backend::LinuxReflink => "linux-reflink"@,
        }
    }

    /// The name of the mechanism.
    pub fn as_str(self) -> (r: &'static str)
        ensures
            r@ == self.label(),
    {
        match self {
            Backend::Apfs => "apfs",
            Backend::LinuxReflink => "linux-reflink",
        }
    }
}

/// The view of a result with a message.
pub open spec fn worded<T: View>(r: Result<T, String>) -> Result<T::V, Seq<char>> {
    match r {
        Ok(value) => Ok(value@),
        Err(message) => Err(message@),
    }
}

/// The view of a mechanism, or of why there is none.
pub open spec fn backend_found(r: Result<Backend, String>) -> Result<Backend, Seq<char>> {
    match r {
        Ok(backend) => Ok(backend),
        Err(message) => Err(message@),
    }
}

// ---------------------------------------------------------------------------
// Directories
// ---------------------------------------------------------------------------

/// The first directory at `candidate` or above it.
pub open spec fn existing_from(l: Seq<Event>, i: int, path: Seq<u8>, candidate: Seq<u8>) -> (
    Result<Seq<u8>, Seq<char>>,
    int,
)
    decreases candidate.len(),
{
    let (r, i) = canonicalize_at(l, i, candidate);
    match r {
        Ok(found) => {
            let (directory, i) = is_directory_at(l, i, found);
            if directory {
                (Ok(found), i)
            } else {
                (Err(lossy_text(candidate) + " is not a directory"@), i)
            }
        },
        Err(_) => match parent_of(candidate) {
            None => (Err("no existing parent for "@ + lossy_text(path)), i),
            Some(above) => {
                proof {
                    lemma_parent_shorter(candidate);
                }
                existing_from(l, i, path, above)
            },
        },
    }
}

/// The directory at `path`, or the nearest one above it that exists.
pub open spec fn existing_directory_at(l: Seq<Event>, i: int, path: Seq<u8>) -> (
    Result<Seq<u8>, Seq<char>>,
    int,
) {
    existing_from(l, i, path, path)
}

/// The directory at `path`, or the nearest one above it that exists.
pub fn existing_directory<H: Host>(s: &mut Session<H>, path: &[u8]) -> (r: Result<Vec<u8>, String>)
    ensures
        extends(final(s).log(), old(s).log()),
        forall|l: Seq<Event>|
            extends(l, final(s).log()) ==> #[trigger] existing_directory_at(
                l,
                old(s).log().len() as int,
                path@,
            ) == (worded(r), final(s).log().len() as int),
{
    let mut candidate = copy(path);
    let ghost from = s.log().len() as int;
    loop
        invariant
            from == old(s).log().len(),
            extends(s.log(), old(s).log()),
            forall|l: Seq<Event>|
                extends(l, s.log()) ==> #[trigger] existing_directory_at(l, from, path@)
                    == existing_from(l, s.log().len() as int, path@, candidate@),
        decreases candidate@.len(),
    {
        match s.canonicalize(candidate.as_slice()) {
            Ok(found) => {
                if s.is_directory(found.as_slice()) {
                    return Ok(found);
                }
                return Err(
                    text2(lossy(candidate.as_slice()).as_str(), " is not a directory"),
                );
            },
            Err(_) => match parent(candidate.as_slice()) {
                None => {
                    return Err(text2("no existing parent for ", lossy(path).as_str()));
                },
                Some(above) => {
                    proof {
                        lemma_parent_shorter(candidate@);
                    }
                    candidate = above;
                },
            },
        }
    }
}

// ---------------------------------------------------------------------------
// Clones
// ---------------------------------------------------------------------------

/// A failed clone in words.
pub open spec fn clone_message(fault: CloneFaultView, source: Seq<u8>, target: Seq<u8>) -> Seq<
    char,
> {
    match fault {
        CloneFaultView::Open(e) => "open "@ + lossy_text(source) + ": "@ + e,
        CloneFaultView::Create(e) => "create "@ + lossy_text(target) + ": "@ + e,
        CloneFaultView::Reflink(e) => "FICLONE "@ + between(source, target) + ": "@ + e,
        CloneFaultView::Clonefile(e) => "clonefile "@ + between(source, target) + ": "@ + e,
        CloneFaultView::SourceNul => "source path contains NUL"@,
        CloneFaultView::TargetNul => "target path contains NUL"@,
        CloneFaultView::Unsupported => "copy-on-write cloning is unsupported on this platform"@,
    }
}

/// From one path to another, in words.
pub open spec fn between(source: Seq<u8>, target: Seq<u8>) -> Seq<char> {
    lossy_text(source) + " -> "@ + lossy_text(target)
}

fn clone_words(fault: CloneFault, source: &[u8], target: &[u8]) -> (r: String)
    ensures
        r@ == clone_message(fault@, source@, target@),
{
    let shown = text3(lossy(source).as_str(), " -> ", lossy(target).as_str());
    match fault {
        CloneFault::Open(e) => text4("open ", lossy(source).as_str(), ": ", e.as_str()),
        CloneFault::Create(e) => text4("create ", lossy(target).as_str(), ": ", e.as_str()),
        CloneFault::Reflink(e) => text4("FICLONE ", shown.as_str(), ": ", e.as_str()),
        CloneFault::Clonefile(e) => text4("clonefile ", shown.as_str(), ": ", e.as_str()),
        CloneFault::SourceNul => "source path contains NUL".to_owned(),
        CloneFault::TargetNul => "target path contains NUL".to_owned(),
        CloneFault::Unsupported => "copy-on-write cloning is unsupported on this platform".to_owned(),
    }
}

/// Clones a file; a refused reflink leaves no target behind.
pub open spec fn clone_file_at(l: Seq<Event>, i: int, source: Seq<u8>, target: Seq<u8>) -> (
    Result<Backend, Seq<char>>,
    int,
) {
    let (r, i) = clone_into_at(l, i, source, target);
    match r {
        Ok(backend) => (Ok(backend), i),
        Err(fault) => {
            let message = clone_message(fault, source, target);
            if fault is Reflink {
                let (_, i) = remove_file_at(l, i, target);
                (Err(message), i)
            } else {
                (Err(message), i)
            }
        },
    }
}

/// Makes `target` a clone of `source`.
pub fn clone_file<H: Host>(s: &mut Session<H>, source: &[u8], target: &[u8]) -> (r: Result<
    Backend,
    String,
>)
    ensures
        extends(final(s).log(), old(s).log()),
        forall|l: Seq<Event>|
            extends(l, final(s).log()) ==> #[trigger] clone_file_at(
                l,
                old(s).log().len() as int,
                source@,
                target@,
            ) == (backend_found(r), final(s).log().len() as int),
{
    match s.clone_into(source, target) {
        Ok(backend) => Ok(backend),
        Err(fault) => {
            match &fault {
                CloneFault::Reflink(_) => {
                    let _ = s.remove_file(target);
                },
                _ => {},
            }
            Err(clone_words(fault, source, target))
        },
    }
}

// ---------------------------------------------------------------------------
// Probing
// ---------------------------------------------------------------------------

/// The path of a file that a probe makes.
pub open spec fn probe_file(
    directory: Seq<u8>,
    process: u32,
    time: u128,
    ending: Seq<char>,
) -> Seq<u8> {
    joined(
        directory,
        utf8(
            ".ramiz-probe-"@ + decimal(process as nat) + "-"@ + decimal(time as nat) + ending,
        ),
    )
}

fn probe_path(directory: &[u8], process: u32, time: u128, ending: &str) -> (r: Vec<u8>)
    ensures
        r@ == probe_file(directory@, process, time, ending@),
{
    let name = text5(
        ".ramiz-probe-",
        decimal_text(process as u128).as_str(),
        "-",
        decimal_text(time).as_str(),
        ending,
    );
    join(directory, utf8_of(name.as_str()))
}

/// Writes a small file and clones it.
pub open spec fn try_clone_at(
    l: Seq<Event>,
    i: int,
    directory: Seq<u8>,
    source: Seq<u8>,
    target: Seq<u8>,
) -> (Result<Backend, Seq<char>>, int) {
    let (written, i) = write_new_at(l, i, source, utf8("ramiz-cow-probe"@));
    match written {
        Some(WriteFaultView::Create(e)) => (
            Err("create probe in "@ + lossy_text(directory) + ": "@ + e),
            i,
        ),
        Some(WriteFaultView::Write(e)) => (Err("write probe: "@ + e), i),
        Some(WriteFaultView::Sync(e)) => (Err("sync probe: "@ + e), i),
        None => clone_file_at(l, i, source, target),
    }
}

fn try_clone<H: Host>(s: &mut Session<H>, directory: &[u8], source: &[u8], target: &[u8]) -> (r:
    Result<Backend, String>)
    ensures
        extends(final(s).log(), old(s).log()),
        forall|l: Seq<Event>|
            extends(l, final(s).log()) ==> #[trigger] try_clone_at(
                l,
                old(s).log().len() as int,
                directory@,
                source@,
                target@,
            ) == (backend_found(r), final(s).log().len() as int),
{
    match s.write_new(source, utf8_of("ramiz-cow-probe")) {
        Err(WriteFault::Create(e)) => Err(
            text4("create probe in ", lossy(directory).as_str(), ": ", e.as_str()),
        ),
        Err(WriteFault::Write(e)) => Err(text2("write probe: ", e.as_str())),
        Err(WriteFault::Sync(e)) => Err(text2("sync probe: ", e.as_str())),
        Ok(_) => clone_file(s, source, target),
    }
}

/// Removes a file; that there is none is no problem.
pub open spec fn discard_at(l: Seq<Event>, i: int, path: Seq<u8>, problems: Seq<Seq<char>>) -> (
    Seq<Seq<char>>,
    int,
) {
    let (r, i) = remove_file_at(l, i, path);
    (
        match r {
            Some(error) => if error.kind == IoErrorKind::NotFound {
                problems
            } else {
                problems.push("remove "@ + lossy_text(path) + ": "@ + error.message)
            },
            None => problems,
        },
        i,
    )
}

fn discard<H: Host>(s: &mut Session<H>, path: &[u8], problems: &mut Vec<String>)
    ensures
        extends(final(s).log(), old(s).log()),
        forall|l: Seq<Event>|
            extends(l, final(s).log()) ==> #[trigger] discard_at(
                l,
                old(s).log().len() as int,
                path@,
                text_views(old(problems)@),
            ) == (text_views(final(problems)@), final(s).log().len() as int),
{
    match s.remove_file(path) {
        Ok(_) => {},
        Err(error) => {
            if error.kind != IoErrorKind::NotFound {
                let ghost before = text_views(problems@);
                let line = text4("remove ", lossy(path).as_str(), ": ", error.message.as_str());
                let ghost shown = line@;
                problems.push(line);
                assert(text_views(problems@) =~= before.push(shown));
            }
        },
    }
}

/// Tries a clone in a directory, and cleans up.
#[verifier::opaque]
pub open spec fn probe_at(l: Seq<Event>, i: int, directory: Seq<u8>) -> (
    Result<Backend, Seq<char>>,
    int,
) {
    let (time, i) = clock_at(l, i);
    match time {
        Err(error) => (Err(error), i),
        Ok(time) => {
            let (process, i) = process_id_at(l, i);
            let source = probe_file(directory, process, time, ".source"@);
            let target = probe_file(directory, process, time, ".target"@);
            let (result, i) = try_clone_at(l, i, directory, source, target);
            let (problems, i) = discard_at(l, i, target, Seq::empty());
            let (problems, i) = discard_at(l, i, source, problems);
            (
                if problems.len() == 0 {
                    result
                } else {
                    Err("probe cleanup failed: "@ + joined_text(problems, "; "@))
                },
                i,
            )
        },
    }
}

/// The mechanism that clones files in `directory`, found by cloning one.
pub fn probe<H: Host>(s: &mut Session<H>, directory: &[u8]) -> (r: Result<Backend, String>)
    ensures
        extends(final(s).log(), old(s).log()),
        forall|l: Seq<Event>|
            extends(l, final(s).log()) ==> #[trigger] probe_at(
                l,
                old(s).log().len() as int,
                directory@,
            ) == (backend_found(r), final(s).log().len() as int),
{
    proof {
        reveal(probe_at);
    }
    let time = match s.clock() {
        Ok(time) => time,
        Err(error) => {
            return Err(error);
        },
    };
    let process = s.process_id();
    let source = probe_path(directory, process, time, ".source");
    let target = probe_path(directory, process, time, ".target");
    let result = try_clone(s, directory, source.as_slice(), target.as_slice());
    let mut problems: Vec<String> = Vec::new();
    assert(text_views(problems@) =~= Seq::<Seq<char>>::empty());
    discard(s, target.as_slice(), &mut problems);
    discard(s, source.as_slice(), &mut problems);
    assert(text_views(problems@).len() == problems@.len());
    if problems.len() == 0 {
        result
    } else {
        Err(text2("probe cleanup failed: ", join_text(&problems, "; ").as_str()))
    }
}

// ---------------------------------------------------------------------------
// Clones that stand for checked-out files
// ---------------------------------------------------------------------------

/// The mode that a checkout gives a file.
pub open spec fn checkout_mode(executable: bool, umask: u32) -> u32 {
    if executable {
        0o777u32 & !umask
    } else {
        0o666u32 & !umask
    }
}

/// Gives a clone what a checked-out file has: no attributes of the donor's,
/// its own mode, and the time of now.
pub open spec fn normalize_clean_file_at(
    l: Seq<Event>,
    i: int,
    path: Seq<u8>,
    executable: bool,
    umask: u32,
) -> (Option<Seq<char>>, int) {
    let (stripped, i) = strip_attributes_at(l, i, path);
    match stripped {
        Some(error) => (Some(error), i),
        None => {
            let (mode, i) = set_mode_at(l, i, path, checkout_mode(executable, umask));
            match mode {
                Some(error) => (
                    Some("normalize permissions on "@ + lossy_text(path) + ": "@ + error),
                    i,
                ),
                None => {
                    let (touched, i) = touch_at(l, i, path);
                    match touched {
                        Some(error) => (
                            Some("normalize timestamps on "@ + lossy_text(path) + ": "@ + error),
                            i,
                        ),
                        None => (None, i),
                    }
                },
            }
        },
    }
}

/// Gives the clone at `path` what a checked-out file has.
pub fn normalize_clean_file<H: Host>(
    s: &mut Session<H>,
    path: &[u8],
    executable: bool,
    umask: u32,
) -> (r: Result<(), String>)
    ensures
        extends(final(s).log(), old(s).log()),
        forall|l: Seq<Event>|
            extends(l, final(s).log()) ==> #[trigger] normalize_clean_file_at(
                l,
                old(s).log().len() as int,
                path@,
                executable,
                umask,
            ) == (crate::host::fault(r), final(s).log().len() as int),
{
    match s.strip_attributes(path) {
        Ok(_) => {},
        Err(error) => {
            return Err(error);
        },
    }
    let requested: u32 = if executable {
        0o777
    } else {
        0o666
    };
    match s.set_mode(path, requested & !umask) {
        Ok(_) => {},
        Err(error) => {
            return Err(
                text4("normalize permissions on ", lossy(path).as_str(), ": ", error.as_str()),
            );
        },
    }
    match s.touch(path) {
        Ok(_) => Ok(()),
        Err(error) => Err(
            text4("normalize timestamps on ", lossy(path).as_str(), ": ", error.as_str()),
        ),
    }
}

/// One file of a clean worktree: a clone of the donor's, or one that is left
/// to Git.
#[verifier::opaque]
pub open spec fn clone_job_at(l: Seq<Event>, i: int, index: int, job: JobView, umask: u32) -> (
    OutcomeView,
    int,
) {
    let (made, i) = match parent_of(job.target) {
        Some(above) => create_directories_at(l, i, above),
        None => (None, i),
    };
    match made {
        Some(error) => (
            OutcomeView::Fatal(
                index,
                "create "@ + lossy_text(parent_of(job.target)->0) + ": "@ + error,
            ),
            i,
        ),
        None => {
            let (cloned, i) = clone_file_at(l, i, job.source, job.target);
            let (kept, i) = match cloned {
                Ok(_) => {
                    let (problem, i) = normalize_clean_file_at(
                        l,
                        i,
                        job.target,
                        job.executable,
                        umask,
                    );
                    (problem is None, i)
                },
                Err(_) => (false, i),
            };
            if kept {
                (OutcomeView::Retained(index), i)
            } else {
                let (_, i) = remove_file_at(l, i, job.target);
                (OutcomeView::Checkout(index), i)
            }
        },
    }
}

/// Clones the file of job number `index`.
pub fn clone_job<H: Host>(s: &mut Session<H>, index: usize, job: &CloneJob, umask: u32) -> (r:
    CloneOutcome)
    ensures
        extends(final(s).log(), old(s).log()),
        forall|l: Seq<Event>|
            extends(l, final(s).log()) ==> #[trigger] clone_job_at(
                l,
                old(s).log().len() as int,
                index as int,
                job@,
                umask,
            ) == (r@, final(s).log().len() as int),
{
    proof {
        reveal(clone_job_at);
    }
    match parent(job.target.as_slice()) {
        Some(above) => match s.create_directories(above.as_slice()) {
            Ok(_) => {},
            Err(error) => {
                return CloneOutcome::Fatal(
                    index,
                    text4("create ", lossy(above.as_slice()).as_str(), ": ", error.as_str()),
                );
            },
        },
        None => {},
    }
    let kept: bool = match clone_file(s, job.source.as_slice(), job.target.as_slice()) {
        Ok(_) => normalize_clean_file(s, job.target.as_slice(), job.executable, umask).is_ok(),
        Err(_) => false,
    };
    if kept {
        CloneOutcome::Retained(index)
    } else {
        let _ = s.remove_file(job.target.as_slice());
        CloneOutcome::Checkout(index)
    }
}

} // verus!
