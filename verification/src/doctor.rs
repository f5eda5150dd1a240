//! Whether a place supports copy-on-write.
use crate::cli::DoctorArgs;
use crate::error::{problem, ErrorView, RamizError};
use crate::fsclone::{
    discard_at, existing_directory, existing_directory_at, existing_from, probe, probe_at,
    probe_file, try_clone_at, Backend,
};
use crate::host::{
    bytes_if, canonicalize_at, clock_at, current_directory_at, process_id_at, Event, Host, Session,
};
use crate::output::{base64_text, encoded, EncodedPath, EncodedView};
use crate::outside::lossy_text;
use crate::path::{joined, lemma_parent_shorter, parent_of};
use crate::text::{copy, decimal, text3, text4, utf8};
use crate::update::io::extends;
use crate::update::model::{text_option, IoErrorKind};
use vstd::prelude::*;

verus! {

/// What was found.
pub struct DoctorData {
    /// The directory that was probed.
    pub path: EncodedPath,
    pub available: bool,
    pub backend: Option<&'static str>,
    pub reason: Option<String>,
}

/// The model of [`DoctorData`].
#[verifier::ext_equal]
pub struct DoctorView {
    pub path: EncodedView,
    pub available: bool,
    pub backend: Option<Seq<char>>,
    pub reason: Option<Seq<char>>,
}

impl View for DoctorData {
    type V = DoctorView;

    open spec fn view(&self) -> DoctorView {
        DoctorView {
            path: self.path@,
            available: self.available,
            backend: match self.backend {
                Some(backend) => Some(backend@),
                None => None,
            },
            reason: text_option(self.reason),
        }
    }
}

/// The view of a result of the program.
pub open spec fn ended<T: View>(r: Result<T, RamizError>) -> Result<T::V, ErrorView> {
    match r {
        Ok(value) => Ok(value@),
        Err(error) => Err(error@),
    }
}

/// Probes the asked-for place, or the current directory.
pub open spec fn run_at(l: Seq<Event>, i: int, path: Option<Seq<u8>>, json: bool) -> (
    Result<DoctorView, ErrorView>,
    int,
) {
    let (cwd, i) = current_directory_at(l, i);
    match cwd {
        Err(error) => (Err(problem("current_directory"@, error, json)), i),
        Ok(cwd) => {
            let requested = match path {
                Some(path) => path,
                None => cwd,
            };
            let (directory, i) = existing_directory_at(l, i, requested);
            match directory {
                Err(error) => (Err(problem("invalid_probe_path"@, error, json)), i),
                Ok(directory) => {
                    let (found, i) = probe_at(l, i, directory);
                    (
                        Ok(
                            match found {
                                Ok(backend) => DoctorView {
                                    path: encoded(directory),
                                    available: true,
                                    backend: Some(backend.label()),
                                    reason: None,
                                },
                                Err(reason) => DoctorView {
                                    path: encoded(directory),
                                    available: false,
                                    backend: None,
                                    reason: Some(reason),
                                },
                            },
                        ),
                        i,
                    )
                },
            }
        },
    }
}

/// Probes the asked-for place, or the current directory.
pub fn run<H: Host>(s: &mut Session<H>, args: &DoctorArgs) -> (r: Result<DoctorData, RamizError>)
    ensures
        extends(final(s).log(), old(s).log()),
        forall|l: Seq<Event>|
            extends(l, final(s).log()) ==> #[trigger] run_at(
                l,
                old(s).log().len() as int,
                bytes_if(args.path),
                args.json,
            ) == (ended(r), final(s).log().len() as int),
{
    let cwd = match s.current_directory() {
        Ok(cwd) => cwd,
        Err(error) => {
            return Err(RamizError::new("current_directory", error, args.json));
        },
    };
    let requested = match &args.path {
        Some(path) => copy(path.as_slice()),
        None => cwd,
    };
    let directory = match existing_directory(s, requested.as_slice()) {
        Ok(directory) => directory,
        Err(error) => {
            return Err(RamizError::new("invalid_probe_path", error, args.json));
        },
    };
    let path = EncodedPath::new(directory.as_slice());
    match probe(s, directory.as_slice()) {
        Ok(backend) => Ok(
            DoctorData { path, available: true, backend: Some(backend.as_str()), reason: None },
        ),
        Err(reason) => Ok(
            DoctorData { path, available: false, backend: None, reason: Some(reason) },
        ),
    }
}

impl DoctorView {
    /// What was found, for a human reader.
    pub open spec fn text(self) -> Seq<char> {
        match self.backend {
            Some(backend) => self.path.display + ": copy-on-write available via "@ + backend,
            None => self.path.display + ": copy-on-write unavailable ("@ + (match self.reason {
                Some(reason) => reason,
                None => "unknown reason"@,
            }) + ")"@,
        }
    }
}

impl DoctorData {
    /// What was found, for a human reader.
    pub fn line(&self) -> (r: String)
        ensures
            r@ == self@.text(),
    {
        match self.backend {
            Some(backend) => text3(
                self.path.display.as_str(),
                ": copy-on-write available via ",
                backend,
            ),
            None => {
                let reason: &str = match &self.reason {
                    Some(reason) => reason.as_str(),
                    None => "unknown reason",
                };
                text4(
                    self.path.display.as_str(),
                    ": copy-on-write unavailable (",
                    reason,
                    ")",
                )
            },
        }
    }
}

// ---------------------------------------------------------------------------
// What the probe is about
// ---------------------------------------------------------------------------

/// The path that lies `k` parents above `path`.
pub open spec fn above(path: Seq<u8>, k: nat) -> Seq<u8>
    decreases k,
{
    if k == 0 {
        path
    } else {
        above(parent_of(path)->0, (k - 1) as nat)
    }
}

/// From `i` on the log shows that `path` and the `k` - 1 places above it are
/// not there, and that the next one is, as the directory `directory`.
pub open spec fn nearest_at(
    l: Seq<Event>,
    i: int,
    path: Seq<u8>,
    k: nat,
    directory: Seq<u8>,
) -> bool {
    &&& 0 <= i
    &&& i + k + 1 < l.len()
    &&& forall|n: nat| n < k ==> missed(l[i + n], #[trigger] above(path, n))
    &&& l[i + k] == Event::Canonicalize(above(path, k), Ok(directory))
    &&& l[i + k + 1] == Event::IsDirectory(directory, true)
}

/// `path` was looked for, and is not there.
pub open spec fn missed(event: Event, path: Seq<u8>) -> bool {
    match event {
        Event::Canonicalize(p, Err(_)) => p == path,
        _ => false,
    }
}

/// The files of a probe directly in `directory`: the one that is written and
/// the one that is cloned from it.
pub open spec fn probe_pair(source: Seq<u8>, target: Seq<u8>, directory: Seq<u8>) -> bool {
    exists|process: u32, time: u128|
        {
            let stem = ".ramiz-probe-"@ + #[trigger] decimal(process as nat) + "-"@
                + #[trigger] decimal(time as nat);
            &&& source == joined(directory, utf8(stem + ".source"@))
            &&& target == joined(directory, utf8(stem + ".target"@))
        }
}

/// What the event makes or removes are files of a probe in `directory`.
pub open spec fn probes(event: Event, directory: Seq<u8>) -> bool {
    match event {
        Event::Clock(_) => true,
        Event::ProcessId(_) => true,
        Event::WriteNew(path, bytes, _) => bytes == utf8("ramiz-cow-probe"@)
            && exists|target: Seq<u8>| #[trigger] probe_pair(path, target, directory),
        Event::CloneInto(source, target, _) => probe_pair(source, target, directory),
        Event::RemoveFile(path, _) => {
            ||| exists|target: Seq<u8>| #[trigger] probe_pair(path, target, directory)
            ||| exists|source: Seq<u8>| #[trigger] probe_pair(source, path, directory)
        },
        _ => false,
    }
}

/// The file at `path` was removed, or there was none.
pub open spec fn gone(event: Event, path: Seq<u8>) -> bool {
    match event {
        Event::RemoveFile(p, r) => p == path && match r {
            Some(error) => error.kind == IoErrorKind::NotFound,
            None => true,
        },
        _ => false,
    }
}

/// The last four events are those of a clone that was made and cleaned up: a
/// file was written, cloned by `backend`, and both were removed.
pub open spec fn cloned_and_gone(l: Seq<Event>, i: int, j: int, backend: Backend) -> bool {
    &&& i <= j - 4
    &&& exists|source: Seq<u8>, target: Seq<u8>|
        {
            &&& l[j - 4] == Event::WriteNew(source, utf8("ramiz-cow-probe"@), None)
            &&& l[j - 3] == Event::CloneInto(source, target, Ok(backend))
            &&& #[trigger] gone(l[j - 2], target)
            &&& #[trigger] gone(l[j - 1], source)
        }
}

/// What was found between `i` and `j` about `directory`: only files of a probe
/// in it were made and removed, it is the directory that is reported, and
/// copy-on-write is available exactly where a clone was made there and cleaned
/// up, by the mechanism that is named.
pub open spec fn probed(
    l: Seq<Event>,
    i: int,
    j: int,
    directory: Seq<u8>,
    found: DoctorView,
) -> bool {
    &&& found.path.display == lossy_text(directory)
    &&& found.path.bytes_base64 == base64_text(directory)
    &&& 0 <= i <= j <= l.len()
    &&& forall|k: int| i <= k < j ==> probes(#[trigger] l[k], directory)
    &&& found.available == (cloned_and_gone(l, i, j, Backend::Apfs) || cloned_and_gone(
        l,
        i,
        j,
        Backend::LinuxReflink,
    ))
    &&& cloned_and_gone(l, i, j, Backend::Apfs) ==> found.backend == Some("apfs"@)
    &&& cloned_and_gone(l, i, j, Backend::LinuxReflink) ==> found.backend == Some(
        "linux-reflink"@,
    )
    &&& found.available == (found.reason is None)
    &&& found.available == (found.backend is Some)
}

pub proof fn lemma_nearest(l: Seq<Event>, i: int, path: Seq<u8>, candidate: Seq<u8>) -> (k: nat)
    requires
        existing_from(l, i, path, candidate).0 is Ok,
        existing_from(l, i, path, candidate).1 != -1,
    ensures
        nearest_at(l, i, candidate, k, existing_from(l, i, path, candidate).0->Ok_0),
        existing_from(l, i, path, candidate).1 == i + k + 2,
    decreases candidate.len(),
{
    reveal_with_fuel(above, 2);
    let (r, a) = canonicalize_at(l, i, candidate);
    if r is Ok {
        0
    } else {
        let parent = parent_of(candidate)->0;
        lemma_parent_shorter(candidate);
        if a == -1 {
            lemma_lost_from(l, path, parent);
        }
        let n = lemma_nearest(l, a, path, parent);
        assert forall|m: nat| m < n + 1 implies missed(
            l[i + m],
            #[trigger] above(candidate, m),
        ) by {
            if m > 0 {
                assert(above(candidate, m) == above(parent, (m - 1) as nat));
            }
        }
        (n + 1) as nat
    }
}

proof fn lemma_lost_from(l: Seq<Event>, path: Seq<u8>, candidate: Seq<u8>)
    ensures
        existing_from(l, -1, path, candidate).1 == -1,
    decreases candidate.len(),
{
    if let Some(parent) = parent_of(candidate) {
        lemma_parent_shorter(candidate);
        lemma_lost_from(l, path, parent);
    }
}

/// The place that was asked for is the one that is probed: where it is a
/// directory, that one; where it is not there, the nearest directory above it;
/// the current directory only where none was asked for. Nothing is made
/// anywhere else, that directory is reported, and copy-on-write is said to be
/// available exactly where a clone was made in it and cleaned up.
pub proof fn law_doctor_probes_the_asked_place(
    l: Seq<Event>,
    i: int,
    path: Option<Seq<u8>>,
    json: bool,
)
    requires
        run_at(l, i, path, json).0 is Ok,
        run_at(l, i, path, json).1 != -1,
    ensures
        0 <= i < l.len(),
        exists|requested: Seq<u8>, k: nat, directory: Seq<u8>|
            {
                &&& match path {
                    Some(path) => requested == path,
                    None => l[i] == Event::CurrentDirectory(Ok(requested)),
                }
                &&& #[trigger] nearest_at(l, i + 1, requested, k, directory)
                &&& probed(
                    l,
                    i + 1 + k + 2,
                    run_at(l, i, path, json).1,
                    directory,
                    run_at(l, i, path, json).0->Ok_0,
                )
            },
{
    let (cwd, a) = current_directory_at(l, i);
    let cwd = cwd->Ok_0;
    let requested = if path is Some {
        path->0
    } else {
        cwd
    };
    let (directory, b) = existing_directory_at(l, a, requested);
    let directory = directory->Ok_0;
    let (found, j) = probe_at(l, b, directory);
    lemma_probed(l, b, directory);
    let k = lemma_nearest(l, a, requested, requested);
    assert(probed(l, b, j, directory, run_at(l, i, path, json).0->Ok_0));
}

/// A probe makes and removes files in its directory alone, and finds a
/// mechanism exactly where it cloned one there and cleaned up.
pub proof fn lemma_probed(l: Seq<Event>, i: int, directory: Seq<u8>)
    requires
        probe_at(l, i, directory).1 != -1,
    ensures
        ({
            let (found, j) = probe_at(l, i, directory);
            &&& 0 <= i <= j <= l.len()
            &&& forall|k: int| i <= k < j ==> probes(#[trigger] l[k], directory)
            &&& match found {
                Ok(backend) => cloned_and_gone(l, i, j, backend),
                Err(_) => !cloned_and_gone(l, i, j, Backend::Apfs) && !cloned_and_gone(
                    l,
                    i,
                    j,
                    Backend::LinuxReflink,
                ),
            }
        }),
{
    reveal(probe_at);
    let (found, j) = probe_at(l, i, directory);
    let (time, c) = clock_at(l, i);
    if time is Ok {
        let (process, d) = process_id_at(l, c);
        let stem = ".ramiz-probe-"@ + decimal(process as nat) + "-"@ + decimal(time->Ok_0 as nat);
        let source = probe_file(directory, process, time->Ok_0, ".source"@);
        let target = probe_file(directory, process, time->Ok_0, ".target"@);
        assert(source == joined(directory, utf8(stem + ".source"@)));
        assert(target == joined(directory, utf8(stem + ".target"@)));
        assert(probe_pair(source, target, directory));
        let (result, e) = try_clone_at(l, d, directory, source, target);
        let (problems, f) = discard_at(l, e, target, Seq::empty());
        let (problems, g) = discard_at(l, f, source, problems);
        assert(g == j);
        if problems.len() == 0 && result is Ok {
            assert(l[j - 3] == Event::CloneInto(source, target, Ok(result->Ok_0)));
            assert(l[j - 4] == Event::WriteNew(source, utf8("ramiz-cow-probe"@), None));
            assert(gone(l[j - 2], target));
            assert(gone(l[j - 1], source));
            assert(cloned_and_gone(l, i, j, result->Ok_0));
        }
    }
}

/// A probe of a place that leads to a directory is answered, whatever the probe
/// finds.
pub proof fn law_doctor_answers(
    l: Seq<Event>,
    i: int,
    path: Option<Seq<u8>>,
    json: bool,
    requested: Seq<u8>,
    k: nat,
    directory: Seq<u8>,
)
    requires
        0 <= i < l.len(),
        l[i] matches Event::CurrentDirectory(Ok(cwd)) && requested == match path {
            Some(path) => path,
            None => cwd,
        },
        nearest_at(l, i + 1, requested, k, directory),
        forall|n: nat| n < k ==> parent_of(#[trigger] above(requested, n)) is Some,
    ensures
        run_at(l, i, path, json).0 is Ok,
{
    lemma_nearest_found(l, i + 1, requested, requested, k, directory);
}

proof fn lemma_nearest_found(
    l: Seq<Event>,
    i: int,
    path: Seq<u8>,
    candidate: Seq<u8>,
    k: nat,
    directory: Seq<u8>,
)
    requires
        nearest_at(l, i, candidate, k, directory),
        forall|n: nat| n < k ==> parent_of(#[trigger] above(candidate, n)) is Some,
    ensures
        existing_from(l, i, path, candidate).0 == Ok::<Seq<u8>, Seq<char>>(directory),
    decreases k,
{
    reveal_with_fuel(above, 2);
    if k > 0 {
        assert(missed(l[i + 0nat], above(candidate, 0)));
        assert(parent_of(above(candidate, 0)) is Some);
        let parent = parent_of(candidate)->0;
        lemma_parent_shorter(candidate);
        assert forall|n: nat| n < k - 1 implies missed(l[i + 1 + n], #[trigger] above(parent, n))
            && parent_of(above(parent, n)) is Some by {
            assert(above(candidate, n + 1) == above(parent, n));
            assert(missed(l[i + (n + 1)], above(candidate, n + 1)));
        }
        lemma_nearest_found(l, i + 1, path, parent, (k - 1) as nat, directory);
    }
}

} // verus!
