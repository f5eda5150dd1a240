//! What making a worktree asks of the machine, and the record of it.
//!
//! A [`Host`] carries out single operations, and owes nothing: whatever it
//! answers, the functions that ask through a [`Session`] keep their contracts.
//! A session keeps a log, which grows by one event per operation: what was
//! asked and what was answered. `.._at` functions read a log back: at position
//! `i` stands the answer to exactly that question, and the position moves on;
//! where the log holds something else the position is lost and becomes -1.
use crate::fsclone::Backend;
use crate::text::views;
use crate::update::model::{IoError, IoErrorView};
use vstd::prelude::*;

verus! {

/// A run of Git.
pub struct GitCall {
    /// The directory that it runs in.
    pub cwd: Vec<u8>,
    pub args: Vec<Vec<u8>>,
    /// What it reads from its standard input.
    pub input: Option<Vec<u8>>,
    /// It takes no lock that it can do without.
    pub lockless: bool,
}

/// The model of a [`GitCall`].
#[verifier::ext_equal]
pub struct CallView {
    pub cwd: Seq<u8>,
    pub args: Seq<Seq<u8>>,
    pub input: Option<Seq<u8>>,
    pub lockless: bool,
}

/// The view of bytes that may be missing.
pub open spec fn bytes_if(o: Option<Vec<u8>>) -> Option<Seq<u8>> {
    match o {
        Some(bytes) => Some(bytes@),
        None => None,
    }
}

impl View for GitCall {
    type V = CallView;

    open spec fn view(&self) -> CallView {
        CallView {
            cwd: self.cwd@,
            args: views(self.args@),
            input: bytes_if(self.input),
            lockless: self.lockless,
        }
    }
}

/// What a run of Git left behind. A run that a signal ended has no code.
#[derive(Clone, Debug)]
pub struct GitOutput {
    pub code: Option<i32>,
    pub stdout: Vec<u8>,
    pub stderr: Vec<u8>,
}

/// The model of a [`GitOutput`].
#[verifier::ext_equal]
pub struct GitOutputView {
    pub code: Option<i32>,
    pub stdout: Seq<u8>,
    pub stderr: Seq<u8>,
}

impl View for GitOutput {
    type V = GitOutputView;

    open spec fn view(&self) -> GitOutputView {
        GitOutputView { code: self.code, stdout: self.stdout@, stderr: self.stderr@ }
    }
}

/// A time stamp of the file system.
#[derive(Clone, Copy, Debug, PartialEq, Eq, Structural)]
pub struct Moment {
    pub seconds: i64,
    pub nanos: i64,
}

/// What the file system knows of a file, a directory or a link.
#[derive(Clone, Copy, Debug, PartialEq, Eq, Structural)]
pub struct Metadata {
    pub dev: u64,
    pub ino: u64,
    pub mode: u32,
    pub size: u64,
    pub links: u64,
    pub accessed: Moment,
    pub modified: Moment,
    pub changed: Moment,
}

/// The bits of a mode that say what it is the mode of.
pub const KIND_BITS: u32 = 0o170000;

/// The kind of a directory.
pub const DIRECTORY: u32 = 0o040000;

/// The kind of a regular file.
pub const REGULAR: u32 = 0o100000;

/// The kind of a symbolic link.
pub const LINK: u32 = 0o120000;

impl Metadata {
    /// What it describes: [`DIRECTORY`], [`REGULAR`], [`LINK`] or another.
    pub open spec fn kind(self) -> u32 {
        self.mode & KIND_BITS
    }

    /// What it describes.
    pub fn kind_of(&self) -> (r: u32)
        ensures
            r == self.kind(),
    {
        self.mode & KIND_BITS
    }
}

/// Where writing a new file failed, and why.
pub enum WriteFault {
    Create(String),
    Write(String),
    Sync(String),
}

/// The model of a [`WriteFault`].
pub enum WriteFaultView {
    Create(Seq<char>),
    Write(Seq<char>),
    Sync(Seq<char>),
}

impl View for WriteFault {
    type V = WriteFaultView;

    open spec fn view(&self) -> WriteFaultView {
        match *self {
            WriteFault::Create(e) => WriteFaultView::Create(e@),
            WriteFault::Write(e) => WriteFaultView::Write(e@),
            WriteFault::Sync(e) => WriteFaultView::Sync(e@),
        }
    }
}

/// Where a copy-on-write clone failed, and why.
pub enum CloneFault {
    /// The source could not be opened.
    Open(String),
    /// The target could not be made.
    Create(String),
    /// Linux refused the reflink; the empty target is still there.
    Reflink(String),
    /// macOS refused the clone.
    Clonefile(String),
    /// The source path holds a zero byte.
    SourceNul,
    /// The target path holds a zero byte.
    TargetNul,
    /// The platform has no such clones.
    Unsupported,
}

/// The model of a [`CloneFault`].
pub enum CloneFaultView {
    Open(Seq<char>),
    Create(Seq<char>),
    Reflink(Seq<char>),
    Clonefile(Seq<char>),
    SourceNul,
    TargetNul,
    Unsupported,
}

impl View for CloneFault {
    type V = CloneFaultView;

    open spec fn view(&self) -> CloneFaultView {
        match *self {
            CloneFault::Open(e) => CloneFaultView::Open(e@),
            CloneFault::Create(e) => CloneFaultView::Create(e@),
            CloneFault::Reflink(e) => CloneFaultView::Reflink(e@),
            CloneFault::Clonefile(e) => CloneFaultView::Clonefile(e@),
            CloneFault::SourceNul => CloneFaultView::SourceNul,
            CloneFault::TargetNul => CloneFaultView::TargetNul,
            CloneFault::Unsupported => CloneFaultView::Unsupported,
        }
    }
}

/// Where a physical copy failed, and why.
pub enum CopyFault {
    /// The target could not be made.
    Create(String),
    /// The source could not be read, or the target not be written.
    Transfer(String),
}

/// The model of a [`CopyFault`].
pub enum CopyFaultView {
    Create(Seq<char>),
    Transfer(Seq<char>),
}

impl View for CopyFault {
    type V = CopyFaultView;

    open spec fn view(&self) -> CopyFaultView {
        match *self {
            CopyFault::Create(e) => CopyFaultView::Create(e@),
            CopyFault::Transfer(e) => CopyFaultView::Transfer(e@),
        }
    }
}

/// A file to clone.
pub struct CloneJob {
    pub source: Vec<u8>,
    pub target: Vec<u8>,
    pub executable: bool,
}

/// The model of a [`CloneJob`].
#[verifier::ext_equal]
pub struct JobView {
    pub source: Seq<u8>,
    pub target: Seq<u8>,
    pub executable: bool,
}

impl View for CloneJob {
    type V = JobView;

    open spec fn view(&self) -> JobView {
        JobView { source: self.source@, target: self.target@, executable: self.executable }
    }
}

/// The views of a list of jobs.
pub open spec fn job_views(v: Seq<CloneJob>) -> Seq<JobView> {
    v.map_values(|j: CloneJob| j@)
}

/// How a job ended: its number, and whether the clone stays, Git has to check
/// the file out, or nothing further can be done.
pub enum CloneOutcome {
    Retained(usize),
    Checkout(usize),
    Fatal(usize, String),
}

/// The model of a [`CloneOutcome`].
pub enum OutcomeView {
    Retained(int),
    Checkout(int),
    Fatal(int, Seq<char>),
}

impl View for CloneOutcome {
    type V = OutcomeView;

    open spec fn view(&self) -> OutcomeView {
        match *self {
            CloneOutcome::Retained(index) => OutcomeView::Retained(index as int),
            CloneOutcome::Checkout(index) => OutcomeView::Checkout(index as int),
            CloneOutcome::Fatal(index, message) => OutcomeView::Fatal(index as int, message@),
        }
    }
}

/// How the jobs of a round ended, in the order in which they did.
pub struct CloneRound {
    pub outcomes: Vec<CloneOutcome>,
    /// A worker came to an unforeseen end.
    pub panicked: bool,
}

/// The model of a [`CloneRound`].
#[verifier::ext_equal]
pub struct RoundView {
    pub outcomes: Seq<OutcomeView>,
    pub panicked: bool,
}

/// The views of a list of outcomes.
pub open spec fn outcome_views(v: Seq<CloneOutcome>) -> Seq<OutcomeView> {
    v.map_values(|o: CloneOutcome| o@)
}

impl View for CloneRound {
    type V = RoundView;

    open spec fn view(&self) -> RoundView {
        RoundView { outcomes: outcome_views(self.outcomes@), panicked: self.panicked }
    }
}

// ---------------------------------------------------------------------------
// Views of answers
// ---------------------------------------------------------------------------

/// The view of an answer that carries bytes.
pub open spec fn bytes_found(r: Result<Vec<u8>, String>) -> Result<Seq<u8>, Seq<char>> {
    match r {
        Ok(bytes) => Ok(bytes@),
        Err(error) => Err(error@),
    }
}

/// The view of an answer that carries names.
pub open spec fn names_found(r: Result<Vec<Vec<u8>>, String>) -> Result<Seq<Seq<u8>>, Seq<char>> {
    match r {
        Ok(names) => Ok(views(names@)),
        Err(error) => Err(error@),
    }
}

/// The view of an answer that carries what Git left behind.
pub open spec fn git_ended(r: Result<GitOutput, String>) -> Result<GitOutputView, Seq<char>> {
    match r {
        Ok(output) => Ok(output@),
        Err(error) => Err(error@),
    }
}

/// The view of an answer that carries metadata.
pub open spec fn metadata_found(r: Result<Metadata, IoError>) -> Result<Metadata, IoErrorView> {
    match r {
        Ok(metadata) => Ok(metadata),
        Err(error) => Err(error@),
    }
}

/// The view of an answer that is yes or no.
pub open spec fn flag_found(r: Result<bool, String>) -> Result<bool, Seq<char>> {
    match r {
        Ok(flag) => Ok(flag),
        Err(error) => Err(error@),
    }
}

/// The view of an answer that carries a time.
pub open spec fn time_told(r: Result<u128, String>) -> Result<u128, Seq<char>> {
    match r {
        Ok(time) => Ok(time),
        Err(error) => Err(error@),
    }
}

/// The view of an answer that carries how a clone ended.
pub open spec fn clone_ended(r: Result<Backend, CloneFault>) -> Result<Backend, CloneFaultView> {
    match r {
        Ok(backend) => Ok(backend),
        Err(fault) => Err(fault@),
    }
}

/// What went wrong, if anything did.
pub open spec fn fault(r: Result<(), String>) -> Option<Seq<char>> {
    match r {
        Ok(_) => None,
        Err(error) => Some(error@),
    }
}

/// What went wrong with a path, if anything did.
pub open spec fn io_fault(r: Result<(), IoError>) -> Option<IoErrorView> {
    match r {
        Ok(_) => None,
        Err(error) => Some(error@),
    }
}

/// What went wrong with writing a new file, if anything did.
pub open spec fn write_fault(r: Result<(), WriteFault>) -> Option<WriteFaultView> {
    match r {
        Ok(_) => None,
        Err(fault) => Some(fault@),
    }
}

/// What went wrong with a copy, if anything did.
pub open spec fn copy_fault(r: Result<(), CopyFault>) -> Option<CopyFaultView> {
    match r {
        Ok(_) => None,
        Err(fault) => Some(fault@),
    }
}

// ---------------------------------------------------------------------------
// The host and its session
// ---------------------------------------------------------------------------

/// An operation and its answer.
pub enum Event {
    CurrentDirectory(Result<Seq<u8>, Seq<char>>),
    Git(CallView, Result<GitOutputView, Seq<char>>),
    Canonicalize(Seq<u8>, Result<Seq<u8>, Seq<char>>),
    PathExists(Seq<u8>, bool),
    IsDirectory(Seq<u8>, bool),
    IsFile(Seq<u8>, bool),
    Metadata(Seq<u8>, Result<Metadata, IoErrorView>),
    ReadLink(Seq<u8>, Result<Seq<u8>, Seq<char>>),
    EntryNames(Seq<u8>, Result<Seq<Seq<u8>>, Seq<char>>),
    IsOccupied(Seq<u8>, Result<bool, Seq<char>>),
    ReadFile(Seq<u8>, Result<Seq<u8>, Seq<char>>),
    CreateDirectories(Seq<u8>, Option<Seq<char>>),
    CreateDirectory(Seq<u8>, Option<Seq<char>>),
    RemoveFile(Seq<u8>, Option<IoErrorView>),
    WriteNew(Seq<u8>, Seq<u8>, Option<WriteFaultView>),
    Rename(Seq<u8>, Seq<u8>, Option<Seq<char>>),
    SyncDirectory(Seq<u8>, Option<Seq<char>>),
    CloneInto(Seq<u8>, Seq<u8>, Result<Backend, CloneFaultView>),
    CopyNew(Seq<u8>, Seq<u8>, Option<CopyFaultView>),
    HardLink(Seq<u8>, Seq<u8>, Option<Seq<char>>),
    Symlink(Seq<u8>, Seq<u8>, Option<Seq<char>>),
    SetMode(Seq<u8>, u32, Option<Seq<char>>),
    SetTimes(Seq<u8>, Moment, Moment, Option<Seq<char>>),
    Touch(Seq<u8>, Option<Seq<char>>),
    StripAttributes(Seq<u8>, Option<Seq<char>>),
    Umask(u32),
    Clock(Result<u128, Seq<char>>),
    ProcessId(u32),
    OnLinux(bool),
    Cancelled(bool),
    OpenBase(Seq<u8>, Option<Seq<char>>),
    Descend(Seq<u8>, Option<IoErrorView>),
    MakeBelow(Seq<u8>, Option<Seq<char>>),
    LinkBelow(Seq<u8>, Seq<u8>, Option<Seq<char>>),
    CloneAll(Seq<JobView>, u32, RoundView),
    Forward(Seq<u8>, Seq<u8>),
}

/// The machine.
pub trait Host {
    /// The directory that the program was started in.
    fn current_directory(&mut self) -> Result<Vec<u8>, String>;

    /// Runs Git to its end; the error says why it could not be run.
    fn git(&mut self, call: &GitCall) -> Result<GitOutput, String>;

    /// The absolute path of `path` with every link resolved.
    fn canonicalize(&mut self, path: &[u8]) -> Result<Vec<u8>, String>;

    /// Something is at `path`, links followed.
    fn path_exists(&mut self, path: &[u8]) -> bool;

    /// A directory is at `path`, links followed.
    fn is_directory(&mut self, path: &[u8]) -> bool;

    /// A regular file is at `path`, links followed.
    fn is_file(&mut self, path: &[u8]) -> bool;

    /// What is at `path` itself, links not followed.
    fn metadata(&mut self, path: &[u8]) -> Result<Metadata, IoError>;

    /// The text of the link at `path`.
    fn read_link(&mut self, path: &[u8]) -> Result<Vec<u8>, String>;

    /// The names in the directory at `path`, in no particular order.
    fn entry_names(&mut self, path: &[u8]) -> Result<Vec<Vec<u8>>, String>;

    /// Something is in the directory at `path`.
    fn is_occupied(&mut self, path: &[u8]) -> Result<bool, String>;

    /// The contents of the file at `path`.
    fn read_file(&mut self, path: &[u8]) -> Result<Vec<u8>, String>;

    /// Makes the directory `path` and those above it.
    fn create_directories(&mut self, path: &[u8]) -> Result<(), String>;

    /// Makes the directory `path`.
    fn create_directory(&mut self, path: &[u8]) -> Result<(), String>;

    /// Removes the file at `path`.
    fn remove_file(&mut self, path: &[u8]) -> Result<(), IoError>;

    /// Writes and syncs a file that must not exist yet.
    fn write_new(&mut self, path: &[u8], bytes: &[u8]) -> Result<(), WriteFault>;

    /// Moves a file, replacing what is at `to`.
    fn rename(&mut self, from: &[u8], to: &[u8]) -> Result<(), String>;

    /// Syncs the directory at `path`.
    fn sync_directory(&mut self, path: &[u8]) -> Result<(), String>;

    /// Makes `target`, which must not exist yet, a copy-on-write clone of `source`.
    fn clone_into(&mut self, source: &[u8], target: &[u8]) -> Result<Backend, CloneFault>;

    /// Copies the contents of `source` into `target`, which must not exist yet.
    fn copy_new(&mut self, source: &[u8], target: &[u8]) -> Result<(), CopyFault>;

    /// Makes `target` another name of `source`.
    fn hard_link(&mut self, source: &[u8], target: &[u8]) -> Result<(), String>;

    /// Makes a link with the given text at `path`.
    fn symlink(&mut self, text: &[u8], path: &[u8]) -> Result<(), String>;

    /// Sets the permission bits of the file at `path`.
    fn set_mode(&mut self, path: &[u8], mode: u32) -> Result<(), String>;

    /// Sets the times of what is at `path` itself, links not followed.
    fn set_times(&mut self, path: &[u8], accessed: Moment, modified: Moment) -> Result<(), String>;

    /// Sets both times of the file at `path` to now.
    fn touch(&mut self, path: &[u8]) -> Result<(), String>;

    /// Removes the extended attributes that a clone carries over, where the
    /// platform has clones carry any.
    fn strip_attributes(&mut self, path: &[u8]) -> Result<(), String>;

    /// The permission bits that new files do not get.
    fn umask(&mut self) -> u32;

    /// The nanoseconds since the epoch.
    fn clock(&mut self) -> Result<u128, String>;

    /// The number of this process.
    fn process_id(&mut self) -> u32;

    /// The machine runs Linux.
    fn on_linux(&mut self) -> bool;

    /// The user has asked to stop.
    fn cancelled(&mut self) -> bool;

    /// Opens the directory at `path` as the one that the next three calls start from.
    fn open_base(&mut self, path: &[u8]) -> Result<(), String>;

    /// Moves from the open directory to the one called `name` in it, no link followed.
    fn descend(&mut self, name: &[u8]) -> Result<(), IoError>;

    /// Makes a directory called `name` in the open one.
    fn make_below(&mut self, name: &[u8]) -> Result<(), String>;

    /// Makes a link called `name` with the given text in the open directory.
    fn link_below(&mut self, text: &[u8], name: &[u8]) -> Result<(), String>;

    /// Clones files, several at a time. Each outcome is that of
    /// [`crate::fsclone::clone_job`] on the job of its number; none is begun once
    /// the user has asked to stop or one was fatal.
    fn clone_all(&mut self, jobs: &Vec<CloneJob>, umask: u32) -> CloneRound;

    /// Passes on what a hook printed.
    fn forward(&mut self, stdout: &[u8], stderr: &[u8]);
}

/// A host together with the log of what was asked of it.
pub struct Session<H> {
    host: H,
    log: Ghost<Seq<Event>>,
}

impl<H> Session<H> {
    /// What was asked so far, and answered.
    pub closed spec fn log(&self) -> Seq<Event> {
        self.log@
    }

    /// A session in which nothing was asked yet.
    pub fn new(host: H) -> (r: Self)
        ensures
            r.log() == Seq::<Event>::empty(),
            r.host() == host,
    {
        Session { host, log: Ghost(Seq::empty()) }
    }

    /// The host that answers.
    pub closed spec fn host(&self) -> H {
        self.host
    }

    /// The host, for its owner.
    pub fn into_host(self) -> (r: H)
        ensures
            r == self.host(),
    {
        self.host
    }
}

impl<H: Host> Session<H> {
    /// The directory that the program was started in.
    pub fn current_directory(&mut self) -> (r: Result<Vec<u8>, String>)
        ensures
            final(self).log() == old(self).log().push(Event::CurrentDirectory(bytes_found(r))),
    {
        let r = self.host.current_directory();
        self.log = Ghost(self.log@.push(Event::CurrentDirectory(bytes_found(r))));
        r
    }

    /// Runs Git to its end; the error says why it could not be run.
    pub fn git(&mut self, call: &GitCall) -> (r: Result<GitOutput, String>)
        ensures
            final(self).log() == old(self).log().push(Event::Git(call@, git_ended(r))),
    {
        let r = self.host.git(call);
        self.log = Ghost(self.log@.push(Event::Git(call@, git_ended(r))));
        r
    }

    /// The absolute path of `path` with every link resolved.
    pub fn canonicalize(&mut self, path: &[u8]) -> (r: Result<Vec<u8>, String>)
        ensures
            final(self).log() == old(self).log().push(Event::Canonicalize(path@, bytes_found(r))),
    {
        let r = self.host.canonicalize(path);
        self.log = Ghost(self.log@.push(Event::Canonicalize(path@, bytes_found(r))));
        r
    }

    /// Something is at `path`, links followed.
    pub fn path_exists(&mut self, path: &[u8]) -> (r: bool)
        ensures
            final(self).log() == old(self).log().push(Event::PathExists(path@, r)),
    {
        let r = self.host.path_exists(path);
        self.log = Ghost(self.log@.push(Event::PathExists(path@, r)));
        r
    }

    /// A directory is at `path`, links followed.
    pub fn is_directory(&mut self, path: &[u8]) -> (r: bool)
        ensures
            final(self).log() == old(self).log().push(Event::IsDirectory(path@, r)),
    {
        let r = self.host.is_directory(path);
        self.log = Ghost(self.log@.push(Event::IsDirectory(path@, r)));
        r
    }

    /// A regular file is at `path`, links followed.
    pub fn is_file(&mut self, path: &[u8]) -> (r: bool)
        ensures
            final(self).log() == old(self).log().push(Event::IsFile(path@, r)),
    {
        let r = self.host.is_file(path);
        self.log = Ghost(self.log@.push(Event::IsFile(path@, r)));
        r
    }

    /// What is at `path` itself, links not followed.
    pub fn metadata(&mut self, path: &[u8]) -> (r: Result<Metadata, IoError>)
        ensures
            final(self).log() == old(self).log().push(Event::Metadata(path@, metadata_found(r))),
    {
        let r = self.host.metadata(path);
        self.log = Ghost(self.log@.push(Event::Metadata(path@, metadata_found(r))));
        r
    }

    /// The text of the link at `path`.
    pub fn read_link(&mut self, path: &[u8]) -> (r: Result<Vec<u8>, String>)
        ensures
            final(self).log() == old(self).log().push(Event::ReadLink(path@, bytes_found(r))),
    {
        let r = self.host.read_link(path);
        self.log = Ghost(self.log@.push(Event::ReadLink(path@, bytes_found(r))));
        r
    }

    /// The names in the directory at `path`, in no particular order.
    pub fn entry_names(&mut self, path: &[u8]) -> (r: Result<Vec<Vec<u8>>, String>)
        ensures
            final(self).log() == old(self).log().push(Event::EntryNames(path@, names_found(r))),
    {
        let r = self.host.entry_names(path);
        self.log = Ghost(self.log@.push(Event::EntryNames(path@, names_found(r))));
        r
    }

    /// Something is in the directory at `path`.
    pub fn is_occupied(&mut self, path: &[u8]) -> (r: Result<bool, String>)
        ensures
            final(self).log() == old(self).log().push(Event::IsOccupied(path@, flag_found(r))),
    {
        let r = self.host.is_occupied(path);
        self.log = Ghost(self.log@.push(Event::IsOccupied(path@, flag_found(r))));
        r
    }

    /// The contents of the file at `path`.
    pub fn read_file(&mut self, path: &[u8]) -> (r: Result<Vec<u8>, String>)
        ensures
            final(self).log() == old(self).log().push(Event::ReadFile(path@, bytes_found(r))),
    {
        let r = self.host.read_file(path);
        self.log = Ghost(self.log@.push(Event::ReadFile(path@, bytes_found(r))));
        r
    }

    /// Makes the directory `path` and those above it.
    pub fn create_directories(&mut self, path: &[u8]) -> (r: Result<(), String>)
        ensures
            final(self).log() == old(self).log().push(Event::CreateDirectories(path@, fault(r))),
    {
        let r = self.host.create_directories(path);
        self.log = Ghost(self.log@.push(Event::CreateDirectories(path@, fault(r))));
        r
    }

    /// Makes the directory `path`.
    pub fn create_directory(&mut self, path: &[u8]) -> (r: Result<(), String>)
        ensures
            final(self).log() == old(self).log().push(Event::CreateDirectory(path@, fault(r))),
    {
        let r = self.host.create_directory(path);
        self.log = Ghost(self.log@.push(Event::CreateDirectory(path@, fault(r))));
        r
    }

    /// Removes the file at `path`.
    pub fn remove_file(&mut self, path: &[u8]) -> (r: Result<(), IoError>)
        ensures
            final(self).log() == old(self).log().push(Event::RemoveFile(path@, io_fault(r))),
    {
        let r = self.host.remove_file(path);
        self.log = Ghost(self.log@.push(Event::RemoveFile(path@, io_fault(r))));
        r
    }

    /// Writes and syncs a file that must not exist yet.
    pub fn write_new(&mut self, path: &[u8], bytes: &[u8]) -> (r: Result<(), WriteFault>)
        ensures
            final(self).log() == old(self).log().push(Event::WriteNew(
                path@,
                bytes@,
                write_fault(r),
            )),
    {
        let r = self.host.write_new(path, bytes);
        self.log = Ghost(self.log@.push(Event::WriteNew(path@, bytes@, write_fault(r))));
        r
    }

    /// Moves a file, replacing what is at `to`.
    pub fn rename(&mut self, from: &[u8], to: &[u8]) -> (r: Result<(), String>)
        ensures
            final(self).log() == old(self).log().push(Event::Rename(from@, to@, fault(r))),
    {
        let r = self.host.rename(from, to);
        self.log = Ghost(self.log@.push(Event::Rename(from@, to@, fault(r))));
        r
    }

    /// Syncs the directory at `path`.
    pub fn sync_directory(&mut self, path: &[u8]) -> (r: Result<(), String>)
        ensures
            final(self).log() == old(self).log().push(Event::SyncDirectory(path@, fault(r))),
    {
        let r = self.host.sync_directory(path);
        self.log = Ghost(self.log@.push(Event::SyncDirectory(path@, fault(r))));
        r
    }

    /// Makes `target`, which must not exist yet, a copy-on-write clone of `source`.
    pub fn clone_into(&mut self, source: &[u8], target: &[u8]) -> (r: Result<Backend, CloneFault>)
        ensures
            final(self).log() == old(self).log().push(Event::CloneInto(
                source@,
                target@,
                clone_ended(r),
            )),
    {
        let r = self.host.clone_into(source, target);
        self.log = Ghost(self.log@.push(Event::CloneInto(source@, target@, clone_ended(r))));
        r
    }

    /// Copies the contents of `source` into `target`, which must not exist yet.
    pub fn copy_new(&mut self, source: &[u8], target: &[u8]) -> (r: Result<(), CopyFault>)
        ensures
            final(self).log() == old(self).log().push(Event::CopyNew(
                source@,
                target@,
                copy_fault(r),
            )),
    {
        let r = self.host.copy_new(source, target);
        self.log = Ghost(self.log@.push(Event::CopyNew(source@, target@, copy_fault(r))));
        r
    }

    /// Makes `target` another name of `source`.
    pub fn hard_link(&mut self, source: &[u8], target: &[u8]) -> (r: Result<(), String>)
        ensures
            final(self).log() == old(self).log().push(Event::HardLink(source@, target@, fault(r))),
    {
        let r = self.host.hard_link(source, target);
        self.log = Ghost(self.log@.push(Event::HardLink(source@, target@, fault(r))));
        r
    }

    /// Makes a link with the given text at `path`.
    pub fn symlink(&mut self, text: &[u8], path: &[u8]) -> (r: Result<(), String>)
        ensures
            final(self).log() == old(self).log().push(Event::Symlink(text@, path@, fault(r))),
    {
        let r = self.host.symlink(text, path);
        self.log = Ghost(self.log@.push(Event::Symlink(text@, path@, fault(r))));
        r
    }

    /// Sets the permission bits of the file at `path`.
    pub fn set_mode(&mut self, path: &[u8], mode: u32) -> (r: Result<(), String>)
        ensures
            final(self).log() == old(self).log().push(Event::SetMode(path@, mode, fault(r))),
    {
        let r = self.host.set_mode(path, mode);
        self.log = Ghost(self.log@.push(Event::SetMode(path@, mode, fault(r))));
        r
    }

    /// Sets the times of what is at `path` itself, links not followed.
    pub fn set_times(
        &mut self,
        path: &[u8],
        accessed: Moment,
        modified: Moment,
    ) -> (r: Result<(), String>)
        ensures
            final(self).log() == old(self).log().push(Event::SetTimes(
                path@,
                accessed,
                modified,
                fault(r),
            )),
    {
        let r = self.host.set_times(path, accessed, modified);
        self.log = Ghost(self.log@.push(Event::SetTimes(path@, accessed, modified, fault(r))));
        r
    }

    /// Sets both times of the file at `path` to now.
    pub fn touch(&mut self, path: &[u8]) -> (r: Result<(), String>)
        ensures
            final(self).log() == old(self).log().push(Event::Touch(path@, fault(r))),
    {
        let r = self.host.touch(path);
        self.log = Ghost(self.log@.push(Event::Touch(path@, fault(r))));
        r
    }

    /// Removes the extended attributes that a clone carries over, where the
    /// platform has clones carry any.
    pub fn strip_attributes(&mut self, path: &[u8]) -> (r: Result<(), String>)
        ensures
            final(self).log() == old(self).log().push(Event::StripAttributes(path@, fault(r))),
    {
        let r = self.host.strip_attributes(path);
        self.log = Ghost(self.log@.push(Event::StripAttributes(path@, fault(r))));
        r
    }

    /// The permission bits that new files do not get.
    pub fn umask(&mut self) -> (r: u32)
        ensures
            final(self).log() == old(self).log().push(Event::Umask(r)),
    {
        let r = self.host.umask();
        self.log = Ghost(self.log@.push(Event::Umask(r)));
        r
    }

    /// The nanoseconds since the epoch.
    pub fn clock(&mut self) -> (r: Result<u128, String>)
        ensures
            final(self).log() == old(self).log().push(Event::Clock(time_told(r))),
    {
        let r = self.host.clock();
        self.log = Ghost(self.log@.push(Event::Clock(time_told(r))));
        r
    }

    /// The number of this process.
    pub fn process_id(&mut self) -> (r: u32)
        ensures
            final(self).log() == old(self).log().push(Event::ProcessId(r)),
    {
        let r = self.host.process_id();
        self.log = Ghost(self.log@.push(Event::ProcessId(r)));
        r
    }

    /// The machine runs Linux.
    pub fn on_linux(&mut self) -> (r: bool)
        ensures
            final(self).log() == old(self).log().push(Event::OnLinux(r)),
    {
        let r = self.host.on_linux();
        self.log = Ghost(self.log@.push(Event::OnLinux(r)));
        r
    }

    /// The user has asked to stop.
    pub fn cancelled(&mut self) -> (r: bool)
        ensures
            final(self).log() == old(self).log().push(Event::Cancelled(r)),
    {
        let r = self.host.cancelled();
        self.log = Ghost(self.log@.push(Event::Cancelled(r)));
        r
    }

    /// Opens the directory at `path` as the one that the next three calls start from.
    pub fn open_base(&mut self, path: &[u8]) -> (r: Result<(), String>)
        ensures
            final(self).log() == old(self).log().push(Event::OpenBase(path@, fault(r))),
    {
        let r = self.host.open_base(path);
        self.log = Ghost(self.log@.push(Event::OpenBase(path@, fault(r))));
        r
    }

    /// Moves from the open directory to the one called `name` in it, no link followed.
    pub fn descend(&mut self, name: &[u8]) -> (r: Result<(), IoError>)
        ensures
            final(self).log() == old(self).log().push(Event::Descend(name@, io_fault(r))),
    {
        let r = self.host.descend(name);
        self.log = Ghost(self.log@.push(Event::Descend(name@, io_fault(r))));
        r
    }

    /// Makes a directory called `name` in the open one.
    pub fn make_below(&mut self, name: &[u8]) -> (r: Result<(), String>)
        ensures
            final(self).log() == old(self).log().push(Event::MakeBelow(name@, fault(r))),
    {
        let r = self.host.make_below(name);
        self.log = Ghost(self.log@.push(Event::MakeBelow(name@, fault(r))));
        r
    }

    /// Makes a link called `name` with the given text in the open directory.
    pub fn link_below(&mut self, text: &[u8], name: &[u8]) -> (r: Result<(), String>)
        ensures
            final(self).log() == old(self).log().push(Event::LinkBelow(text@, name@, fault(r))),
    {
        let r = self.host.link_below(text, name);
        self.log = Ghost(self.log@.push(Event::LinkBelow(text@, name@, fault(r))));
        r
    }

    /// Clones files, several at a time. Each outcome is that of
    /// [`crate::fsclone::clone_job`] on the job of its number; none is begun once
    /// the user has asked to stop or one was fatal.
    pub fn clone_all(&mut self, jobs: &Vec<CloneJob>, umask: u32) -> (r: CloneRound)
        ensures
            final(self).log() == old(self).log().push(Event::CloneAll(job_views(jobs@), umask, r@)),
    {
        let r = self.host.clone_all(jobs, umask);
        self.log = Ghost(self.log@.push(Event::CloneAll(job_views(jobs@), umask, r@)));
        r
    }

    /// Passes on what a hook printed.
    pub fn forward(&mut self, stdout: &[u8], stderr: &[u8])
        ensures
            final(self).log() == old(self).log().push(Event::Forward(stdout@, stderr@)),
    {
        self.host.forward(stdout, stderr);
        self.log = Ghost(self.log@.push(Event::Forward(stdout@, stderr@)));
    }
}

// ---------------------------------------------------------------------------
// Reading a log
// ---------------------------------------------------------------------------

pub open spec fn current_directory_at(l: Seq<Event>, i: int) -> (Result<Seq<u8>, Seq<char>>, int) {
    if 0 <= i < l.len() {
        match l[i] {
            Event::CurrentDirectory(r) => (r, i + 1),
            _ => (arbitrary(), -1),
        }
    } else {
        (arbitrary(), -1)
    }
}

pub open spec fn git_at(
    l: Seq<Event>,
    i: int,
    call: CallView,
) -> (Result<GitOutputView, Seq<char>>, int) {
    if 0 <= i < l.len() {
        match l[i] {
            Event::Git(call_, r) => if call_ == call {
                (r, i + 1)
            } else {
                (r, -1)
            },
            _ => (arbitrary(), -1),
        }
    } else {
        (arbitrary(), -1)
    }
}

pub open spec fn canonicalize_at(
    l: Seq<Event>,
    i: int,
    path: Seq<u8>,
) -> (Result<Seq<u8>, Seq<char>>, int) {
    if 0 <= i < l.len() {
        match l[i] {
            Event::Canonicalize(path_, r) => if path_ == path {
                (r, i + 1)
            } else {
                (r, -1)
            },
            _ => (arbitrary(), -1),
        }
    } else {
        (arbitrary(), -1)
    }
}

pub open spec fn path_exists_at(l: Seq<Event>, i: int, path: Seq<u8>) -> (bool, int) {
    if 0 <= i < l.len() {
        match l[i] {
            Event::PathExists(path_, r) => if path_ == path {
                (r, i + 1)
            } else {
                (r, -1)
            },
            _ => (arbitrary(), -1),
        }
    } else {
        (arbitrary(), -1)
    }
}

pub open spec fn is_directory_at(l: Seq<Event>, i: int, path: Seq<u8>) -> (bool, int) {
    if 0 <= i < l.len() {
        match l[i] {
            Event::IsDirectory(path_, r) => if path_ == path {
                (r, i + 1)
            } else {
                (r, -1)
            },
            _ => (arbitrary(), -1),
        }
    } else {
        (arbitrary(), -1)
    }
}

pub open spec fn is_file_at(l: Seq<Event>, i: int, path: Seq<u8>) -> (bool, int) {
    if 0 <= i < l.len() {
        match l[i] {
            Event::IsFile(path_, r) => if path_ == path {
                (r, i + 1)
            } else {
                (r, -1)
            },
            _ => (arbitrary(), -1),
        }
    } else {
        (arbitrary(), -1)
    }
}

pub open spec fn metadata_at(
    l: Seq<Event>,
    i: int,
    path: Seq<u8>,
) -> (Result<Metadata, IoErrorView>, int) {
    if 0 <= i < l.len() {
        match l[i] {
            Event::Metadata(path_, r) => if path_ == path {
                (r, i + 1)
            } else {
                (r, -1)
            },
            _ => (arbitrary(), -1),
        }
    } else {
        (arbitrary(), -1)
    }
}

pub open spec fn read_link_at(
    l: Seq<Event>,
    i: int,
    path: Seq<u8>,
) -> (Result<Seq<u8>, Seq<char>>, int) {
    if 0 <= i < l.len() {
        match l[i] {
            Event::ReadLink(path_, r) => if path_ == path {
                (r, i + 1)
            } else {
                (r, -1)
            },
            _ => (arbitrary(), -1),
        }
    } else {
        (arbitrary(), -1)
    }
}

pub open spec fn entry_names_at(
    l: Seq<Event>,
    i: int,
    path: Seq<u8>,
) -> (Result<Seq<Seq<u8>>, Seq<char>>, int) {
    if 0 <= i < l.len() {
        match l[i] {
            Event::EntryNames(path_, r) => if path_ == path {
                (r, i + 1)
            } else {
                (r, -1)
            },
            _ => (arbitrary(), -1),
        }
    } else {
        (arbitrary(), -1)
    }
}

pub open spec fn is_occupied_at(
    l: Seq<Event>,
    i: int,
    path: Seq<u8>,
) -> (Result<bool, Seq<char>>, int) {
    if 0 <= i < l.len() {
        match l[i] {
            Event::IsOccupied(path_, r) => if path_ == path {
                (r, i + 1)
            } else {
                (r, -1)
            },
            _ => (arbitrary(), -1),
        }
    } else {
        (arbitrary(), -1)
    }
}

pub open spec fn read_file_at(
    l: Seq<Event>,
    i: int,
    path: Seq<u8>,
) -> (Result<Seq<u8>, Seq<char>>, int) {
    if 0 <= i < l.len() {
        match l[i] {
            Event::ReadFile(path_, r) => if path_ == path {
                (r, i + 1)
            } else {
                (r, -1)
            },
            _ => (arbitrary(), -1),
        }
    } else {
        (arbitrary(), -1)
    }
}

pub open spec fn create_directories_at(
    l: Seq<Event>,
    i: int,
    path: Seq<u8>,
) -> (Option<Seq<char>>, int) {
    if 0 <= i < l.len() {
        match l[i] {
            Event::CreateDirectories(path_, r) => if path_ == path {
                (r, i + 1)
            } else {
                (r, -1)
            },
            _ => (arbitrary(), -1),
        }
    } else {
        (arbitrary(), -1)
    }
}

pub open spec fn create_directory_at(
    l: Seq<Event>,
    i: int,
    path: Seq<u8>,
) -> (Option<Seq<char>>, int) {
    if 0 <= i < l.len() {
        match l[i] {
            Event::CreateDirectory(path_, r) => if path_ == path {
                (r, i + 1)
            } else {
                (r, -1)
            },
            _ => (arbitrary(), -1),
        }
    } else {
        (arbitrary(), -1)
    }
}

pub open spec fn remove_file_at(
    l: Seq<Event>,
    i: int,
    path: Seq<u8>,
) -> (Option<IoErrorView>, int) {
    if 0 <= i < l.len() {
        match l[i] {
            Event::RemoveFile(path_, r) => if path_ == path {
                (r, i + 1)
            } else {
                (r, -1)
            },
            _ => (arbitrary(), -1),
        }
    } else {
        (arbitrary(), -1)
    }
}

pub open spec fn write_new_at(
    l: Seq<Event>,
    i: int,
    path: Seq<u8>,
    bytes: Seq<u8>,
) -> (Option<WriteFaultView>, int) {
    if 0 <= i < l.len() {
        match l[i] {
            Event::WriteNew(path_, bytes_, r) => if path_ == path && bytes_ == bytes {
                (r, i + 1)
            } else {
                (r, -1)
            },
            _ => (arbitrary(), -1),
        }
    } else {
        (arbitrary(), -1)
    }
}

pub open spec fn rename_at(
    l: Seq<Event>,
    i: int,
    from: Seq<u8>,
    to: Seq<u8>,
) -> (Option<Seq<char>>, int) {
    if 0 <= i < l.len() {
        match l[i] {
            Event::Rename(from_, to_, r) => if from_ == from && to_ == to {
                (r, i + 1)
            } else {
                (r, -1)
            },
            _ => (arbitrary(), -1),
        }
    } else {
        (arbitrary(), -1)
    }
}

pub open spec fn sync_directory_at(
    l: Seq<Event>,
    i: int,
    path: Seq<u8>,
) -> (Option<Seq<char>>, int) {
    if 0 <= i < l.len() {
        match l[i] {
            Event::SyncDirectory(path_, r) => if path_ == path {
                (r, i + 1)
            } else {
                (r, -1)
            },
            _ => (arbitrary(), -1),
        }
    } else {
        (arbitrary(), -1)
    }
}

pub open spec fn clone_into_at(
    l: Seq<Event>,
    i: int,
    source: Seq<u8>,
    target: Seq<u8>,
) -> (Result<Backend, CloneFaultView>, int) {
    if 0 <= i < l.len() {
        match l[i] {
            Event::CloneInto(source_, target_, r) => if source_ == source && target_ == target {
                (r, i + 1)
            } else {
                (r, -1)
            },
            _ => (arbitrary(), -1),
        }
    } else {
        (arbitrary(), -1)
    }
}

pub open spec fn copy_new_at(
    l: Seq<Event>,
    i: int,
    source: Seq<u8>,
    target: Seq<u8>,
) -> (Option<CopyFaultView>, int) {
    if 0 <= i < l.len() {
        match l[i] {
            Event::CopyNew(source_, target_, r) => if source_ == source && target_ == target {
                (r, i + 1)
            } else {
                (r, -1)
            },
            _ => (arbitrary(), -1),
        }
    } else {
        (arbitrary(), -1)
    }
}

pub open spec fn hard_link_at(
    l: Seq<Event>,
    i: int,
    source: Seq<u8>,
    target: Seq<u8>,
) -> (Option<Seq<char>>, int) {
    if 0 <= i < l.len() {
        match l[i] {
            Event::HardLink(source_, target_, r) => if source_ == source && target_ == target {
                (r, i + 1)
            } else {
                (r, -1)
            },
            _ => (arbitrary(), -1),
        }
    } else {
        (arbitrary(), -1)
    }
}

pub open spec fn symlink_at(
    l: Seq<Event>,
    i: int,
    text: Seq<u8>,
    path: Seq<u8>,
) -> (Option<Seq<char>>, int) {
    if 0 <= i < l.len() {
        match l[i] {
            Event::Symlink(text_, path_, r) => if text_ == text && path_ == path {
                (r, i + 1)
            } else {
                (r, -1)
            },
            _ => (arbitrary(), -1),
        }
    } else {
        (arbitrary(), -1)
    }
}

pub open spec fn set_mode_at(
    l: Seq<Event>,
    i: int,
    path: Seq<u8>,
    mode: u32,
) -> (Option<Seq<char>>, int) {
    if 0 <= i < l.len() {
        match l[i] {
            Event::SetMode(path_, mode_, r) => if path_ == path && mode_ == mode {
                (r, i + 1)
            } else {
                (r, -1)
            },
            _ => (arbitrary(), -1),
        }
    } else {
        (arbitrary(), -1)
    }
}

pub open spec fn set_times_at(
    l: Seq<Event>,
    i: int,
    path: Seq<u8>,
    accessed: Moment,
    modified: Moment,
) -> (Option<Seq<char>>, int) {
    if 0 <= i < l.len() {
        match l[i] {
            Event::SetTimes(
                path_,
                accessed_,
                modified_,
                r,
            ) => if path_ == path && accessed_ == accessed && modified_ == modified {
                (r, i + 1)
            } else {
                (r, -1)
            },
            _ => (arbitrary(), -1),
        }
    } else {
        (arbitrary(), -1)
    }
}

pub open spec fn touch_at(l: Seq<Event>, i: int, path: Seq<u8>) -> (Option<Seq<char>>, int) {
    if 0 <= i < l.len() {
        match l[i] {
            Event::Touch(path_, r) => if path_ == path {
                (r, i + 1)
            } else {
                (r, -1)
            },
            _ => (arbitrary(), -1),
        }
    } else {
        (arbitrary(), -1)
    }
}

pub open spec fn strip_attributes_at(
    l: Seq<Event>,
    i: int,
    path: Seq<u8>,
) -> (Option<Seq<char>>, int) {
    if 0 <= i < l.len() {
        match l[i] {
            Event::StripAttributes(path_, r) => if path_ == path {
                (r, i + 1)
            } else {
                (r, -1)
            },
            _ => (arbitrary(), -1),
        }
    } else {
        (arbitrary(), -1)
    }
}

pub open spec fn umask_at(l: Seq<Event>, i: int) -> (u32, int) {
    if 0 <= i < l.len() {
        match l[i] {
            Event::Umask(r) => (r, i + 1),
            _ => (arbitrary(), -1),
        }
    } else {
        (arbitrary(), -1)
    }
}

pub open spec fn clock_at(l: Seq<Event>, i: int) -> (Result<u128, Seq<char>>, int) {
    if 0 <= i < l.len() {
        match l[i] {
            Event::Clock(r) => (r, i + 1),
            _ => (arbitrary(), -1),
        }
    } else {
        (arbitrary(), -1)
    }
}

pub open spec fn process_id_at(l: Seq<Event>, i: int) -> (u32, int) {
    if 0 <= i < l.len() {
        match l[i] {
            Event::ProcessId(r) => (r, i + 1),
            _ => (arbitrary(), -1),
        }
    } else {
        (arbitrary(), -1)
    }
}

pub open spec fn on_linux_at(l: Seq<Event>, i: int) -> (bool, int) {
    if 0 <= i < l.len() {
        match l[i] {
            Event::OnLinux(r) => (r, i + 1),
            _ => (arbitrary(), -1),
        }
    } else {
        (arbitrary(), -1)
    }
}

pub open spec fn cancelled_at(l: Seq<Event>, i: int) -> (bool, int) {
    if 0 <= i < l.len() {
        match l[i] {
            Event::Cancelled(r) => (r, i + 1),
            _ => (arbitrary(), -1),
        }
    } else {
        (arbitrary(), -1)
    }
}

pub open spec fn open_base_at(l: Seq<Event>, i: int, path: Seq<u8>) -> (Option<Seq<char>>, int) {
    if 0 <= i < l.len() {
        match l[i] {
            Event::OpenBase(path_, r) => if path_ == path {
                (r, i + 1)
            } else {
                (r, -1)
            },
            _ => (arbitrary(), -1),
        }
    } else {
        (arbitrary(), -1)
    }
}

pub open spec fn descend_at(l: Seq<Event>, i: int, name: Seq<u8>) -> (Option<IoErrorView>, int) {
    if 0 <= i < l.len() {
        match l[i] {
            Event::Descend(name_, r) => if name_ == name {
                (r, i + 1)
            } else {
                (r, -1)
            },
            _ => (arbitrary(), -1),
        }
    } else {
        (arbitrary(), -1)
    }
}

pub open spec fn make_below_at(l: Seq<Event>, i: int, name: Seq<u8>) -> (Option<Seq<char>>, int) {
    if 0 <= i < l.len() {
        match l[i] {
            Event::MakeBelow(name_, r) => if name_ == name {
                (r, i + 1)
            } else {
                (r, -1)
            },
            _ => (arbitrary(), -1),
        }
    } else {
        (arbitrary(), -1)
    }
}

pub open spec fn link_below_at(
    l: Seq<Event>,
    i: int,
    text: Seq<u8>,
    name: Seq<u8>,
) -> (Option<Seq<char>>, int) {
    if 0 <= i < l.len() {
        match l[i] {
            Event::LinkBelow(text_, name_, r) => if text_ == text && name_ == name {
                (r, i + 1)
            } else {
                (r, -1)
            },
            _ => (arbitrary(), -1),
        }
    } else {
        (arbitrary(), -1)
    }
}

pub open spec fn clone_all_at(
    l: Seq<Event>,
    i: int,
    jobs: Seq<JobView>,
    umask: u32,
) -> (RoundView, int) {
    if 0 <= i < l.len() {
        match l[i] {
            Event::CloneAll(jobs_, umask_, r) => if jobs_ == jobs && umask_ == umask {
                (r, i + 1)
            } else {
                (r, -1)
            },
            _ => (arbitrary(), -1),
        }
    } else {
        (arbitrary(), -1)
    }
}

pub open spec fn forward_at(l: Seq<Event>, i: int, stdout: Seq<u8>, stderr: Seq<u8>) -> int {
    if 0 <= i < l.len() {
        match l[i] {
            Event::Forward(stdout_, stderr_) => if stdout_ == stdout && stderr_ == stderr {
                i + 1
            } else {
                -1
            },
            _ => -1,
        }
    } else {
        -1
    }
}

} // verus!
