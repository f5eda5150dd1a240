use ramiz::add;
use ramiz::cancellation;
use ramiz::cli::AddArgs;
use ramiz::doctor;
use ramiz::cli::DoctorArgs;
use ramiz::fsclone::{self, Backend};
use ramiz::git;
use ramiz::host::{
    CloneFault, CloneJob, CloneOutcome, CloneRound, CopyFault, GitCall, GitOutput, Host, Metadata,
    Moment, Session, WriteFault,
};
use ramiz::inherit;
use ramiz::update::model::{IoError, IoErrorKind};
use std::collections::{BTreeMap, BTreeSet};

// ---------------------------------------------------------------------------
// A machine in memory
// ---------------------------------------------------------------------------

#[derive(Clone)]
enum Node {
    Dir,
    File(Vec<u8>),
    Link(Vec<u8>),
    Socket,
}

#[derive(Clone)]
struct Inode {
    node: Node,
    ino: u64,
    mode: u32,
    modified: i64,
}

struct Machine {
    cwd: Vec<u8>,
    disk: BTreeMap<Vec<u8>, Inode>,
    next_ino: u64,
    clock: i64,
    /// What Git answers: the words that its arguments start with, how often
    /// the answer is given (0: always), and the answer.
    script: Vec<(String, usize, GitOutput)>,
    log: Vec<String>,
    inputs: Vec<(String, Vec<u8>)>,
    cow: bool,
    cancel_after: Option<usize>,
    asked_cancel: usize,
    forwarded: Vec<(Vec<u8>, Vec<u8>)>,
    refuse_remove: BTreeSet<Vec<u8>>,
    fatal_jobs: bool,
    lose_outcomes: bool,
    panicked: bool,
    change_after: Option<(String, Vec<u8>)>,
    base: Vec<u8>,
}

fn text(bytes: &[u8]) -> String {
    String::from_utf8_lossy(bytes).into_owned()
}

fn b(s: &str) -> Vec<u8> {
    s.as_bytes().to_vec()
}

fn ran(code: i32, stdout: &str, stderr: &str) -> GitOutput {
    GitOutput { code: Some(code), stdout: b(stdout), stderr: b(stderr) }
}

fn tidy(path: &[u8]) -> Vec<u8> {
    let mut out: Vec<u8> = Vec::new();
    for piece in path.split(|c| *c == b'/') {
        if piece.is_empty() || piece == b"." {
            continue;
        }
        out.push(b'/');
        out.extend_from_slice(piece);
    }
    if out.is_empty() {
        out.push(b'/');
    }
    out
}

fn missing() -> IoError {
    IoError { kind: IoErrorKind::NotFound, message: "No such file or directory".into() }
}

impl Machine {
    fn new(cwd: &str) -> Self {
        let mut m = Machine {
            cwd: b(cwd),
            disk: BTreeMap::new(),
            next_ino: 1,
            clock: 1,
            script: Vec::new(),
            log: Vec::new(),
            inputs: Vec::new(),
            cow: true,
            cancel_after: None,
            asked_cancel: 0,
            forwarded: Vec::new(),
            refuse_remove: BTreeSet::new(),
            fatal_jobs: false,
            lose_outcomes: false,
            panicked: false,
            change_after: None,
            base: Vec::new(),
        };
        m.dir("/");
        m.dir(cwd);
        m
    }

    fn put(&mut self, path: &[u8], node: Node, mode: u32) {
        let ino = self.next_ino;
        self.next_ino += 1;
        self.clock += 1;
        let modified = self.clock;
        self.disk.insert(tidy(path), Inode { node, ino, mode, modified });
    }

    fn dir(&mut self, path: &str) {
        self.put(path.as_bytes(), Node::Dir, 0o040755);
    }

    fn file(&mut self, path: &str, contents: &str) {
        self.put(path.as_bytes(), Node::File(b(contents)), 0o100644);
    }

    fn link(&mut self, path: &str, target: &str) {
        self.put(path.as_bytes(), Node::Link(b(target)), 0o120777);
    }

    fn says(&mut self, words: &str, code: i32, stdout: &str) {
        self.script.push((words.into(), 0, ran(code, stdout, "")));
    }

    fn says_once(&mut self, words: &str, answer: GitOutput) {
        self.script.push((words.into(), 1, answer));
    }

    fn contents(&self, path: &str) -> Option<Vec<u8>> {
        match self.disk.get(&tidy(path.as_bytes())) {
            Some(Inode { node: Node::File(c), .. }) => Some(c.clone()),
            _ => None,
        }
    }

    fn did(&self, words: &str) -> bool {
        self.log.iter().any(|line| line.starts_with(words))
    }

    fn changed_nothing(&self) -> bool {
        !self.log.iter().any(|line| {
            line.starts_with("git worktree add")
                || line.starts_with("git worktree remove")
                || line.starts_with("git update-ref")
                || line.starts_with("git read-tree")
                || line.starts_with("git checkout-index")
                || line.starts_with("git hook")
                || line.starts_with("mkdir")
                || line.starts_with("copy")
                || line.starts_with("link")
        })
    }
}

impl Host for Machine {
    fn current_directory(&mut self) -> Result<Vec<u8>, String> {
        Ok(self.cwd.clone())
    }

    fn git(&mut self, call: &GitCall) -> Result<GitOutput, String> {
        let words: Vec<String> = call.args.iter().map(|a| text(a)).collect();
        let line = words.join(" ");
        self.log.push(format!("git {line}"));
        if let Some(input) = &call.input {
            self.inputs.push((line.clone(), input.clone()));
        }
        if let Some((trigger, path)) = self.change_after.clone() {
            if line.starts_with(&trigger) {
                self.put(&path, Node::File(b("changed behind the back")), 0o100644);
                self.change_after = None;
            }
        }
        // Every worktree but the first has an index of its own.
        if line.ends_with("--git-path index") && tidy(&call.cwd) == b"/new" {
            return Ok(ran(0, "/repo/.git/worktrees/new/index\n", ""));
        }
        if line.starts_with("worktree add") {
            let destination = call.args.iter().find(|a| a.starts_with(b"/")).unwrap().clone();
            let found = self.answer(&line);
            if found.as_ref().is_none_or(|o| o.code == Some(0)) {
                self.put(&destination, Node::Dir, 0o040755);
                let mut git = destination.clone();
                git.extend_from_slice(b"/.git");
                self.put(&git, Node::File(b("gitdir: elsewhere")), 0o100644);
                self.file("/repo/.git/worktrees/new/index", "an empty index");
            }
            return Ok(found.unwrap_or_else(|| ran(0, "", "")));
        }
        if line.starts_with("worktree remove") {
            let found = self.answer(&line);
            if found.as_ref().is_none_or(|o| o.code == Some(0)) {
                let destination = tidy(call.args.last().unwrap());
                self.disk.retain(|path, _| !path.starts_with(&destination));
                self.disk.remove(b"/repo/.git/worktrees/new/index".as_slice());
            }
            return Ok(found.unwrap_or_else(|| ran(0, "", "")));
        }
        if line.starts_with("hash-object") {
            if let Some(found) = self.answer(&line) {
                return Ok(found);
            }
            let mut out = Vec::new();
            for path in &call.args[3..] {
                match self.disk.get(&tidy(path)) {
                    Some(Inode { node: Node::File(c), .. }) => {
                        out.extend_from_slice(b"hash-");
                        out.extend_from_slice(c);
                        out.push(b'\n');
                    }
                    _ => return Ok(ran(128, "", "could not open")),
                }
            }
            return Ok(GitOutput { code: Some(0), stdout: out, stderr: Vec::new() });
        }
        Ok(self.answer(&line).unwrap_or_else(|| ran(0, "", "")))
    }

    fn canonicalize(&mut self, path: &[u8]) -> Result<Vec<u8>, String> {
        let path = tidy(path);
        if self.disk.contains_key(&path) {
            Ok(path)
        } else {
            Err("No such file or directory".into())
        }
    }

    fn path_exists(&mut self, path: &[u8]) -> bool {
        self.disk.contains_key(&tidy(path))
    }

    fn is_directory(&mut self, path: &[u8]) -> bool {
        matches!(self.disk.get(&tidy(path)), Some(Inode { node: Node::Dir, .. }))
    }

    fn is_file(&mut self, path: &[u8]) -> bool {
        matches!(self.disk.get(&tidy(path)), Some(Inode { node: Node::File(_), .. }))
    }

    fn metadata(&mut self, path: &[u8]) -> Result<Metadata, IoError> {
        let found = self.disk.get(&tidy(path)).ok_or_else(missing)?;
        let links = self.disk.values().filter(|x| x.ino == found.ino).count() as u64;
        let when = Moment { seconds: found.modified, nanos: 0 };
        let size = match &found.node {
            Node::File(c) => c.len() as u64,
            _ => 0,
        };
        Ok(Metadata {
            dev: 1,
            ino: found.ino,
            mode: found.mode,
            size,
            links,
            accessed: when,
            modified: when,
            changed: Moment { seconds: 0, nanos: 0 },
        })
    }

    fn read_link(&mut self, path: &[u8]) -> Result<Vec<u8>, String> {
        match self.disk.get(&tidy(path)) {
            Some(Inode { node: Node::Link(t), .. }) => Ok(t.clone()),
            _ => Err("not a link".into()),
        }
    }

    fn entry_names(&mut self, path: &[u8]) -> Result<Vec<Vec<u8>>, String> {
        let mut prefix = tidy(path);
        prefix.push(b'/');
        let mut names: Vec<Vec<u8>> = self
            .disk
            .keys()
            .filter(|k| k.starts_with(&prefix) && k.len() > prefix.len())
            .map(|k| k[prefix.len()..].to_vec())
            .filter(|k| !k.contains(&b'/'))
            .collect();
        names.reverse();
        Ok(names)
    }

    fn is_occupied(&mut self, path: &[u8]) -> Result<bool, String> {
        Ok(!self.entry_names(path)?.is_empty())
    }

    fn read_file(&mut self, path: &[u8]) -> Result<Vec<u8>, String> {
        match self.disk.get(&tidy(path)) {
            Some(Inode { node: Node::File(c), .. }) => Ok(c.clone()),
            _ => Err("No such file or directory".into()),
        }
    }

    fn create_directories(&mut self, path: &[u8]) -> Result<(), String> {
        self.log.push(format!("mkdirs {}", text(path)));
        if !self.disk.contains_key(&tidy(path)) {
            self.put(path, Node::Dir, 0o040755);
        }
        Ok(())
    }

    fn create_directory(&mut self, path: &[u8]) -> Result<(), String> {
        self.log.push(format!("mkdir {}", text(path)));
        self.put(path, Node::Dir, 0o040755);
        Ok(())
    }

    fn remove_file(&mut self, path: &[u8]) -> Result<(), IoError> {
        self.log.push(format!("remove {}", text(path)));
        if self.refuse_remove.contains(path) {
            return Err(IoError { kind: IoErrorKind::PermissionDenied, message: "denied".into() });
        }
        match self.disk.remove(&tidy(path)) {
            Some(_) => Ok(()),
            None => Err(missing()),
        }
    }

    fn write_new(&mut self, path: &[u8], bytes: &[u8]) -> Result<(), WriteFault> {
        self.log.push(format!("write {}", text(path)));
        if self.disk.contains_key(&tidy(path)) {
            return Err(WriteFault::Create("File exists".into()));
        }
        self.put(path, Node::File(bytes.to_vec()), 0o100644);
        Ok(())
    }

    fn rename(&mut self, from: &[u8], to: &[u8]) -> Result<(), String> {
        let found = self.disk.remove(&tidy(from)).ok_or("No such file or directory")?;
        self.disk.insert(tidy(to), found);
        Ok(())
    }

    fn sync_directory(&mut self, _path: &[u8]) -> Result<(), String> {
        Ok(())
    }

    fn clone_into(&mut self, source: &[u8], target: &[u8]) -> Result<Backend, CloneFault> {
        self.log.push(format!("clone {} {}", text(source), text(target)));
        let contents = match self.disk.get(&tidy(source)) {
            Some(Inode { node: Node::File(c), .. }) => c.clone(),
            _ => return Err(CloneFault::Open("No such file or directory".into())),
        };
        if self.disk.contains_key(&tidy(target)) {
            return Err(CloneFault::Create("File exists".into()));
        }
        if !self.cow {
            self.put(target, Node::File(Vec::new()), 0o100644);
            return Err(CloneFault::Reflink("Operation not supported".into()));
        }
        self.put(target, Node::File(contents), 0o100600);
        Ok(Backend::LinuxReflink)
    }

    fn copy_new(&mut self, source: &[u8], target: &[u8]) -> Result<(), CopyFault> {
        self.log.push(format!("copy {} {}", text(source), text(target)));
        let contents = self.read_file(source).map_err(CopyFault::Transfer)?;
        if self.disk.contains_key(&tidy(target)) {
            return Err(CopyFault::Create("File exists".into()));
        }
        self.put(target, Node::File(contents), 0o100600);
        Ok(())
    }

    fn hard_link(&mut self, source: &[u8], target: &[u8]) -> Result<(), String> {
        self.log.push(format!("link {} {}", text(source), text(target)));
        let found = self.disk.get(&tidy(source)).ok_or("No such file or directory")?.clone();
        self.disk.insert(tidy(target), found);
        Ok(())
    }

    fn symlink(&mut self, target: &[u8], path: &[u8]) -> Result<(), String> {
        self.put(path, Node::Link(target.to_vec()), 0o120777);
        Ok(())
    }

    fn set_mode(&mut self, path: &[u8], mode: u32) -> Result<(), String> {
        self.log.push(format!("chmod {:o} {}", mode, text(path)));
        let ino = self.disk.get(&tidy(path)).ok_or("No such file or directory")?.ino;
        for inode in self.disk.values_mut() {
            if inode.ino == ino {
                inode.mode = (inode.mode & 0o170000) | mode;
            }
        }
        Ok(())
    }

    fn set_times(&mut self, path: &[u8], _accessed: Moment, modified: Moment) -> Result<(), String> {
        if let Some(inode) = self.disk.get_mut(&tidy(path)) {
            inode.modified = modified.seconds;
        }
        Ok(())
    }

    fn touch(&mut self, _path: &[u8]) -> Result<(), String> {
        Ok(())
    }

    fn strip_attributes(&mut self, _path: &[u8]) -> Result<(), String> {
        Ok(())
    }

    fn umask(&mut self) -> u32 {
        0o027
    }

    fn clock(&mut self) -> Result<u128, String> {
        Ok(77)
    }

    fn process_id(&mut self) -> u32 {
        42
    }

    fn on_linux(&mut self) -> bool {
        true
    }

    fn cancelled(&mut self) -> bool {
        self.asked_cancel += 1;
        self.cancel_after.is_some_and(|n| self.asked_cancel > n)
    }

    fn open_base(&mut self, path: &[u8]) -> Result<(), String> {
        self.base = tidy(path);
        Ok(())
    }

    fn descend(&mut self, name: &[u8]) -> Result<(), IoError> {
        let mut next = self.base.clone();
        next.push(b'/');
        next.extend_from_slice(name);
        match self.disk.get(&next) {
            Some(Inode { node: Node::Dir, .. }) => {
                self.base = next;
                Ok(())
            }
            Some(_) => {
                Err(IoError { kind: IoErrorKind::Other, message: "Not a directory".into() })
            }
            None => Err(missing()),
        }
    }

    fn make_below(&mut self, name: &[u8]) -> Result<(), String> {
        let mut next = self.base.clone();
        next.push(b'/');
        next.extend_from_slice(name);
        self.put(&next, Node::Dir, 0o040755);
        Ok(())
    }

    fn link_below(&mut self, target: &[u8], name: &[u8]) -> Result<(), String> {
        let mut next = self.base.clone();
        next.push(b'/');
        next.extend_from_slice(name);
        self.put(&next, Node::Link(target.to_vec()), 0o120777);
        Ok(())
    }

    fn clone_all(&mut self, jobs: &Vec<CloneJob>, umask: u32) -> CloneRound {
        let mut outcomes: Vec<CloneOutcome> = Vec::new();
        for (index, job) in jobs.iter().enumerate().rev() {
            if self.fatal_jobs {
                outcomes.push(CloneOutcome::Fatal(index, format!("job {index} failed")));
                continue;
            }
            let mut session = Session::new(std::mem::replace(self, Machine::new("/")));
            outcomes.push(fsclone::clone_job(&mut session, index, job, umask));
            *self = session.into_host();
        }
        if self.lose_outcomes {
            outcomes.pop();
        }
        CloneRound { outcomes, panicked: self.panicked }
    }

    fn forward(&mut self, stdout: &[u8], stderr: &[u8]) {
        self.forwarded.push((stdout.to_vec(), stderr.to_vec()));
    }
}

impl Machine {
    fn answer(&mut self, line: &str) -> Option<GitOutput> {
        let at = self.script.iter().position(|(words, _, _)| line.starts_with(words.as_str()))?;
        let (words, times, answer) = self.script[at].clone();
        if times == 1 {
            self.script.remove(at);
        } else if times > 1 {
            self.script[at] = (words, times - 1, answer.clone());
        }
        Some(answer)
    }
}

fn args(path: &str) -> AddArgs {
    AddArgs {
        branch: None,
        detach: false,
        inherit: false,
        from: None,
        allow_donor_links: false,
        require_cow: false,
        allow_copy: false,
        json: true,
        path: b(path),
        start_point: None,
    }
}

/// A repository at /repo whose commit holds the given entries.
fn repository(entries: &[(&str, &str, &str)]) -> Machine {
    let mut m = Machine::new("/repo");
    m.dir("/repo/.git");
    m.file("/repo/.git/index", "the index");
    m.says("--version", 0, "git version 2.47.1\n");
    m.says("rev-parse --show-toplevel", 0, "/repo\n");
    m.says("rev-parse --verify --quiet HEAD^{commit}", 0, "c0ffee\n");
    m.says("rev-parse --verify --quiet refs/heads/", 1, "");
    m.says("rev-parse --path-format=absolute --git-common-dir", 0, "/repo/.git\n");
    m.says("rev-parse --path-format=absolute --git-path index", 0, "/repo/.git/index\n");
    m.says("rev-parse --shared-index-path", 0, "\n");
    m.says("rev-parse --verify HEAD^{commit}", 0, "c0ffee\n");
    m.says("rev-parse HEAD^{commit}", 0, "c0ffee\n");
    m.says("config", 1, "");
    m.says("symbolic-ref", 0, "refs/heads/main\n");
    m.says("worktree list", 0, "worktree /repo\0HEAD c0ffee\0branch refs/heads/main\0\0");
    m.says("check-attr", 0, "");
    let mut listing = String::new();
    for (mode, oid, path) in entries {
        listing.push_str(&format!("{mode} {oid} 0\t{path}\0"));
    }
    m.says("ls-files --stage -z", 0, &listing);
    m
}

fn run(m: Machine, a: &AddArgs) -> (Result<add::report::Added, ramiz::error::RamizError>, Machine) {
    let mut session = Session::new(m);
    let r = add::run(&mut session, a);
    (r, session.into_host())
}

fn failure(r: Result<add::report::Added, ramiz::error::RamizError>) -> ramiz::error::RamizError {
    match r {
        Ok(_) => panic!("expected a failure"),
        Err(error) => error,
    }
}

fn success(r: Result<add::report::Added, ramiz::error::RamizError>) -> add::report::Added {
    match r {
        Ok(added) => added,
        Err(error) => panic!("{}: {}", error.data.code, error.data.message),
    }
}

// ---------------------------------------------------------------------------
// Clean worktrees
// ---------------------------------------------------------------------------

#[test]
fn clean_worktree_keeps_proven_clones_and_leaves_the_rest_to_git() {
    let mut m = repository(&[
        ("100644", "hash-same", "same"),
        ("100644", "hash-committed", "changed"),
        ("100644", "hash-filtered", "filtered"),
        ("120000", "hash-link", "link"),
        ("100755", "hash-tool", "tool"),
    ]);
    m.file("/repo/same", "same");
    m.file("/repo/changed", "edited");
    m.file("/repo/filtered", "filtered");
    m.link("/repo/link", "same");
    m.file("/repo/tool", "tool");
    m.script.retain(|(words, _, _)| words != "check-attr");
    m.says("check-attr", 0, "filtered\0filter\0lfs\0same\0text\0unset\0");
    let (r, m) = run(m, &args("/new"));
    let added = success(r);
    assert_eq!(added.data.cow_files, 1);
    assert_eq!(added.data.git_files, 4);
    assert_eq!(added.data.backend, "linux-reflink");
    assert_eq!(added.data.head.as_deref(), Some("c0ffee"));
    assert_eq!(added.data.path.display, "/new");
    assert_eq!(m.contents("/new/same").unwrap(), b"same");
    assert!(m.contents("/new/changed").is_none());
    assert!(m.contents("/new/filtered").is_none());
    let (_, input) = m.inputs.iter().find(|(line, _)| line.starts_with("checkout-index")).unwrap();
    assert_eq!(input, b"link\0tool\0filtered\0changed\0");
    assert_eq!(
        added.line(),
        "created /new at c0ffee via linux-reflink (1 CoW, 4 Git-materialized files)"
    );
    assert!(added.warnings.is_empty());
    assert!(m.did("chmod 640 /new/same"));
    assert!(m.did("git worktree add --no-checkout --no-guess-remote /new new"));
    assert!(m.did("git update-ref -m branch: Created from ramiz add refs/heads/new c0ffee 000000"));
    assert!(m.did("git hook run --ignore-missing post-checkout -- 000000 c0ffee 1"));
}

#[test]
fn clone_that_differs_from_the_commit_is_removed_and_checked_out() {
    let mut m = repository(&[("100644", "hash-same", "same")]);
    m.file("/repo/same", "same");
    // The donor's file hashes right, the clone does not.
    m.says_once("hash-object --no-filters -- /repo/same", ran(0, "hash-same\n", ""));
    m.says_once("hash-object --no-filters -- /new/same", ran(0, "hash-torn\r\n", ""));
    let (r, m) = run(m, &args("/new"));
    let added = success(r);
    assert_eq!((added.data.cow_files, added.data.git_files), (0, 1));
    assert!(m.did("remove /new/same"));
}

#[test]
fn line_end_settings_leave_every_file_to_git() {
    let mut m = repository(&[("100644", "hash-same", "same")]);
    m.file("/repo/same", "same");
    m.script.insert(0, ("config --get core.autocrlf".into(), 0, ran(0, "true\n", "")));
    let (r, m) = run(m, &args("/new"));
    assert_eq!(success(r).data.cow_files, 0);
    assert!(!m.did("git check-attr"));
    let mut m = repository(&[("100644", "hash-same", "same")]);
    m.file("/repo/same", "same");
    m.script.insert(0, ("config --get core.autocrlf".into(), 0, ran(0, "input\n", "")));
    let (r, _) = run(m, &args("/new"));
    assert_eq!(success(r).data.cow_files, 1);
}

#[test]
fn demanded_cow_is_refused_on_a_sparse_index_before_anything_is_made() {
    let mut m = repository(&[]);
    m.script.insert(0, ("config --bool core.sparseCheckout".into(), 0, ran(0, "true\n", "")));
    let mut a = args("/new");
    a.require_cow = true;
    let (r, m) = run(m, &a);
    let error = failure(r);
    assert_eq!(error.data.code, "cow_unsupported_index");
    assert_eq!(error.data.message, "sparse checkout is enabled");
    assert!(m.changed_nothing());
    a.require_cow = false;
    let mut m = repository(&[]);
    m.script.insert(0, ("config --bool core.sparseCheckout".into(), 0, ran(0, "true\n", "")));
    m.script.insert(0, ("rev-parse --shared-index-path".into(), 0, ran(0, "shared\n", "")));
    let (r, _) = run(m, &a);
    let added = success(r);
    assert_eq!(added.data.backend, "checkout");
    assert_eq!(
        added.warnings,
        ["copy-on-write skipped: sparse checkout and split index are enabled"]
    );
}

#[test]
fn missing_cow_falls_back_to_checkout_unless_it_is_demanded() {
    let mut m = repository(&[("100644", "hash-same", "same")]);
    m.cow = false;
    let (r, m) = run(m, &args("/new"));
    let added = success(r);
    assert_eq!(added.data.backend, "checkout");
    assert_eq!(added.data.git_files, 1);
    assert_eq!(
        added.warnings,
        ["copy-on-write unavailable: FICLONE /.ramiz-probe-42-77.source -> \
          /.ramiz-probe-42-77.target: Operation not supported"]
    );
    // The probe leaves nothing behind.
    assert!(!m.disk.keys().any(|k| text(k).contains("ramiz-probe")));
    let mut m = repository(&[]);
    m.cow = false;
    let mut a = args("/new");
    a.require_cow = true;
    let (r, m) = run(m, &a);
    assert_eq!(failure(r).data.code, "cow_unavailable");
    assert!(m.changed_nothing());
}

#[test]
fn bare_repository_is_checked_out_and_has_no_donor_to_clone() {
    let mut m = repository(&[("100644", "hash-same", "same")]);
    m.script.retain(|(words, _, _)| words != "rev-parse --show-toplevel");
    m.says("rev-parse --show-toplevel", 128, "");
    m.says("rev-parse --is-bare-repository", 0, "true\n");
    let (r, _) = run(m, &args("/new"));
    let added = success(r);
    assert_eq!(added.data.backend, "checkout");
    assert_eq!(added.warnings, ["copy-on-write skipped: bare repository has no donor"]);
    let mut m = repository(&[]);
    m.script.retain(|(words, _, _)| words != "rev-parse --show-toplevel");
    m.says("rev-parse --show-toplevel", 128, "");
    m.says("rev-parse --is-bare-repository", 0, "true\n");
    let mut a = args("/new");
    a.require_cow = true;
    let (r, _) = run(m, &a);
    assert_eq!(failure(r).data.code, "missing_donor");
}

#[test]
fn failed_checkout_takes_worktree_and_branch_back() {
    let mut m = repository(&[("120000", "hash-link", "link")]);
    m.says("checkout-index", 128, "");
    let (r, m) = run(m, &args("/new"));
    let error = failure(r);
    assert_eq!(error.data.code, "checkout_failed");
    assert_eq!(error.data.message, "git checkout-index failed");
    assert!(error.data.cleanup.is_none());
    assert!(error.data.worktree_created.is_none());
    assert!(m.did("git worktree remove --force /new"));
    assert!(m.did("git update-ref -d refs/heads/new c0ffee"));
    assert!(!m.disk.contains_key(b"/new".as_slice()));
    assert!(!m.did("git hook"));
}

#[test]
fn empty_destination_is_empty_again_after_a_failure() {
    let mut m = repository(&[("120000", "hash-link", "link")]);
    m.dir("/new");
    m.says("checkout-index", 128, "");
    let (r, m) = run(m, &args("/new"));
    assert_eq!(failure(r).data.code, "checkout_failed");
    assert!(m.did("mkdirs /new"));
    assert!(m.disk.contains_key(b"/new".as_slice()));
}

#[test]
fn what_cannot_be_taken_back_is_told() {
    let mut m = repository(&[("120000", "hash-link", "link")]);
    m.says("checkout-index", 128, "");
    m.says_once("worktree remove", ran(128, "", "locked"));
    m.script.retain(|(words, _, _)| words != "worktree list");
    m.says_once("worktree list", ran(0, "worktree /repo\0", ""));
    m.says("worktree list", 0, "worktree /new\0branch refs/heads/new\0\0");
    let (r, m) = run(m, &args("/new"));
    let error = failure(r);
    assert_eq!(
        error.data.cleanup.as_deref(),
        Some(
            "git worktree rollback failed; stderr: locked; owned branch refs/heads/new is checked \
             out; refusing to delete it; recover with `git worktree repair` and inspect `/new`"
        )
    );
    assert!(!m.did("git update-ref -d"));
}

#[test]
fn existing_branch_is_not_owned() {
    let mut m = repository(&[("120000", "hash-link", "link")]);
    m.script.insert(0, (
        "rev-parse --verify --quiet refs/heads/new^{commit}".into(),
        0,
        ran(0, "c0ffee\n", ""),
    ));
    m.says("checkout-index", 128, "");
    let (r, m) = run(m, &args("/new"));
    assert_eq!(failure(r).data.code, "checkout_failed");
    assert!(!m.did("git update-ref"));
    // Asked for as a new one, it is refused.
    let mut m = repository(&[]);
    m.script.insert(0, (
        "rev-parse --verify --quiet refs/heads/topic^{commit}".into(),
        0,
        ran(0, "c0ffee\n", ""),
    ));
    let mut a = args("/new");
    a.branch = Some("topic".into());
    let (r, m) = run(m, &a);
    let error = failure(r);
    assert_eq!(error.data.code, "branch_exists");
    assert_eq!(error.data.message, "branch 'topic' already exists");
    assert!(m.changed_nothing());
}

#[test]
fn refused_registration_deletes_only_the_branch() {
    let mut m = repository(&[]);
    m.says("worktree add", 128, "");
    let (r, m) = run(m, &args("/new"));
    assert_eq!(failure(r).data.code, "worktree_add_failed");
    assert!(!m.did("git worktree remove"));
    assert!(m.did("git update-ref -d refs/heads/new c0ffee"));
}

#[test]
fn detached_and_started_worktrees_make_no_branch() {
    let m = repository(&[]);
    let mut a = args("/new");
    a.detach = true;
    let (r, m) = run(m, &a);
    success(r);
    assert!(m.did("git worktree add --no-checkout --no-guess-remote --detach /new"));
    assert!(!m.did("git update-ref"));
    let mut m = repository(&[]);
    m.says("rev-parse --verify v1^{commit}", 0, "c0ffee\n");
    let mut a = args("/new");
    a.start_point = Some("v1".into());
    let (r, m) = run(m, &a);
    success(r);
    assert!(m.did("git worktree add --no-checkout --no-guess-remote /new v1"));
    assert!(!m.did("git update-ref"));
}

#[test]
fn moved_target_is_taken_back() {
    let mut m = repository(&[]);
    m.script.retain(|(words, _, _)| words != "rev-parse HEAD^{commit}");
    m.says("rev-parse HEAD^{commit}", 0, "decade\n");
    let (r, m) = run(m, &args("/new"));
    let error = failure(r);
    assert_eq!(error.data.code, "target_changed");
    assert_eq!(
        error.data.message,
        "git target stability check failed; stderr: target moved from c0ffee to decade during \
         registration"
    );
    assert!(m.did("git worktree remove --force /new"));
}

#[test]
fn dirty_worktree_is_taken_back() {
    let mut m = repository(&[]);
    m.says("status --porcelain=v1", 0, "?? stray\0");
    let (r, m) = run(m, &args("/new"));
    let error = failure(r);
    assert_eq!(error.data.code, "verification_failed");
    assert_eq!(
        error.data.message,
        "git worktree verification failed; stdout: ?? stray\0; stderr: materialized worktree does \
         not match the target index: ?? stray\\0"
    );
    assert!(m.did("git worktree remove --force /new"));
}

#[test]
fn failing_hook_keeps_the_worktree_and_passes_its_output_on() {
    let mut m = repository(&[]);
    m.says_once("hook run", ran(7, "out", "err"));
    let mut a = args("/new");
    a.json = false;
    let (r, m) = run(m, &a);
    let error = failure(r);
    assert_eq!(error.data.code, "post_checkout_failed");
    assert_eq!(error.data.message, "post-checkout hook failed with exit status 7");
    assert_eq!(error.data.worktree_created, Some(true));
    let output = error.data.hook_output.as_ref().unwrap();
    assert_eq!((output.encoding, output.stdout.as_str(), output.stderr.as_str()), (
        "base64", "b3V0", "ZXJy",
    ));
    assert!(!m.did("git worktree remove"));
    assert_eq!(m.forwarded, [(b("out"), b("err"))]);
    assert_eq!(error.exit_code(), 1);
    assert_eq!(
        error.lines(),
        ["ramiz: post-checkout hook failed with exit status 7"]
    );
    // With an envelope nothing is passed on; a signal has no status.
    let mut m = repository(&[]);
    m.says_once("hook run", GitOutput { code: None, stdout: Vec::new(), stderr: Vec::new() });
    let (r, m) = run(m, &args("/new"));
    assert_eq!(failure(r).data.message, "post-checkout hook failed with exit status signal");
    assert!(m.forwarded.is_empty());
}

#[test]
fn interruption_takes_the_worktree_back() {
    for asked in 0..6 {
        let mut m = repository(&[("100644", "hash-same", "same")]);
        m.file("/repo/same", "same");
        m.cancel_after = Some(asked);
        let (r, m) = run(m, &args("/new"));
        let error = failure(r);
        assert_eq!(error.data.code, "interrupted");
        assert_eq!(error.data.message, "creation interrupted");
        assert!(m.did("git worktree remove --force /new"));
        assert!(m.did("git update-ref -d refs/heads/new c0ffee"));
    }
    let mut session = Session::new(repository(&[]));
    assert!(!cancellation::requested(&mut session));
}

#[test]
fn clone_round_must_be_complete() {
    let entries = [("100644", "hash-a", "a"), ("100644", "hash-b", "b")];
    let build = || {
        let mut m = repository(&entries);
        m.file("/repo/a", "a");
        m.file("/repo/b", "b");
        m
    };
    let mut m = build();
    m.fatal_jobs = true;
    let (r, _) = run(m, &args("/new"));
    let error = failure(r);
    assert_eq!(error.data.code, "materialization_failed");
    assert_eq!(error.data.message, "job 0 failed");
    let mut m = build();
    m.lose_outcomes = true;
    let (r, _) = run(m, &args("/new"));
    assert_eq!(
        failure(r).data.message,
        "clean materialization workers returned incomplete results"
    );
    let mut m = build();
    m.panicked = true;
    let (r, _) = run(m, &args("/new"));
    assert_eq!(failure(r).data.message, "clean materialization worker panicked");
    let (r, _) = run(build(), &args("/new"));
    assert_eq!(success(r).data.cow_files, 2);
}

#[test]
fn destination_is_validated_before_anything_is_made() {
    let cases: [(&str, &str); 4] = [
        ("/repo", "unsafe_destination"),
        ("/repo/.git/inside", "unsafe_destination"),
        ("/file", "destination_exists"),
        ("/full", "destination_not_empty"),
    ];
    for (path, code) in cases {
        let mut m = repository(&[]);
        m.file("/file", "x");
        m.dir("/full");
        m.file("/full/x", "x");
        let (r, m) = run(m, &args(path));
        assert_eq!(failure(r).data.code, code, "{path}");
        assert!(m.changed_nothing());
    }
    let mut m = repository(&[]);
    m.script.retain(|(words, _, _)| words != "worktree list");
    m.dir("/new");
    m.says("worktree list", 0, "worktree /new\0");
    let (r, m) = run(m, &args("/new"));
    let error = failure(r);
    assert_eq!(error.data.code, "registered_destination_missing");
    assert_eq!(
        error.data.message,
        "/new is already registered as a Git worktree; use `git worktree repair` or `git worktree \
         prune`"
    );
    assert!(m.changed_nothing());
}

#[test]
fn relative_destination_is_below_the_current_directory() {
    let m = repository(&[]);
    let (r, m) = run(m, &args("../side/new"));
    // `/repo/..` does not exist on this machine, so nothing can be resolved.
    assert_eq!(failure(r).data.code, "invalid_destination");
    assert!(m.changed_nothing());
    let mut m = repository(&[]);
    m.dir("/repo/sub");
    let (r, _) = run(m, &args("sub/deep/new"));
    assert_eq!(success(r).data.path.display, "/repo/sub/deep/new");
}

#[test]
fn donor_of_another_repository_is_refused() {
    let mut m = repository(&[]);
    let mut a = args("/new");
    a.from = Some(b("/other"));
    m.script.retain(|(words, _, _)| !words.contains("git-common-dir"));
    m.says_once(
        "rev-parse --path-format=absolute --git-common-dir",
        ran(0, "/repo/.git\n", ""),
    );
    m.says("rev-parse --path-format=absolute --git-common-dir", 0, "/other/.git\n");
    let (r, m) = run(m, &a);
    assert_eq!(failure(r).data.code, "different_repository");
    assert!(m.changed_nothing());
}

#[test]
fn old_git_and_missing_commits_are_refused() {
    let mut m = repository(&[]);
    m.script.insert(0, ("--version".into(), 0, ran(0, "git version 2.41.9\n", "")));
    let (r, _) = run(m, &args("/new"));
    let error = failure(r);
    assert_eq!(error.data.code, "git_version");
    assert_eq!(
        error.data.message,
        "git version check failed; stdout: git version 2.41.9; stderr: Ramiz requires Git 2.42 or \
         newer; found 2.41.9"
    );
    let mut m = repository(&[]);
    m.script.insert(0, ("--version".into(), 0, ran(0, "git version 3.0.0-rc1\n", "")));
    let (r, _) = run(m, &args("/new"));
    success(r);
    let mut m = repository(&[]);
    m.script.insert(0, (
        "rev-parse --verify --quiet HEAD^{commit}".into(),
        0,
        ran(1, "", ""),
    ));
    m.says("rev-list", 0, "c0ffee\n");
    let (r, _) = run(m, &args("/new"));
    assert_eq!(failure(r).data.code, "invalid_head");
    let mut m = repository(&[]);
    m.script.insert(0, ("rev-parse --show-toplevel".into(), 0, ran(128, "", "not a repository")));
    let (r, _) = run(m, &args("/new"));
    let error = failure(r);
    assert_eq!(error.data.code, "not_a_repository");
    assert_eq!(
        error.data.message,
        "git repository discovery failed; stderr: not a repository"
    );
}

// ---------------------------------------------------------------------------
// Unborn worktrees
// ---------------------------------------------------------------------------

fn unborn() -> Machine {
    let mut m = repository(&[]);
    m.script.insert(0, (
        "rev-parse --verify --quiet HEAD^{commit}".into(),
        0,
        ran(1, "", ""),
    ));
    m.script.insert(0, ("rev-list".into(), 0, ran(0, "", "")));
    m
}

#[test]
fn unborn_detach_refuses_before_destination_creation() {
    let mut a = args("/detached");
    a.detach = true;
    let (r, m) = run(unborn(), &a);
    let error = failure(r);
    assert_ne!(error.exit_code(), 0);
    assert_eq!(error.data.code, "invalid_unborn_target");
    assert!(!m.disk.contains_key(b"/detached".as_slice()));
    assert!(m.changed_nothing());
}

#[test]
fn unborn_worktree_is_made_by_git_alone() {
    let mut m = unborn();
    m.script.retain(|(words, _, _)| words != "worktree list");
    m.says_once("worktree list", ran(0, "worktree /repo\0", ""));
    m.says("worktree list", 0, "worktree /repo\0\0worktree /new\0");
    let mut a = args("/new");
    a.branch = Some("first".into());
    let (r, m) = run(m, &a);
    let added = success(r);
    assert!(added.data.head.is_none());
    assert_eq!(added.data.backend, "linux-reflink");
    assert_eq!(
        added.line(),
        "created /new at unborn via linux-reflink (0 CoW, 0 Git-materialized files)"
    );
    assert_eq!(
        added.warning_lines(),
        ["warning: unborn HEAD follows native Git behavior and does not run post-checkout"]
    );
    assert!(m.did("git worktree add --quiet --no-guess-remote -b first /new"));
    assert!(!m.did("git hook"));
}

#[test]
fn wrong_unborn_worktree_is_taken_back() {
    // Git does not know the worktree afterwards.
    let (r, m) = run(unborn(), &args("/new"));
    let error = failure(r);
    assert_eq!(error.data.code, "unborn_verification_failed");
    assert!(m.did("git worktree remove --force /new"));
    // Git fails, but the worktree is there.
    let mut m = unborn();
    m.says("worktree add", 128, "");
    m.script.retain(|(words, _, _)| words != "worktree list");
    m.says_once("worktree list", ran(0, "worktree /repo\0", ""));
    m.says("worktree list", 0, "worktree /new\0");
    let (r, m) = run(m, &args("/new"));
    let error = failure(r);
    assert_eq!(error.data.code, "worktree_add_failed");
    assert_eq!(error.data.worktree_created, Some(true));
    assert!(!m.did("git worktree remove"));
}

// ---------------------------------------------------------------------------
// Inheritance
// ---------------------------------------------------------------------------

fn inheriting(path: &str) -> AddArgs {
    let mut a = args(path);
    a.inherit = true;
    a
}

fn lived_in() -> Machine {
    let mut m = repository(&[("100644", "hash-a", "a")]);
    m.file("/repo/a", "edited");
    m.dir("/repo/build");
    m.file("/repo/build/out", "ignored");
    m.hard("/repo/a", "/repo/b");
    m.link("/repo/relative", "a");
    m.put(b"/repo/live.sock", Node::Socket, 0o140755);
    m.says("status --porcelain=v2", 0, "1 .M a\0");
    m.says("ls-files -v -z", 0, "H a\0");
    m
}

impl Machine {
    fn hard(&mut self, first: &str, second: &str) {
        let found = self.disk[&tidy(first.as_bytes())].clone();
        self.disk.insert(tidy(second.as_bytes()), found);
    }
}

#[test]
fn inheritance_copies_the_complete_state() {
    let (r, m) = run(lived_in(), &inheriting("/new"));
    let added = success(r);
    assert_eq!(added.data.cow_files, 2);
    assert_eq!(added.data.hardlinks, 1);
    assert_eq!(added.data.copied_files, 0);
    assert_eq!(added.data.git_files, 0);
    assert_eq!(added.data.backend, "linux-reflink");
    assert_eq!(added.data.inherited_symlinks.len(), 1);
    assert_eq!(added.data.inherited_symlinks[0].display, "relative");
    assert_eq!(added.data.skipped_special.len(), 1);
    assert_eq!(added.data.skipped_special[0].display, "live.sock");
    assert!(added.data.donor_links.is_empty());
    assert_eq!(m.contents("/new/a").unwrap(), b"edited");
    assert_eq!(m.contents("/new/build/out").unwrap(), b"ignored");
    assert_eq!(m.disk[b"/new/a".as_slice()].ino, m.disk[b"/new/b".as_slice()].ino);
    assert_ne!(m.disk[b"/new/a".as_slice()].ino, m.disk[b"/repo/a".as_slice()].ino);
    assert_eq!(
        added.warnings,
        [
            "directory/symlink ACLs and xattrs are not copied; platform metadata may differ",
            "FICLONE preserves data extents only; file ACLs and xattrs are not copied",
        ]
    );
    assert!(m.did("git update-index --no-fsmonitor --no-untracked-cache"));
}

#[test]
fn donor_is_left_alone() {
    let before = lived_in();
    let donors: Vec<(Vec<u8>, u64, u32, i64)> = before
        .disk
        .iter()
        .filter(|(path, _)| path.starts_with(b"/repo"))
        .filter(|(path, _)| !path.starts_with(b"/repo/.git/worktrees/"))
        .map(|(path, x)| (path.clone(), x.ino, x.mode, x.modified))
        .collect();
    let (r, m) = run(before, &inheriting("/new"));
    success(r);
    let after: Vec<(Vec<u8>, u64, u32, i64)> = m
        .disk
        .iter()
        .filter(|(path, _)| path.starts_with(b"/repo"))
        .filter(|(path, _)| !path.starts_with(b"/repo/.git/worktrees/"))
        .map(|(path, x)| (path.clone(), x.ino, x.mode, x.modified))
        .collect();
    assert_eq!(after, donors);
    assert!(m.did("link /new/a /new/b"));
}

#[test]
fn what_was_taken_back_is_not_taken_back_again() {
    let mut t = add::transaction::Transaction {
        repository: b("/repo"),
        destination: b("/new"),
        existed_empty: false,
        branch_ref: Some("refs/heads/new".into()),
        created_oid: Some("c0ffee".into()),
        registered: true,
        rollback_enabled: true,
    };
    let mut session = Session::new(repository(&[]));
    assert_eq!(t.rollback(&mut session), None);
    let m = session.into_host();
    assert!(m.did("git worktree remove --force /new"));
    assert!(m.did("git update-ref -d refs/heads/new c0ffee"));
    let so_far = m.log.len();
    let mut session = Session::new(m);
    assert_eq!(t.rollback(&mut session), None);
    assert_eq!(session.into_host().log.len(), so_far);
}

#[test]
fn inheritance_of_another_commit_is_refused_before_anything_is_made() {
    let mut m = lived_in();
    m.says("rev-parse --verify other^{commit}", 0, "decade\n");
    let mut a = inheriting("/new");
    a.branch = Some("topic".into());
    a.start_point = Some("other".into());
    let (r, m) = run(m, &a);
    let error = failure(r);
    assert_eq!(error.data.code, "inheritance_target_mismatch");
    assert_eq!(
        error.data.message,
        "inheritance target decade does not equal donor HEAD c0ffee"
    );
    assert!(m.changed_nothing());
    assert!(!m.disk.contains_key(b"/new".as_slice()));
}

#[test]
fn inheritance_into_the_donor_is_refused() {
    let (r, m) = run(lived_in(), &inheriting("/repo/build/new"));
    assert_eq!(failure(r).data.code, "inheritance_destination_overlap");
    assert!(m.changed_nothing());
    let mut m = lived_in();
    m.script.insert(0, ("rev-parse --shared-index-path".into(), 0, ran(0, "shared\n", "")));
    let (r, m) = run(m, &inheriting("/new"));
    assert_eq!(failure(r).data.code, "inheritance_unsupported_index");
    assert!(m.changed_nothing());
}

#[test]
fn nested_repository_is_refused_before_anything_is_made() {
    for nested in [vec!["/repo/sub/.git"], vec!["/repo/sub/HEAD"]] {
        let mut m = lived_in();
        m.dir("/repo/sub");
        for path in nested {
            m.file(path, "x");
        }
        m.dir("/repo/sub/objects");
        m.dir("/repo/sub/refs");
        let (r, m) = run(m, &inheriting("/new"));
        let error = failure(r);
        assert_eq!(error.data.code, "inheritance_preflight");
        assert_eq!(error.data.message, "nested repository: sub");
        assert!(m.changed_nothing());
    }
}

#[test]
fn links_into_the_donor_need_leave() {
    let build = || {
        let mut m = lived_in();
        m.link("/repo/bridge", "/repo");
        m.link("/repo/indirect", "bridge/missing");
        m
    };
    let (r, m) = run(build(), &inheriting("/new"));
    let error = failure(r);
    assert_eq!(error.data.code, "inheritance_materialization_failed");
    assert_eq!(error.data.message, "inherited symlink points into donor: bridge");
    assert!(!m.did("clone /repo/a /new/a"));
    assert!(m.did("git worktree remove --force /new"));
    let mut a = inheriting("/new");
    a.allow_donor_links = true;
    let (r, _) = run(build(), &a);
    let added = success(r);
    let names: Vec<&str> = added.data.donor_links.iter().map(|p| p.display.as_str()).collect();
    assert_eq!(names, ["bridge", "indirect"]);
}

#[test]
fn link_loops_are_refused() {
    let mut m = lived_in();
    m.link("/repo/x", "y");
    m.link("/repo/y", "x");
    let (r, _) = run(m, &inheriting("/new"));
    assert_eq!(failure(r).data.message, "resolve symlink x: symlink resolution loop");
}

#[test]
fn physical_copies_need_leave() {
    let mut m = lived_in();
    m.cow = false;
    let (r, m) = run(m, &inheriting("/new"));
    assert_eq!(failure(r).data.code, "cow_unavailable");
    assert!(m.changed_nothing());
    let mut m = lived_in();
    m.cow = false;
    let mut a = inheriting("/new");
    a.allow_copy = true;
    let (r, m) = run(m, &a);
    let added = success(r);
    assert_eq!((added.data.copied_files, added.data.cow_files), (2, 0));
    assert_eq!(added.data.backend, "copy");
    assert_eq!(m.contents("/new/a").unwrap(), b"edited");
    assert!(added.warnings.contains(
        &"physical copy a: sparse layout and extended metadata may differ".to_string()
    ));
    assert!(added.warnings[0]
        .starts_with("copy-on-write unavailable; physical copy authorized: FICLONE"));
}

#[test]
fn changed_donor_takes_the_worktree_back() {
    let mut m = lived_in();
    m.change_after = Some(("update-index".into(), b("/repo/a")));
    let (r, m) = run(m, &inheriting("/new"));
    let error = failure(r);
    assert_eq!(error.data.code, "donor_changed");
    assert_eq!(error.data.message, "donor filesystem changed during inheritance");
    assert!(m.did("git worktree remove --force /new"));
    let mut m = lived_in();
    m.change_after = Some(("worktree add".into(), b("/repo/build/out")));
    let (r, _) = run(m, &inheriting("/new"));
    let error = failure(r);
    assert_eq!(error.data.code, "inheritance_materialization_failed");
    assert_eq!(error.data.message, "donor changed before copying build/out");
    // The branch of the donor is another one in the end.
    let mut m = lived_in();
    m.script.retain(|(words, _, _)| words != "symbolic-ref");
    m.says_once("symbolic-ref", ran(0, "refs/heads/main\n", ""));
    m.says("symbolic-ref", 0, "refs/heads/other\n");
    let (r, _) = run(m, &inheriting("/new"));
    let error = failure(r);
    assert_eq!(error.data.code, "donor_changed");
    assert_eq!(error.data.message, "donor Git/index state changed during inheritance");
}

#[test]
fn inherited_state_must_be_the_donors() {
    let mut m = lived_in();
    m.script.retain(|(words, _, _)| words != "status --porcelain=v2");
    m.says_once("status --porcelain=v2", ran(0, "1 .M a\0", ""));
    m.says_once("status --porcelain=v2", ran(0, "1 .M a\0", ""));
    m.says("status --porcelain=v2", 0, "1 .D a\0");
    let (r, m) = run(m, &inheriting("/new"));
    let error = failure(r);
    assert_eq!(error.data.code, "inheritance_verification_failed");
    assert!(m.did("git worktree remove --force /new"));
}

#[test]
fn tracked_links_come_from_git_and_go_below_directories_only() {
    let build = || {
        let mut m = repository(&[("120000", "link-oid", "dir/link")]);
        m.dir("/repo/dir");
        m.says("status --porcelain=v2", 0, "");
        m.says("ls-files -v -z", 0, "");
        m.says("cat-file blob link-oid", 0, "../target");
        m
    };
    let (r, m) = run(build(), &inheriting("/new"));
    let added = success(r);
    assert_eq!(added.data.git_files, 1);
    match &m.disk[b"/new/dir/link".as_slice()].node {
        Node::Link(t) => assert_eq!(t, b"../target"),
        _ => panic!("no link"),
    }
    let mut m = build();
    m.disk.remove(b"/repo/dir".as_slice());
    m.link("/repo/dir", "/outside");
    let (r, m) = run(m, &inheriting("/new"));
    let error = failure(r);
    assert_eq!(error.data.code, "target_symlink_ancestor");
    assert_eq!(
        error.data.message,
        "target symlink dir/link has non-directory donor ancestor dir"
    );
    assert!(!m.disk.contains_key(b"/outside/link".as_slice()));
    assert!(m.did("git worktree remove --force /new"));
}

#[test]
fn records_are_in_order_and_compare() {
    let mut session = Session::new(lived_in());
    let before = match inherit::snapshot(&mut session, b"/repo") {
        Ok(before) => before,
        Err(error) => panic!("{error}"),
    };
    let names: Vec<String> = before.items.iter().map(|x| text(&x.path)).collect();
    assert_eq!(names, ["", "a", "b", "build", "build/out", "live.sock", "relative"]);
    assert!(inherit::verify_unchanged(&mut session, &before).is_ok());
    let mut m = session.into_host();
    m.file("/repo/new", "x");
    let mut session = Session::new(m);
    assert_eq!(
        inherit::verify_unchanged(&mut session, &before),
        Err("donor filesystem changed during inheritance".to_string())
    );
}

#[test]
fn copied_directories_get_the_donors_mode_from_the_inside_out() {
    let mut m = Machine::new("/donor");
    m.dir("/donor/a");
    m.put(b"/donor/a/b", Node::Dir, 0o042555);
    m.dir("/copy");
    m.dir("/copy/a");
    m.dir("/copy/a/b");
    let mut session = Session::new(m);
    let before = match inherit::snapshot(&mut session, b"/donor") {
        Ok(before) => before,
        Err(error) => panic!("{error}"),
    };
    assert!(inherit::finalize_directories(&mut session, &before, b"/copy", &Vec::new()).is_ok());
    let m = session.into_host();
    let modes: Vec<&String> = m.log.iter().filter(|l| l.starts_with("chmod")).collect();
    assert_eq!(modes, ["chmod 555 /copy/a/b", "chmod 755 /copy/a", "chmod 755 /copy/"]);
}

// ---------------------------------------------------------------------------
// Git
// ---------------------------------------------------------------------------

#[test]
fn index_records_are_read_or_refused() {
    let entry = match git::parse_index_entry(b"100755 abc 2\tdir/\xffname") {
        Ok(entry) => entry,
        Err(failure) => panic!("{}", failure.message()),
    };
    assert_eq!((entry.mode, entry.oid.as_str(), entry.stage), (0o100755, "abc", 2));
    assert_eq!(entry.path, b"dir/\xffname");
    let cases: [(&[u8], &str); 5] = [
        (b"100644 abc 0 path", "missing index path separator"),
        (b"\xff\tpath", "non-UTF-8 index header"),
        (b"100648 abc 0\tpath", "invalid index mode"),
        (b"100644 abc 256\tpath", "invalid index stage"),
        (b"100644 abc\tpath", "invalid index stage"),
    ];
    for (record, message) in cases {
        match git::parse_index_entry(record) {
            Ok(_) => panic!("{message}"),
            Err(failure) => assert_eq!(
                failure.message(),
                format!("git index parse failed; stderr: {message}")
            ),
        }
    }
}

#[test]
fn attributes_are_read_in_triples() {
    let paths = vec![b("a"), b("b"), b("c")];
    let flags = |answer: &[u8]| match git::attributed(answer, &paths) {
        Ok(flags) => flags,
        Err(failure) => panic!("{}", failure.message()),
    };
    assert_eq!(flags(b""), [false, false, false]);
    assert_eq!(flags(b"c\0eol\0crlf\0a\0diff\0auto\0"), [false, false, true]);
    assert_eq!(flags(b"a\0ident\0set\0b\0text\0unspecified\0"), [true, false, false]);
    // An attribute may have an empty value.
    assert_eq!(flags(b"b\0aaa\0\0b\0filter\0ramiz-test\0"), [false, true, false]);
    assert_eq!(flags(b"b\0aaa\0\0"), [false, false, false]);
    assert!(git::attributed(b"a\0text\0", &paths).is_err());
    assert!(git::attributed(b"stranger\0text\0set\0", &paths).is_err());
}

#[test]
fn files_are_hashed_in_batches() {
    let mut m = Machine::new("/");
    let mut paths: Vec<Vec<u8>> = Vec::new();
    for n in 0..300 {
        m.file(&format!("/f{n}"), &format!("{n}"));
        paths.push(b(&format!("/f{n}")));
    }
    let mut session = Session::new(m);
    let hashes = match git::hash_files(&mut session, b"/", &paths) {
        Ok(hashes) => hashes,
        Err(_) => panic!("hashing failed"),
    };
    assert_eq!(hashes.len(), 300);
    assert_eq!(hashes[0], "hash-0");
    assert_eq!(hashes[299], "hash-299");
    let m = session.into_host();
    let sizes: Vec<usize> = m
        .log
        .iter()
        .filter(|l| l.starts_with("git hash-object"))
        .map(|l| l.split(' ').count() - 4)
        .collect();
    assert_eq!(sizes, [128, 128, 44]);
    // Long paths make smaller batches; one that is too long goes alone.
    let long: Vec<Vec<u8>> = (0..3).map(|n| vec![b'a' + n; 40000]).collect();
    let mut m = Machine::new("/");
    m.says("hash-object", 0, "one\n");
    let mut session = Session::new(m);
    assert!(git::hash_files(&mut session, b"/", &long).is_ok());
    let m = session.into_host();
    assert_eq!(m.log.len(), 3);
    // A count that does not fit is refused, and so is going on when asked to stop.
    let mut m = Machine::new("/");
    m.says("hash-object", 0, "one\ntwo\n");
    match git::hash_files(&mut Session::new(m), b"/", &vec![b("/x")]) {
        Err(git::HashFilesError::Git(failure)) => assert_eq!(
            failure.message(),
            "git index parse failed; stderr: git hash-object returned an unexpected hash count"
        ),
        _ => panic!("expected a failure"),
    }
    let mut m = Machine::new("/");
    m.cancel_after = Some(0);
    assert!(matches!(
        git::hash_files(&mut Session::new(m), b"/", &vec![b("/x")]),
        Err(git::HashFilesError::Cancelled)
    ));
}

#[test]
fn git_runs_in_its_directory_with_a_clean_environment() {
    let call = GitCall { cwd: b("/repo"), args: vec![b("status")], input: None, lockless: true };
    assert_eq!(call.command_line(), [b("-C"), b("/repo"), b("status")]);
    assert_eq!(call.settings(), [("GIT_TERMINAL_PROMPT", "0"), ("GIT_OPTIONAL_LOCKS", "0")]);
    let call = GitCall { cwd: b("/"), args: Vec::new(), input: None, lockless: false };
    assert_eq!(call.settings(), [("GIT_TERMINAL_PROMPT", "0")]);
    assert!(git::cleared_variables().contains(&"GIT_INDEX_FILE"));
    assert_eq!(git::cleared_variables().len(), 9);
}

#[test]
fn failures_of_git_say_what_it_printed() {
    let say = |stdout: &[u8], stderr: &[u8]| {
        git::GitFailure {
            operation: "git test",
            code: Some(1),
            stdout: stdout.to_vec(),
            stderr: stderr.to_vec(),
        }
        .message()
    };
    assert_eq!(say(b"", b" \n"), "git test failed");
    assert_eq!(say(b"out\n", b""), "git test failed; stdout: out");
    assert_eq!(say(b"", b"err\n"), "git test failed; stderr: err");
    assert_eq!(say(b"out", b"\xff"), "git test failed; stdout: out; stderr: \u{fffd}");
}

#[test]
fn installed_index_replaces_the_old_one_at_once() {
    let mut m = Machine::new("/g");
    m.file("/g/index", "old");
    let mut session = Session::new(m);
    assert!(git::install_index(&mut session, b"new", b"/g/index").is_ok());
    let m = session.into_host();
    assert_eq!(m.contents("/g/index").unwrap(), b"new");
    assert!(m.did("write /g/.index.ramiz-42"));
    let mut m = Machine::new("/g");
    m.file("/g/.index.ramiz-42", "left over");
    let mut session = Session::new(m);
    assert_eq!(
        git::install_index(&mut session, b"new", b"/g/index"),
        Err("File exists".to_string())
    );
    assert!(session.into_host().did("remove /g/.index.ramiz-42"));
}

// ---------------------------------------------------------------------------
// Clones and probes
// ---------------------------------------------------------------------------

#[test]
fn probe_reports_what_it_could_not_remove() {
    let mut m = Machine::new("/d");
    m.refuse_remove.insert(b("/d/.ramiz-probe-42-77.source"));
    let mut session = Session::new(m);
    assert_eq!(
        fsclone::probe(&mut session, b"/d"),
        Err("probe cleanup failed: remove /d/.ramiz-probe-42-77.source: denied".to_string())
    );
    let mut m = Machine::new("/d");
    m.file("/d/.ramiz-probe-42-77.source", "x");
    let mut session = Session::new(m);
    assert_eq!(
        fsclone::probe(&mut session, b"/d"),
        Err("create probe in /d: File exists".to_string())
    );
    let mut session = Session::new(Machine::new("/d"));
    assert_eq!(fsclone::probe(&mut session, b"/d"), Ok(Backend::LinuxReflink));
    assert_eq!(Backend::Apfs.as_str(), "apfs");
}

#[test]
fn refused_reflink_leaves_no_target() {
    let mut m = Machine::new("/d");
    m.file("/d/a", "x");
    m.cow = false;
    let mut session = Session::new(m);
    assert_eq!(
        fsclone::clone_file(&mut session, b"/d/a", b"/d/b"),
        Err("FICLONE /d/a -> /d/b: Operation not supported".to_string())
    );
    let m = session.into_host();
    assert!(!m.disk.contains_key(b"/d/b".as_slice()));
    let mut session = Session::new(m);
    assert_eq!(
        fsclone::clone_file(&mut session, b"/d/none", b"/d/b"),
        Err("open /d/none: No such file or directory".to_string())
    );
}

#[test]
fn job_ends_with_a_clone_or_with_nothing() {
    let mut m = Machine::new("/d");
    m.file("/d/a", "x");
    let job = CloneJob { source: b("/d/a"), target: b("/w/sub/a"), executable: true };
    let mut session = Session::new(m);
    assert!(matches!(
        fsclone::clone_job(&mut session, 3, &job, 0o022),
        CloneOutcome::Retained(3)
    ));
    let m = session.into_host();
    assert!(m.did("mkdirs /w/sub"));
    assert!(m.did("chmod 755 /w/sub/a"));
    let job = CloneJob { source: b("/d/none"), target: b("/w/sub/b"), executable: false };
    let mut session = Session::new(m);
    assert!(matches!(
        fsclone::clone_job(&mut session, 4, &job, 0o022),
        CloneOutcome::Checkout(4)
    ));
    assert!(session.into_host().did("remove /w/sub/b"));
}

#[test]
fn doctor_probes_the_nearest_directory() {
    let probe = |m: Machine, path: Option<&str>| {
        let a = DoctorArgs { path: path.map(b), json: true };
        doctor::run(&mut Session::new(m), &a)
    };
    let found = match probe(Machine::new("/d"), Some("/d/not/there")) {
        Ok(found) => found,
        Err(error) => panic!("{}", error.data.message),
    };
    assert!(found.available);
    assert_eq!(found.line(), "/d: copy-on-write available via linux-reflink");
    let mut m = Machine::new("/d");
    m.cow = false;
    let found = match probe(m, None) {
        Ok(found) => found,
        Err(error) => panic!("{}", error.data.message),
    };
    assert!(!found.available && found.backend.is_none());
    assert_eq!(
        found.line(),
        "/d: copy-on-write unavailable (FICLONE /d/.ramiz-probe-42-77.source -> \
         /d/.ramiz-probe-42-77.target: Operation not supported)"
    );
    let mut m = Machine::new("/d");
    m.file("/d/file", "x");
    match probe(m, Some("/d/file")) {
        Ok(_) => panic!("a file is no directory"),
        Err(error) => {
            assert_eq!(error.data.code, "invalid_probe_path");
            assert_eq!(error.data.message, "/d/file is not a directory");
        }
    }
}
