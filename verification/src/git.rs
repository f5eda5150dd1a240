//! What is asked of Git, and how its answers are read.
use crate::host::{
    cancelled_at, canonicalize_at, git_at, process_id_at, remove_file_at, rename_at,
    sync_directory_at, write_new_at, CallView, Event, GitCall, GitOutput, GitOutputView, Host,
    Session, WriteFault, WriteFaultView,
};
use crate::order::NameSet;
use crate::outside::{lossy, lossy_text, utf8_text};
use crate::path::{name_of, parent_of, renamed, same_path, steps};
use crate::text::{
    append_texts, begins, bytes_begin, copy, copy_range, decimal, decimal_text, extend,
    parse_unsigned, pieces, same, same_bytes, split_bytes, split_text, stripped, text2, text4,
    text_begins, text_views, trim, unsigned_value, utf8, utf8_of, views,
};
use crate::update::io::extends;
use vstd::prelude::*;

verus! {

/// A failure of Git, or of what was read from it.
pub struct GitFailure {
    pub operation: &'static str,
    pub code: Option<i32>,
    pub stdout: Vec<u8>,
    pub stderr: Vec<u8>,
}

/// The model of a [`GitFailure`].
#[verifier::ext_equal]
pub struct GitFailureView {
    pub operation: Seq<char>,
    pub code: Option<i32>,
    pub stdout: Seq<u8>,
    pub stderr: Seq<u8>,
}

impl View for GitFailure {
    type V = GitFailureView;

    open spec fn view(&self) -> GitFailureView {
        GitFailureView {
            operation: self.operation@,
            code: self.code,
            stdout: self.stdout@,
            stderr: self.stderr@,
        }
    }
}

/// A stream of a failure in its message.
pub open spec fn stream_part(label: Seq<char>, bytes: Seq<u8>) -> Seq<char> {
    let said = stripped(lossy_text(bytes));
    if said.len() == 0 {
        Seq::empty()
    } else {
        label + said
    }
}

impl GitFailureView {
    /// The failure in words: what was being done, and what Git printed.
    pub open spec fn text(self) -> Seq<char> {
        self.operation + " failed"@ + stream_part("; stdout: "@, self.stdout) + stream_part(
            "; stderr: "@,
            self.stderr,
        )
    }
}

fn stream_text(label: &str, bytes: &[u8]) -> (r: String)
    ensures
        r@ == stream_part(label@, bytes@),
{
    let said = trim(lossy(bytes).as_str());
    if said.as_str().is_empty() {
        String::new()
    } else {
        text2(label, said.as_str())
    }
}

impl GitFailure {
    /// The failure in words.
    pub fn message(&self) -> (r: String)
        ensures
            r@ == self@.text(),
    {
        text4(
            self.operation,
            " failed",
            stream_text("; stdout: ", self.stdout.as_slice()).as_str(),
            stream_text("; stderr: ", self.stderr.as_slice()).as_str(),
        )
    }
}

/// Git could not be run, or not to its end.
pub open spec fn synthetic(operation: Seq<char>, error: Seq<char>) -> GitFailureView {
    GitFailureView { operation, code: None, stdout: Seq::empty(), stderr: utf8(error) }
}

/// Git ran and failed.
pub open spec fn failed(operation: Seq<char>, output: GitOutputView) -> GitFailureView {
    GitFailureView { operation, code: output.code, stdout: output.stdout, stderr: output.stderr }
}

/// What Git printed could not be read.
pub open spec fn unreadable(message: Seq<char>) -> GitFailureView {
    synthetic("git index parse"@, message)
}

fn synthetic_failure(operation: &'static str, error: &str) -> (r: GitFailure)
    ensures
        r@ == synthetic(operation@, error@),
{
    let r = GitFailure {
        operation,
        code: None,
        stdout: Vec::new(),
        stderr: copy(utf8_of(error)),
    };
    assert(r@.stdout =~= Seq::<u8>::empty());
    r
}

fn failure_of(operation: &'static str, output: GitOutput) -> (r: GitFailure)
    ensures
        r@ == failed(operation@, output@),
{
    GitFailure { operation, code: output.code, stdout: output.stdout, stderr: output.stderr }
}

fn parse_failure(message: &str) -> (r: GitFailure)
    ensures
        r@ == unreadable(message@),
{
    synthetic_failure("git index parse", message)
}

/// The target of a new worktree is not the one that was settled on.
pub open spec fn target_moved(expected: Seq<char>, target: Seq<char>) -> GitFailureView {
    synthetic(
        "git target stability check"@,
        "target moved from "@ + expected + " to "@ + target + " during registration"@,
    )
}

/// The target of a new worktree is not the one that was settled on.
pub fn target_failure(expected: &str, target: &str) -> (r: GitFailure)
    ensures
        r@ == target_moved(expected@, target@),
{
    let message = crate::text::text5(
        "target moved from ",
        expected,
        " to ",
        target,
        " during registration",
    );
    synthetic_failure("git target stability check", message.as_str())
}

// ---------------------------------------------------------------------------
// Views of results
// ---------------------------------------------------------------------------

/// The view of a result.
pub open spec fn said<T: View>(r: Result<T, GitFailure>) -> Result<T::V, GitFailureView> {
    match r {
        Ok(value) => Ok(value@),
        Err(failure) => Err(failure@),
    }
}

/// The view of a result that may be missing.
pub open spec fn said_if<T: View>(r: Result<Option<T>, GitFailure>) -> Result<
    Option<T::V>,
    GitFailureView,
> {
    match r {
        Ok(Some(value)) => Ok(Some(value@)),
        Ok(None) => Ok(None),
        Err(failure) => Err(failure@),
    }
}

/// The failure of an operation that returns nothing.
pub open spec fn refused(r: Result<(), GitFailure>) -> Option<GitFailureView> {
    match r {
        Ok(_) => None,
        Err(failure) => Some(failure@),
    }
}

// ---------------------------------------------------------------------------
// Running Git
// ---------------------------------------------------------------------------

/// Git in `cwd` with `args`.
pub open spec fn plain_call(cwd: Seq<u8>, args: Seq<Seq<u8>>) -> CallView {
    CallView { cwd, args, input: None, lockless: false }
}

/// Git in `cwd` with `args`, reading `input`.
pub open spec fn fed_call(cwd: Seq<u8>, args: Seq<Seq<u8>>, input: Seq<u8>) -> CallView {
    CallView { cwd, args, input: Some(input), lockless: false }
}

/// The variables that are taken out of Git's environment, so that it works on
/// the directory it was given and no other.
pub fn cleared_variables() -> (r: Vec<&'static str>)
    ensures
        r@.map_values(|v: &'static str| v@) == seq![
            "GIT_DIR"@,
            "GIT_WORK_TREE"@,
            "GIT_INDEX_FILE"@,
            "GIT_OBJECT_DIRECTORY"@,
            "GIT_ALTERNATE_OBJECT_DIRECTORIES"@,
            "GIT_COMMON_DIR"@,
            "GIT_PREFIX"@,
            "GIT_NAMESPACE"@,
            "GIT_CEILING_DIRECTORIES"@,
        ],
{
    let mut out: Vec<&'static str> = Vec::new();
    out.push("GIT_DIR");
    out.push("GIT_WORK_TREE");
    out.push("GIT_INDEX_FILE");
    out.push("GIT_OBJECT_DIRECTORY");
    out.push("GIT_ALTERNATE_OBJECT_DIRECTORIES");
    out.push("GIT_COMMON_DIR");
    out.push("GIT_PREFIX");
    out.push("GIT_NAMESPACE");
    out.push("GIT_CEILING_DIRECTORIES");
    assert(out@.map_values(|v: &'static str| v@) =~= seq![
        "GIT_DIR"@,
        "GIT_WORK_TREE"@,
        "GIT_INDEX_FILE"@,
        "GIT_OBJECT_DIRECTORY"@,
        "GIT_ALTERNATE_OBJECT_DIRECTORIES"@,
        "GIT_COMMON_DIR"@,
        "GIT_PREFIX"@,
        "GIT_NAMESPACE"@,
        "GIT_CEILING_DIRECTORIES"@,
    ]);
    out
}

impl GitCall {
    /// The arguments that Git is run with: the directory comes first.
    pub fn command_line(&self) -> (r: Vec<Vec<u8>>)
        ensures
            views(r@) == seq![utf8("-C"@), self@.cwd] + self@.args,
    {
        let mut out: Vec<Vec<u8>> = Vec::new();
        out.push(word("-C"));
        out.push(copy(self.cwd.as_slice()));
        assert(views(out@) =~= seq![utf8("-C"@), self@.cwd]);
        push_all(&mut out, &self.args);
        out
    }

    /// The variables that are set for Git: it asks no questions, and takes no
    /// lock that it can do without where it must not.
    pub fn settings(&self) -> (r: Vec<(&'static str, &'static str)>)
        ensures
            r@.len() == (if self.lockless {
                2nat
            } else {
                1
            }),
            r@[0].0@ == "GIT_TERMINAL_PROMPT"@ && r@[0].1@ == "0"@,
            self.lockless ==> r@[1].0@ == "GIT_OPTIONAL_LOCKS"@ && r@[1].1@ == "0"@,
    {
        let mut out: Vec<(&'static str, &'static str)> = Vec::new();
        out.push(("GIT_TERMINAL_PROMPT", "0"));
        if self.lockless {
            out.push(("GIT_OPTIONAL_LOCKS", "0"));
        }
        out
    }
}

/// A word of a command line.
pub fn word(text: &str) -> (r: Vec<u8>)
    ensures
        r@ == utf8(text@),
{
    copy(utf8_of(text))
}

/// Appends copies of `more`.
pub fn push_all(out: &mut Vec<Vec<u8>>, more: &Vec<Vec<u8>>)
    ensures
        views(final(out)@) == views(old(out)@) + views(more@),
{
    let ghost start = views(out@);
    assert(start + views(more@).take(0) =~= start);
    for i in 0..more.len()
        invariant
            views(out@) == start + views(more@).take(i as int),
    {
        let ghost before = views(out@);
        out.push(copy(more[i].as_slice()));
        assert(views(out@) =~= before.push(more@[i as int]@));
        assert(views(more@).take(i + 1) =~= views(more@).take(i as int).push(more@[i as int]@));
    }
    assert(views(more@).take(more@.len() as int) =~= views(more@));
}

/// A command line of the given words.
pub fn words(texts: &[&str]) -> (r: Vec<Vec<u8>>)
    ensures
        views(r@) == texts@.map_values(|t: &str| utf8(t@)),
{
    let mut out: Vec<Vec<u8>> = Vec::new();
    for i in 0..texts.len()
        invariant
            views(out@) == texts@.map_values(|t: &str| utf8(t@)).take(i as int),
    {
        let ghost before = views(out@);
        out.push(word(texts[i]));
        let ghost all = texts@.map_values(|t: &str| utf8(t@));
        assert(views(out@) =~= before.push(utf8(texts@[i as int]@)));
        assert(all.take(i + 1) =~= all.take(i as int).push(utf8(texts@[i as int]@)));
    }
    let ghost all = texts@.map_values(|t: &str| utf8(t@));
    assert(all.take(texts@.len() as int) =~= all);
    out
}

/// A run of Git that has to succeed.
pub open spec fn required_at(l: Seq<Event>, i: int, operation: Seq<char>, call: CallView) -> (
    Result<GitOutputView, GitFailureView>,
    int,
) {
    let (r, i) = git_at(l, i, call);
    (
        match r {
            Err(error) => Err(synthetic(operation, error)),
            Ok(output) => if output.code == Some(0i32) {
                Ok(output)
            } else {
                Err(failed(operation, output))
            },
        },
        i,
    )
}

/// Runs Git, which has to succeed.
fn required<H: Host>(s: &mut Session<H>, operation: &'static str, call: &GitCall) -> (r: Result<
    GitOutput,
    GitFailure,
>)
    ensures
        extends(final(s).log(), old(s).log()),
        forall|l: Seq<Event>|
            extends(l, final(s).log()) ==> #[trigger] required_at(
                l,
                old(s).log().len() as int,
                operation@,
                call@,
            ) == (said(r), final(s).log().len() as int),
{
    match s.git(call) {
        Err(error) => Err(synthetic_failure(operation, error.as_str())),
        Ok(output) => if succeeded(&output) {
            Ok(output)
        } else {
            Err(failure_of(operation, output))
        },
    }
}

fn succeeded(output: &GitOutput) -> (r: bool)
    ensures
        r == (output.code == Some(0i32)),
{
    match output.code {
        Some(code) => code == 0,
        None => false,
    }
}

fn declined(output: &GitOutput) -> (r: bool)
    ensures
        r == (output.code == Some(1i32)),
{
    match output.code {
        Some(code) => code == 1,
        None => false,
    }
}

/// A plain run of Git that has to succeed.
pub open spec fn checked_at(
    l: Seq<Event>,
    i: int,
    cwd: Seq<u8>,
    operation: Seq<char>,
    args: Seq<Seq<u8>>,
) -> (Result<GitOutputView, GitFailureView>, int) {
    required_at(l, i, operation, plain_call(cwd, args))
}

/// Runs Git in `cwd`, which has to succeed.
pub fn checked<H: Host>(
    s: &mut Session<H>,
    cwd: &[u8],
    operation: &'static str,
    args: Vec<Vec<u8>>,
) -> (r: Result<GitOutput, GitFailure>)
    ensures
        extends(final(s).log(), old(s).log()),
        forall|l: Seq<Event>|
            extends(l, final(s).log()) ==> #[trigger] checked_at(
                l,
                old(s).log().len() as int,
                cwd@,
                operation@,
                views(args@),
            ) == (said(r), final(s).log().len() as int),
{
    let call = GitCall { cwd: copy(cwd), args, input: None, lockless: false };
    assert(call@ =~= plain_call(cwd@, views(args@)));
    required(s, operation, &call)
}

/// Runs Git in `cwd` on `input`, which has to succeed.
pub fn checked_with_input<H: Host>(
    s: &mut Session<H>,
    cwd: &[u8],
    operation: &'static str,
    args: Vec<Vec<u8>>,
    input: Vec<u8>,
) -> (r: Result<GitOutput, GitFailure>)
    ensures
        extends(final(s).log(), old(s).log()),
        forall|l: Seq<Event>|
            extends(l, final(s).log()) ==> #[trigger] required_at(
                l,
                old(s).log().len() as int,
                operation@,
                fed_call(cwd@, views(args@), input@),
            ) == (said(r), final(s).log().len() as int),
{
    let call = GitCall { cwd: copy(cwd), args, input: Some(input), lockless: false };
    assert(call@ =~= fed_call(cwd@, views(args@), input@));
    required(s, operation, &call)
}

/// A run of Git that may decline with status 1: the trimmed text that it
/// printed, or nothing.
pub open spec fn optional_at(
    l: Seq<Event>,
    i: int,
    cwd: Seq<u8>,
    operation: Seq<char>,
    args: Seq<Seq<u8>>,
) -> (Result<Option<Seq<char>>, GitFailureView>, int) {
    let (r, i) = git_at(l, i, plain_call(cwd, args));
    (
        match r {
            Err(error) => Err(synthetic(operation, error)),
            Ok(output) => if output.code == Some(0i32) {
                Ok(Some(stripped(lossy_text(output.stdout))))
            } else if output.code == Some(1i32) {
                Ok(None)
            } else {
                Err(failed(operation, output))
            },
        },
        i,
    )
}

/// Runs Git in `cwd`, which may decline with status 1.
fn optional_text<H: Host>(
    s: &mut Session<H>,
    cwd: &[u8],
    operation: &'static str,
    args: Vec<Vec<u8>>,
) -> (r: Result<Option<String>, GitFailure>)
    ensures
        extends(final(s).log(), old(s).log()),
        forall|l: Seq<Event>|
            extends(l, final(s).log()) ==> #[trigger] optional_at(
                l,
                old(s).log().len() as int,
                cwd@,
                operation@,
                views(args@),
            ) == (said_if(r), final(s).log().len() as int),
{
    let call = GitCall { cwd: copy(cwd), args, input: None, lockless: false };
    assert(call@ =~= plain_call(cwd@, views(args@)));
    match s.git(&call) {
        Err(error) => Err(synthetic_failure(operation, error.as_str())),
        Ok(output) => if succeeded(&output) {
            Ok(Some(trim(lossy(output.stdout.as_slice()).as_str())))
        } else if declined(&output) {
            Ok(None)
        } else {
            Err(failure_of(operation, output))
        },
    }
}

/// The trimmed text that a run printed.
pub open spec fn text_said(r: Result<GitOutputView, GitFailureView>) -> Result<
    Seq<char>,
    GitFailureView,
> {
    match r {
        Ok(output) => Ok(stripped(lossy_text(output.stdout))),
        Err(failure) => Err(failure),
    }
}

fn text_from(r: Result<GitOutput, GitFailure>) -> (t: Result<String, GitFailure>)
    ensures
        said(t) == text_said(said(r)),
{
    match r {
        Ok(output) => Ok(trim(lossy(output.stdout.as_slice()).as_str())),
        Err(failure) => Err(failure),
    }
}

/// The failure of a run, if it failed.
pub open spec fn failure_said(r: Result<GitOutputView, GitFailureView>) -> Option<GitFailureView> {
    match r {
        Ok(_) => None,
        Err(failure) => Some(failure),
    }
}

fn nothing_from(r: Result<GitOutput, GitFailure>) -> (t: Result<(), GitFailure>)
    ensures
        refused(t) == failure_said(said(r)),
{
    match r {
        Ok(_) => Ok(()),
        Err(failure) => Err(failure),
    }
}

/// `bytes` without the line ends at their end.
pub open spec fn line_of(bytes: Seq<u8>) -> Seq<u8>
    decreases bytes.len(),
{
    if bytes.len() > 0 && (bytes.last() == 13 || bytes.last() == 10) {
        line_of(bytes.drop_last())
    } else {
        bytes
    }
}

/// `bytes` without the line ends at their end.
pub fn trim_line(bytes: &[u8]) -> (r: Vec<u8>)
    ensures
        r@ == line_of(bytes@),
{
    let mut end: usize = bytes.len();
    assert(bytes@.take(end as int) =~= bytes@);
    while end > 0 && (bytes[end - 1] == 13 || bytes[end - 1] == 10)
        invariant
            end <= bytes@.len(),
            line_of(bytes@) == line_of(bytes@.take(end as int)),
        decreases end,
    {
        assert(bytes@.take(end as int).drop_last() =~= bytes@.take(end - 1));
        end = end - 1;
    }
    let r = copy_range(bytes, 0, end);
    assert(r@ =~= bytes@.take(end as int));
    r
}

/// The line that a run printed.
pub open spec fn line_said(r: Result<GitOutputView, GitFailureView>) -> Result<
    Seq<u8>,
    GitFailureView,
> {
    match r {
        Ok(output) => Ok(line_of(output.stdout)),
        Err(failure) => Err(failure),
    }
}

fn line_from(r: Result<GitOutput, GitFailure>) -> (t: Result<Vec<u8>, GitFailure>)
    ensures
        said(t) == line_said(said(r)),
{
    match r {
        Ok(output) => Ok(trim_line(output.stdout.as_slice())),
        Err(failure) => Err(failure),
    }
}

// ---------------------------------------------------------------------------
// The version
// ---------------------------------------------------------------------------

/// The numbers among the parts of a version.
pub open spec fn numbers(parts: Seq<Seq<char>>) -> Seq<int>
    decreases parts.len(),
{
    if parts.len() == 0 {
        Seq::empty()
    } else {
        let before = numbers(parts.drop_last());
        match unsigned_value(parts.last(), 10, u32::MAX as int) {
            Some(n) => before.push(n),
            None => before,
        }
    }
}

/// The version in what `git --version` printed.
pub open spec fn version_in(stdout: Seq<u8>) -> Seq<char> {
    let value = stripped(lossy_text(stdout));
    if begins(value, "git version "@) {
        value.skip("git version "@.len() as int)
    } else {
        value
    }
}

/// The major and the minor number of a version, zero where it has none.
pub open spec fn major_minor(version: Seq<char>) -> (int, int) {
    let n = numbers(pieces(version, '.'));
    (
        if n.len() > 0 {
            n[0]
        } else {
            0
        },
        if n.len() > 1 {
            n[1]
        } else {
            0
        },
    )
}

/// Git 2.42 has what is asked of it.
pub open spec fn recent(version: Seq<char>) -> bool {
    let (major, minor) = major_minor(version);
    major > 2 || (major == 2 && minor >= 42)
}

/// Git's version, which has to be recent.
pub open spec fn require_version_at(l: Seq<Event>, i: int, cwd: Seq<u8>) -> (
    Result<Seq<char>, GitFailureView>,
    int,
) {
    let (r, i) = checked_at(l, i, cwd, "git --version"@, seq![utf8("--version"@)]);
    (
        match r {
            Err(failure) => Err(failure),
            Ok(output) => {
                let version = version_in(output.stdout);
                if recent(version) {
                    Ok(version)
                } else {
                    Err(
                        GitFailureView {
                            operation: "git version check"@,
                            code: None,
                            stdout: output.stdout,
                            stderr: utf8("Ramiz requires Git 2.42 or newer; found "@ + version),
                        },
                    )
                }
            },
        },
        i,
    )
}

fn is_recent(version: &str) -> (r: bool)
    ensures
        r == recent(version@),
{
    let parts = split_text(version, '.');
    let mut major: u32 = 0;
    let mut minor: u32 = 0;
    let mut found: usize = 0;
    for i in 0..parts.len()
        invariant
            text_views(parts@) == pieces(version@, '.'),
            found <= i,
            found == numbers(text_views(parts@).take(i as int)).len(),
            found > 0 ==> major == numbers(text_views(parts@).take(i as int))[0],
            found == 0 ==> major == 0,
            found > 1 ==> minor == numbers(text_views(parts@).take(i as int))[1],
            found <= 1 ==> minor == 0,
    {
        let ghost all = text_views(parts@);
        assert(all.take(i + 1).drop_last() =~= all.take(i as int));
        assert(all.take(i + 1).last() == parts@[i as int]@);
        match parse_unsigned(parts[i].as_str(), 10, u32::MAX) {
            Some(n) => {
                if found == 0 {
                    major = n;
                } else if found == 1 {
                    minor = n;
                }
                found = found + 1;
            },
            None => {},
        }
    }
    assert(text_views(parts@).take(parts@.len() as int) =~= text_views(parts@));
    major > 2 || (major == 2 && minor >= 42)
}

/// Git's version, which has to be recent.
pub fn require_version<H: Host>(s: &mut Session<H>, cwd: &[u8]) -> (r: Result<String, GitFailure>)
    ensures
        extends(final(s).log(), old(s).log()),
        forall|l: Seq<Event>|
            extends(l, final(s).log()) ==> #[trigger] require_version_at(
                l,
                old(s).log().len() as int,
                cwd@,
            ) == (said(r), final(s).log().len() as int),
{
    let args = words(&["--version"]);
    assert(views(args@) =~= seq![utf8("--version"@)]);
    match checked(s, cwd, "git --version", args) {
        Err(failure) => Err(failure),
        Ok(output) => {
            let value = trim(lossy(output.stdout.as_slice()).as_str());
            let version: String = if text_begins(value.as_str(), "git version ") {
                let chars = crate::text::chars_of(value.as_str());
                let front = crate::text::chars_of("git version ").len();
                let rest = crate::text::text_range(chars.as_slice(), front, chars.len());
                assert(rest@ =~= value@.skip("git version "@.len() as int));
                rest
            } else {
                value
            };
            if is_recent(version.as_str()) {
                Ok(version)
            } else {
                let message = text2(
                    "Ramiz requires Git 2.42 or newer; found ",
                    version.as_str(),
                );
                Err(
                    GitFailure {
                        operation: "git version check",
                        code: None,
                        stdout: output.stdout,
                        stderr: word(message.as_str()),
                    },
                )
            }
        },
    }
}

// ---------------------------------------------------------------------------
// The repository
// ---------------------------------------------------------------------------

/// Whether a repository is bare.
pub open spec fn is_bare_at(l: Seq<Event>, i: int, cwd: Seq<u8>) -> (
    Result<bool, GitFailureView>,
    int,
) {
    let (r, i) = checked_at(
        l,
        i,
        cwd,
        "git bare repository discovery"@,
        seq![utf8("rev-parse"@), utf8("--is-bare-repository"@)],
    );
    (
        match line_said(r) {
            Ok(line) => Ok(line == utf8("true"@)),
            Err(failure) => Err(failure),
        },
        i,
    )
}

fn is_bare<H: Host>(s: &mut Session<H>, cwd: &[u8]) -> (r: Result<bool, GitFailure>)
    ensures
        extends(final(s).log(), old(s).log()),
        forall|l: Seq<Event>|
            extends(l, final(s).log()) ==> #[trigger] is_bare_at(
                l,
                old(s).log().len() as int,
                cwd@,
            ) == (said(r), final(s).log().len() as int),
{
    let args = words(&["rev-parse", "--is-bare-repository"]);
    assert(views(args@) =~= seq![utf8("rev-parse"@), utf8("--is-bare-repository"@)]);
    match line_from(checked(s, cwd, "git bare repository discovery", args)) {
        Ok(line) => Ok(same_bytes(line.as_slice(), utf8_of("true"))),
        Err(failure) => Err(failure),
    }
}

/// The root of the working tree; none in a bare repository.
pub open spec fn repo_root_at(l: Seq<Event>, i: int, cwd: Seq<u8>) -> (
    Result<Option<Seq<u8>>, GitFailureView>,
    int,
) {
    let (r, i) = checked_at(
        l,
        i,
        cwd,
        "git repository discovery"@,
        seq![utf8("rev-parse"@), utf8("--show-toplevel"@)],
    );
    match line_said(r) {
        Ok(line) => (Ok(Some(line)), i),
        Err(failure) => {
            let (bare, i) = is_bare_at(l, i, cwd);
            (
                if bare == Ok::<bool, GitFailureView>(true) {
                    Ok(None)
                } else {
                    Err(failure)
                },
                i,
            )
        },
    }
}

/// The root of the working tree that `cwd` is in; none in a bare repository.
pub fn repo_root<H: Host>(s: &mut Session<H>, cwd: &[u8]) -> (r: Result<
    Option<Vec<u8>>,
    GitFailure,
>)
    ensures
        extends(final(s).log(), old(s).log()),
        forall|l: Seq<Event>|
            extends(l, final(s).log()) ==> #[trigger] repo_root_at(
                l,
                old(s).log().len() as int,
                cwd@,
            ) == (said_if(r), final(s).log().len() as int),
{
    let args = words(&["rev-parse", "--show-toplevel"]);
    assert(views(args@) =~= seq![utf8("rev-parse"@), utf8("--show-toplevel"@)]);
    match line_from(checked(s, cwd, "git repository discovery", args)) {
        Ok(line) => Ok(Some(line)),
        Err(failure) => match is_bare(s, cwd) {
            Ok(true) => Ok(None),
            _ => Err(failure),
        },
    }
}

/// The directory that all worktrees of a repository share.
pub open spec fn common_dir_at(l: Seq<Event>, i: int, cwd: Seq<u8>) -> (
    Result<Seq<u8>, GitFailureView>,
    int,
) {
    let (r, i) = checked_at(
        l,
        i,
        cwd,
        "git common directory discovery"@,
        seq![utf8("rev-parse"@), utf8("--path-format=absolute"@), utf8("--git-common-dir"@)],
    );
    (line_said(r), i)
}

/// The directory that all worktrees of the repository share.
pub fn common_dir<H: Host>(s: &mut Session<H>, cwd: &[u8]) -> (r: Result<Vec<u8>, GitFailure>)
    ensures
        extends(final(s).log(), old(s).log()),
        forall|l: Seq<Event>|
            extends(l, final(s).log()) ==> #[trigger] common_dir_at(
                l,
                old(s).log().len() as int,
                cwd@,
            ) == (said(r), final(s).log().len() as int),
{
    let args = words(&["rev-parse", "--path-format=absolute", "--git-common-dir"]);
    assert(views(args@) =~= seq![
        utf8("rev-parse"@),
        utf8("--path-format=absolute"@),
        utf8("--git-common-dir"@),
    ]);
    line_from(checked(s, cwd, "git common directory discovery", args))
}

/// Whether the index is sparse, and whether it is split.
pub open spec fn index_features_at(l: Seq<Event>, i: int, cwd: Seq<u8>) -> (
    Result<(bool, bool), GitFailureView>,
    int,
) {
    let (sparse, i) = optional_at(
        l,
        i,
        cwd,
        "git sparse checkout lookup"@,
        seq![utf8("config"@), utf8("--bool"@), utf8("core.sparseCheckout"@)],
    );
    match sparse {
        Err(failure) => (Err(failure), i),
        Ok(sparse) => {
            let (split, i) = optional_at(
                l,
                i,
                cwd,
                "git split index lookup"@,
                seq![utf8("rev-parse"@), utf8("--shared-index-path"@)],
            );
            match split {
                Err(failure) => (Err(failure), i),
                Ok(split) => (
                    Ok((sparse == Some("true"@), split matches Some(path) && path.len() > 0)),
                    i,
                ),
            }
        },
    }
}

/// Whether the index is sparse, and whether it is split.
pub fn index_features<H: Host>(s: &mut Session<H>, cwd: &[u8]) -> (r: Result<
    (bool, bool),
    GitFailure,
>)
    ensures
        extends(final(s).log(), old(s).log()),
        forall|l: Seq<Event>|
            extends(l, final(s).log()) ==> #[trigger] index_features_at(
                l,
                old(s).log().len() as int,
                cwd@,
            ) == (said(r), final(s).log().len() as int),
{
    let args = words(&["config", "--bool", "core.sparseCheckout"]);
    assert(views(args@) =~= seq![utf8("config"@), utf8("--bool"@), utf8("core.sparseCheckout"@)]);
    let sparse: bool = match optional_text(s, cwd, "git sparse checkout lookup", args) {
        Err(failure) => {
            return Err(failure);
        },
        Ok(Some(value)) => same(value.as_str(), "true"),
        Ok(None) => false,
    };
    let args = words(&["rev-parse", "--shared-index-path"]);
    assert(views(args@) =~= seq![utf8("rev-parse"@), utf8("--shared-index-path"@)]);
    let split: bool = match optional_text(s, cwd, "git split index lookup", args) {
        Err(failure) => {
            return Err(failure);
        },
        Ok(Some(value)) => !value.as_str().is_empty(),
        Ok(None) => false,
    };
    Ok((sparse, split))
}

/// The commit that `reference` names, if it names one.
pub open spec fn ref_oid_at(l: Seq<Event>, i: int, cwd: Seq<u8>, reference: Seq<char>) -> (
    Result<Option<Seq<char>>, GitFailureView>,
    int,
) {
    optional_at(
        l,
        i,
        cwd,
        "git ref lookup"@,
        seq![
            utf8("rev-parse"@),
            utf8("--verify"@),
            utf8("--quiet"@),
            utf8(reference + "^{commit}"@),
        ],
    )
}

/// The commit that `reference` names, if it names one.
pub fn ref_oid<H: Host>(s: &mut Session<H>, cwd: &[u8], reference: &str) -> (r: Result<
    Option<String>,
    GitFailure,
>)
    ensures
        extends(final(s).log(), old(s).log()),
        forall|l: Seq<Event>|
            extends(l, final(s).log()) ==> #[trigger] ref_oid_at(
                l,
                old(s).log().len() as int,
                cwd@,
                reference@,
            ) == (said_if(r), final(s).log().len() as int),
{
    let expression = text2(reference, "^{commit}");
    let args = words(&["rev-parse", "--verify", "--quiet", expression.as_str()]);
    assert(views(args@) =~= seq![
        utf8("rev-parse"@),
        utf8("--verify"@),
        utf8("--quiet"@),
        utf8(expression@),
    ]);
    optional_text(s, cwd, "git ref lookup", args)
}

/// The commit that an expression stands for.
pub open spec fn resolve_commit_at(l: Seq<Event>, i: int, cwd: Seq<u8>, expression: Seq<char>) -> (
    Result<Seq<char>, GitFailureView>,
    int,
) {
    let (r, i) = checked_at(
        l,
        i,
        cwd,
        "git commit resolution"@,
        seq![utf8("rev-parse"@), utf8("--verify"@), utf8(expression + "^{commit}"@)],
    );
    (text_said(r), i)
}

/// The commit that `expression` stands for.
pub fn resolve_commit<H: Host>(s: &mut Session<H>, cwd: &[u8], expression: &str) -> (r: Result<
    String,
    GitFailure,
>)
    ensures
        extends(final(s).log(), old(s).log()),
        forall|l: Seq<Event>|
            extends(l, final(s).log()) ==> #[trigger] resolve_commit_at(
                l,
                old(s).log().len() as int,
                cwd@,
                expression@,
            ) == (said(r), final(s).log().len() as int),
{
    let peeled = text2(expression, "^{commit}");
    let args = words(&["rev-parse", "--verify", peeled.as_str()]);
    assert(views(args@) =~= seq![utf8("rev-parse"@), utf8("--verify"@), utf8(peeled@)]);
    text_from(checked(s, cwd, "git commit resolution", args))
}

/// As many zeros as `target` has bytes: the name of no object.
pub open spec fn zeros(target: Seq<char>) -> Seq<char> {
    Seq::new(utf8(target).len(), |k: int| '0')
}

fn zeros_like(target: &str) -> (r: String)
    ensures
        r@ == zeros(target@),
{
    let n: usize = utf8_of(target).len();
    let mut out = String::new();
    for i in 0..n
        invariant
            out@ == Seq::new(i as nat, |k: int| '0'),
    {
        out.push('0');
        assert(out@ =~= Seq::new((i + 1) as nat, |k: int| '0'));
    }
    assert(out@ =~= zeros(target@));
    out
}

/// Makes a branch that must not exist yet.
pub open spec fn create_ref_at(
    l: Seq<Event>,
    i: int,
    cwd: Seq<u8>,
    reference: Seq<char>,
    target: Seq<char>,
) -> (Option<GitFailureView>, int) {
    let (r, i) = checked_at(
        l,
        i,
        cwd,
        "git branch creation"@,
        seq![
            utf8("update-ref"@),
            utf8("-m"@),
            utf8("branch: Created from ramiz add"@),
            utf8(reference),
            utf8(target),
            utf8(zeros(target)),
        ],
    );
    (failure_said(r), i)
}

/// Makes the branch `reference`, which must not exist yet, at `target`.
pub fn create_ref<H: Host>(s: &mut Session<H>, cwd: &[u8], reference: &str, target: &str) -> (r:
    Result<(), GitFailure>)
    ensures
        extends(final(s).log(), old(s).log()),
        forall|l: Seq<Event>|
            extends(l, final(s).log()) ==> #[trigger] create_ref_at(
                l,
                old(s).log().len() as int,
                cwd@,
                reference@,
                target@,
            ) == (refused(r), final(s).log().len() as int),
{
    let zero = zeros_like(target);
    let args = words(
        &["update-ref", "-m", "branch: Created from ramiz add", reference, target, zero.as_str()],
    );
    assert(views(args@) =~= seq![
        utf8("update-ref"@),
        utf8("-m"@),
        utf8("branch: Created from ramiz add"@),
        utf8(reference@),
        utf8(target@),
        utf8(zero@),
    ]);
    nothing_from(checked(s, cwd, "git branch creation", args))
}

/// Deletes a branch that is still at a commit.
pub open spec fn delete_ref_if_at(
    l: Seq<Event>,
    i: int,
    cwd: Seq<u8>,
    reference: Seq<char>,
    expected_oid: Seq<char>,
) -> (Option<GitFailureView>, int) {
    let (r, i) = checked_at(
        l,
        i,
        cwd,
        "git branch rollback"@,
        seq![utf8("update-ref"@), utf8("-d"@), utf8(reference), utf8(expected_oid)],
    );
    (failure_said(r), i)
}

/// Deletes the branch `reference`, which must still be at `expected_oid`.
pub fn delete_ref_if<H: Host>(
    s: &mut Session<H>,
    cwd: &[u8],
    reference: &str,
    expected_oid: &str,
) -> (r: Result<(), GitFailure>)
    ensures
        extends(final(s).log(), old(s).log()),
        forall|l: Seq<Event>|
            extends(l, final(s).log()) ==> #[trigger] delete_ref_if_at(
                l,
                old(s).log().len() as int,
                cwd@,
                reference@,
                expected_oid@,
            ) == (refused(r), final(s).log().len() as int),
{
    let args = words(&["update-ref", "-d", reference, expected_oid]);
    assert(views(args@) =~= seq![
        utf8("update-ref"@),
        utf8("-d"@),
        utf8(reference@),
        utf8(expected_oid@),
    ]);
    nothing_from(checked(s, cwd, "git branch rollback", args))
}

/// The commit that is checked out.
pub open spec fn head_oid_at(l: Seq<Event>, i: int, cwd: Seq<u8>) -> (
    Result<Seq<char>, GitFailureView>,
    int,
) {
    let (r, i) = checked_at(
        l,
        i,
        cwd,
        "git target resolution"@,
        seq![utf8("rev-parse"@), utf8("HEAD^{commit}"@)],
    );
    (text_said(r), i)
}

/// The commit that is checked out in `cwd`.
pub fn head_oid<H: Host>(s: &mut Session<H>, cwd: &[u8]) -> (r: Result<String, GitFailure>)
    ensures
        extends(final(s).log(), old(s).log()),
        forall|l: Seq<Event>|
            extends(l, final(s).log()) ==> #[trigger] head_oid_at(
                l,
                old(s).log().len() as int,
                cwd@,
            ) == (said(r), final(s).log().len() as int),
{
    let args = words(&["rev-parse", "HEAD^{commit}"]);
    assert(views(args@) =~= seq![utf8("rev-parse"@), utf8("HEAD^{commit}"@)]);
    text_from(checked(s, cwd, "git target resolution", args))
}

/// Whether a repository holds a commit.
pub open spec fn has_any_commit_at(l: Seq<Event>, i: int, cwd: Seq<u8>) -> (
    Result<bool, GitFailureView>,
    int,
) {
    let (r, i) = checked_at(
        l,
        i,
        cwd,
        "git commit inventory"@,
        seq![utf8("rev-list"@), utf8("--all"@), utf8("--max-count=1"@)],
    );
    (
        match r {
            Ok(output) => Ok(output.stdout.len() > 0),
            Err(failure) => Err(failure),
        },
        i,
    )
}

/// The repository holds a commit.
pub fn has_any_commit<H: Host>(s: &mut Session<H>, cwd: &[u8]) -> (r: Result<bool, GitFailure>)
    ensures
        extends(final(s).log(), old(s).log()),
        forall|l: Seq<Event>|
            extends(l, final(s).log()) ==> #[trigger] has_any_commit_at(
                l,
                old(s).log().len() as int,
                cwd@,
            ) == (said(r), final(s).log().len() as int),
{
    let args = words(&["rev-list", "--all", "--max-count=1"]);
    assert(views(args@) =~= seq![utf8("rev-list"@), utf8("--all"@), utf8("--max-count=1"@)]);
    match checked(s, cwd, "git commit inventory", args) {
        Ok(output) => Ok(output.stdout.len() > 0),
        Err(failure) => Err(failure),
    }
}

/// The branch that is checked out, if any is.
pub open spec fn symbolic_head_at(l: Seq<Event>, i: int, cwd: Seq<u8>) -> (
    Result<Option<Seq<char>>, GitFailureView>,
    int,
) {
    optional_at(
        l,
        i,
        cwd,
        "git symbolic HEAD lookup"@,
        seq![utf8("symbolic-ref"@), utf8("--quiet"@), utf8("HEAD"@)],
    )
}

/// The branch that is checked out in `cwd`, if any is.
pub fn symbolic_head<H: Host>(s: &mut Session<H>, cwd: &[u8]) -> (r: Result<
    Option<String>,
    GitFailure,
>)
    ensures
        extends(final(s).log(), old(s).log()),
        forall|l: Seq<Event>|
            extends(l, final(s).log()) ==> #[trigger] symbolic_head_at(
                l,
                old(s).log().len() as int,
                cwd@,
            ) == (said_if(r), final(s).log().len() as int),
{
    let args = words(&["symbolic-ref", "--quiet", "HEAD"]);
    assert(views(args@) =~= seq![utf8("symbolic-ref"@), utf8("--quiet"@), utf8("HEAD"@)]);
    optional_text(s, cwd, "git symbolic HEAD lookup", args)
}

/// Where Git keeps one of its files.
pub open spec fn git_path_at(l: Seq<Event>, i: int, cwd: Seq<u8>, name: Seq<char>) -> (
    Result<Seq<u8>, GitFailureView>,
    int,
) {
    let (r, i) = checked_at(
        l,
        i,
        cwd,
        "git path lookup"@,
        seq![
            utf8("rev-parse"@),
            utf8("--path-format=absolute"@),
            utf8("--git-path"@),
            utf8(name),
        ],
    );
    (line_said(r), i)
}

/// Where Git keeps its file `name` for the worktree `cwd`.
pub fn git_path<H: Host>(s: &mut Session<H>, cwd: &[u8], name: &str) -> (r: Result<
    Vec<u8>,
    GitFailure,
>)
    ensures
        extends(final(s).log(), old(s).log()),
        forall|l: Seq<Event>|
            extends(l, final(s).log()) ==> #[trigger] git_path_at(
                l,
                old(s).log().len() as int,
                cwd@,
                name@,
            ) == (said(r), final(s).log().len() as int),
{
    let args = words(&["rev-parse", "--path-format=absolute", "--git-path", name]);
    assert(views(args@) =~= seq![
        utf8("rev-parse"@),
        utf8("--path-format=absolute"@),
        utf8("--git-path"@),
        utf8(name@),
    ]);
    line_from(checked(s, cwd, "git path lookup", args))
}

/// Git reporting the state of a worktree, without taking a lock.
pub open spec fn status_call(cwd: Seq<u8>) -> CallView {
    CallView {
        cwd,
        args: seq![
            utf8("status"@),
            utf8("--porcelain=v2"@),
            utf8("-z"@),
            utf8("--untracked-files=all"@),
        ],
        input: None,
        lockless: true,
    }
}

/// The state of a worktree, read without taking a lock.
pub open spec fn readonly_status_at(l: Seq<Event>, i: int, cwd: Seq<u8>) -> (
    Result<Seq<u8>, GitFailureView>,
    int,
) {
    let (r, i) = required_at(l, i, "git donor status"@, status_call(cwd));
    (
        match r {
            Ok(output) => Ok(output.stdout),
            Err(failure) => Err(failure),
        },
        i,
    )
}

/// The state of the worktree `cwd`, read without taking a lock.
pub fn readonly_status<H: Host>(s: &mut Session<H>, cwd: &[u8]) -> (r: Result<Vec<u8>, GitFailure>)
    ensures
        extends(final(s).log(), old(s).log()),
        forall|l: Seq<Event>|
            extends(l, final(s).log()) ==> #[trigger] readonly_status_at(
                l,
                old(s).log().len() as int,
                cwd@,
            ) == (said(r), final(s).log().len() as int),
{
    let args = words(&["status", "--porcelain=v2", "-z", "--untracked-files=all"]);
    assert(views(args@) =~= seq![
        utf8("status"@),
        utf8("--porcelain=v2"@),
        utf8("-z"@),
        utf8("--untracked-files=all"@),
    ]);
    let call = GitCall { cwd: copy(cwd), args, input: None, lockless: true };
    assert(call@ =~= status_call(cwd@));
    match required(s, "git donor status", &call) {
        Ok(output) => Ok(output.stdout),
        Err(failure) => Err(failure),
    }
}

/// The entries of an index with their stages, and with their flags.
pub open spec fn logical_index_at(l: Seq<Event>, i: int, cwd: Seq<u8>) -> (
    Result<Seq<u8>, GitFailureView>,
    int,
) {
    let (stages, i) = checked_at(
        l,
        i,
        cwd,
        "git staged index inspection"@,
        seq![utf8("ls-files"@), utf8("--stage"@), utf8("-z"@)],
    );
    match stages {
        Err(failure) => (Err(failure), i),
        Ok(stages) => {
            let (flags, i) = checked_at(
                l,
                i,
                cwd,
                "git index flag inspection"@,
                seq![utf8("ls-files"@), utf8("-v"@), utf8("-z"@)],
            );
            match flags {
                Err(failure) => (Err(failure), i),
                Ok(flags) => (Ok(stages.stdout.push(255) + flags.stdout), i),
            }
        },
    }
}

/// The entries of the index of `cwd` with their stages, and with their flags.
pub fn logical_index<H: Host>(s: &mut Session<H>, cwd: &[u8]) -> (r: Result<Vec<u8>, GitFailure>)
    ensures
        extends(final(s).log(), old(s).log()),
        forall|l: Seq<Event>|
            extends(l, final(s).log()) ==> #[trigger] logical_index_at(
                l,
                old(s).log().len() as int,
                cwd@,
            ) == (said(r), final(s).log().len() as int),
{
    let args = words(&["ls-files", "--stage", "-z"]);
    assert(views(args@) =~= seq![utf8("ls-files"@), utf8("--stage"@), utf8("-z"@)]);
    match checked(s, cwd, "git staged index inspection", args) {
        Err(failure) => Err(failure),
        Ok(stages) => {
            let args = words(&["ls-files", "-v", "-z"]);
            assert(views(args@) =~= seq![utf8("ls-files"@), utf8("-v"@), utf8("-z"@)]);
            match checked(s, cwd, "git index flag inspection", args) {
                Err(failure) => Err(failure),
                Ok(flags) => {
                    let mut result = copy(stages.stdout.as_slice());
                    result.push(255);
                    extend(&mut result, flags.stdout.as_slice());
                    Ok(result)
                },
            }
        },
    }
}

/// Turns the caches of an index off.
pub open spec fn disable_index_caches_at(l: Seq<Event>, i: int, cwd: Seq<u8>) -> (
    Option<GitFailureView>,
    int,
) {
    let (r, i) = checked_at(
        l,
        i,
        cwd,
        "git inherited index normalization"@,
        seq![utf8("update-index"@), utf8("--no-fsmonitor"@), utf8("--no-untracked-cache"@)],
    );
    (failure_said(r), i)
}

/// Turns the caches of the index of `cwd` off.
pub fn disable_index_caches<H: Host>(s: &mut Session<H>, cwd: &[u8]) -> (r: Result<(), GitFailure>)
    ensures
        extends(final(s).log(), old(s).log()),
        forall|l: Seq<Event>|
            extends(l, final(s).log()) ==> #[trigger] disable_index_caches_at(
                l,
                old(s).log().len() as int,
                cwd@,
            ) == (refused(r), final(s).log().len() as int),
{
    let args = words(&["update-index", "--no-fsmonitor", "--no-untracked-cache"]);
    assert(views(args@) =~= seq![
        utf8("update-index"@),
        utf8("--no-fsmonitor"@),
        utf8("--no-untracked-cache"@),
    ]);
    nothing_from(checked(s, cwd, "git inherited index normalization", args))
}

/// The contents of a blob.
pub open spec fn blob_at(l: Seq<Event>, i: int, cwd: Seq<u8>, oid: Seq<char>) -> (
    Result<Seq<u8>, GitFailureView>,
    int,
) {
    let (r, i) = checked_at(
        l,
        i,
        cwd,
        "git blob read"@,
        seq![utf8("cat-file"@), utf8("blob"@), utf8(oid)],
    );
    (
        match r {
            Ok(output) => Ok(output.stdout),
            Err(failure) => Err(failure),
        },
        i,
    )
}

/// The contents of the blob `oid`.
pub fn blob<H: Host>(s: &mut Session<H>, cwd: &[u8], oid: &str) -> (r: Result<Vec<u8>, GitFailure>)
    ensures
        extends(final(s).log(), old(s).log()),
        forall|l: Seq<Event>|
            extends(l, final(s).log()) ==> #[trigger] blob_at(
                l,
                old(s).log().len() as int,
                cwd@,
                oid@,
            ) == (said(r), final(s).log().len() as int),
{
    let args = words(&["cat-file", "blob", oid]);
    assert(views(args@) =~= seq![utf8("cat-file"@), utf8("blob"@), utf8(oid@)]);
    match checked(s, cwd, "git blob read", args) {
        Ok(output) => Ok(output.stdout),
        Err(failure) => Err(failure),
    }
}

/// Runs the hook for a new worktree.
pub open spec fn run_post_checkout_at(l: Seq<Event>, i: int, cwd: Seq<u8>, target: Seq<char>) -> (
    Result<GitOutputView, GitFailureView>,
    int,
) {
    checked_at(
        l,
        i,
        cwd,
        "git post-checkout hook"@,
        seq![
            utf8("hook"@),
            utf8("run"@),
            utf8("--ignore-missing"@),
            utf8("post-checkout"@),
            utf8("--"@),
            utf8(zeros(target)),
            utf8(target),
            utf8("1"@),
        ],
    )
}

/// Runs the hook for the new worktree `cwd`: from no commit to `target`.
pub fn run_post_checkout<H: Host>(s: &mut Session<H>, cwd: &[u8], target: &str) -> (r: Result<
    GitOutput,
    GitFailure,
>)
    ensures
        extends(final(s).log(), old(s).log()),
        forall|l: Seq<Event>|
            extends(l, final(s).log()) ==> #[trigger] run_post_checkout_at(
                l,
                old(s).log().len() as int,
                cwd@,
                target@,
            ) == (said(r), final(s).log().len() as int),
{
    let null_ref = zeros_like(target);
    let args = words(
        &[
            "hook",
            "run",
            "--ignore-missing",
            "post-checkout",
            "--",
            null_ref.as_str(),
            target,
            "1",
        ],
    );
    assert(views(args@) =~= seq![
        utf8("hook"@),
        utf8("run"@),
        utf8("--ignore-missing"@),
        utf8("post-checkout"@),
        utf8("--"@),
        utf8(null_ref@),
        utf8(target@),
        utf8("1"@),
    ]);
    checked(s, cwd, "git post-checkout hook", args)
}

/// A clean worktree, or what differs.
pub open spec fn refresh_and_verify_clean_at(l: Seq<Event>, i: int, cwd: Seq<u8>) -> (
    Option<GitFailureView>,
    int,
) {
    let (r, i) = checked_at(
        l,
        i,
        cwd,
        "git worktree verification"@,
        seq![
            utf8("status"@),
            utf8("--porcelain=v1"@),
            utf8("-z"@),
            utf8("--untracked-files=all"@),
        ],
    );
    (
        match r {
            Err(failure) => Some(failure),
            Ok(output) => if output.stdout.len() == 0 {
                None
            } else {
                Some(
                    GitFailureView {
                        operation: "git worktree verification"@,
                        code: None,
                        stdout: output.stdout,
                        stderr: utf8(
                            "materialized worktree does not match the target index: "@
                                + shown_zeros(lossy_text(output.stdout)),
                        ),
                    },
                )
            },
        },
        i,
    )
}

/// A text with its zero characters written out.
pub open spec fn shown_zeros(text: Seq<char>) -> Seq<char>
    decreases text.len(),
{
    if text.len() == 0 {
        Seq::empty()
    } else {
        let before = shown_zeros(text.drop_last());
        if text.last() == '\0' {
            before.push('\\').push('0')
        } else {
            before.push(text.last())
        }
    }
}

fn show_zeros(text: &str) -> (r: String)
    ensures
        r@ == shown_zeros(text@),
{
    let chars = crate::text::chars_of(text);
    let mut out = String::new();
    for i in 0..chars.len()
        invariant
            chars@ == text@,
            out@ == shown_zeros(text@.take(i as int)),
    {
        assert(text@.take(i + 1).drop_last() =~= text@.take(i as int));
        if chars[i] == '\0' {
            out.push('\\');
            out.push('0');
        } else {
            out.push(chars[i]);
        }
    }
    assert(text@.take(text@.len() as int) =~= text@);
    out
}

/// The worktree `cwd` is clean.
pub fn refresh_and_verify_clean<H: Host>(s: &mut Session<H>, cwd: &[u8]) -> (r: Result<
    (),
    GitFailure,
>)
    ensures
        extends(final(s).log(), old(s).log()),
        forall|l: Seq<Event>|
            extends(l, final(s).log()) ==> #[trigger] refresh_and_verify_clean_at(
                l,
                old(s).log().len() as int,
                cwd@,
            ) == (refused(r), final(s).log().len() as int),
{
    let args = words(&["status", "--porcelain=v1", "-z", "--untracked-files=all"]);
    assert(views(args@) =~= seq![
        utf8("status"@),
        utf8("--porcelain=v1"@),
        utf8("-z"@),
        utf8("--untracked-files=all"@),
    ]);
    match checked(s, cwd, "git worktree verification", args) {
        Err(failure) => Err(failure),
        Ok(output) => if output.stdout.len() == 0 {
            Ok(())
        } else {
            let status = show_zeros(lossy(output.stdout.as_slice()).as_str());
            let message = text2(
                "materialized worktree does not match the target index: ",
                status.as_str(),
            );
            Err(
                GitFailure {
                    operation: "git worktree verification",
                    code: None,
                    stdout: output.stdout,
                    stderr: word(message.as_str()),
                },
            )
        },
    }
}

// ---------------------------------------------------------------------------
// The index
// ---------------------------------------------------------------------------

/// An entry of an index.
pub struct IndexEntry {
    pub mode: u32,
    pub oid: String,
    pub stage: u8,
    pub path: Vec<u8>,
}

/// The model of an [`IndexEntry`].
#[verifier::ext_equal]
pub struct EntryView {
    pub mode: int,
    pub oid: Seq<char>,
    pub stage: int,
    pub path: Seq<u8>,
}

impl View for IndexEntry {
    type V = EntryView;

    open spec fn view(&self) -> EntryView {
        EntryView {
            mode: self.mode as int,
            oid: self.oid@,
            stage: self.stage as int,
            path: self.path@,
        }
    }
}

/// The views of a list of entries.
pub open spec fn entry_views(v: Seq<IndexEntry>) -> Seq<EntryView> {
    v.map_values(|e: IndexEntry| e@)
}

/// The view of a list of entries, or of the failure to read one.
pub open spec fn entries_said(r: Result<Vec<IndexEntry>, GitFailure>) -> Result<
    Seq<EntryView>,
    GitFailureView,
> {
    match r {
        Ok(entries) => Ok(entry_views(entries@)),
        Err(failure) => Err(failure@),
    }
}

/// Where `x` stands in `s` first, from `k` on; the length of `s` where it does
/// not.
pub open spec fn position_from(s: Seq<u8>, x: u8, k: int) -> int
    decreases s.len() - k,
{
    if k >= s.len() {
        s.len() as int
    } else if s[k] == x {
        k
    } else {
        position_from(s, x, k + 1)
    }
}

/// The field number `k`, empty where there are fewer.
pub open spec fn field(fields: Seq<Seq<char>>, k: int) -> Seq<char> {
    if k < fields.len() {
        fields[k]
    } else {
        Seq::empty()
    }
}

/// The entry that a record of the index listing writes: the mode in octal, the
/// object and the stage, each after a blank, then a tab and the path.
pub open spec fn entry_in(record: Seq<u8>) -> Result<EntryView, GitFailureView> {
    let tab = position_from(record, 9, 0);
    if tab >= record.len() {
        Err(unreadable("missing index path separator"@))
    } else if !vstd::utf8::valid_utf8(record.take(tab)) {
        Err(unreadable("non-UTF-8 index header"@))
    } else {
        let fields = pieces(vstd::utf8::decode_utf8(record.take(tab)), ' ');
        match unsigned_value(field(fields, 0), 8, u32::MAX as int) {
            None => Err(unreadable("invalid index mode"@)),
            Some(mode) => match unsigned_value(field(fields, 2), 10, u8::MAX as int) {
                None => Err(unreadable("invalid index stage"@)),
                Some(stage) => Ok(
                    EntryView { mode, oid: field(fields, 1), stage, path: record.skip(tab + 1) },
                ),
            },
        }
    }
}

fn field_text(fields: &Vec<String>, k: usize) -> (r: String)
    ensures
        r@ == field(text_views(fields@), k as int),
{
    if k < fields.len() {
        assert(text_views(fields@)[k as int] == fields@[k as int]@);
        fields[k].clone()
    } else {
        String::new()
    }
}

/// The entry that a record of the index listing writes.
pub fn parse_index_entry(record: &[u8]) -> (r: Result<IndexEntry, GitFailure>)
    ensures
        said(r) == entry_in(record@),
{
    let mut tab: usize = 0;
    while tab < record.len() && record[tab] != 9
        invariant
            tab <= record@.len(),
            position_from(record@, 9, 0) == position_from(record@, 9, tab as int),
        decreases record@.len() - tab,
    {
        tab = tab + 1;
    }
    if tab == record.len() {
        return Err(parse_failure("missing index path separator"));
    }
    let front = copy_range(record, 0, tab);
    assert(front@ =~= record@.take(tab as int));
    let header = match utf8_text(front.as_slice()) {
        Ok(header) => header,
        Err(_) => {
            return Err(parse_failure("non-UTF-8 index header"));
        },
    };
    let fields = split_text(header.as_str(), ' ');
    let mode = match parse_unsigned(field_text(&fields, 0).as_str(), 8, u32::MAX) {
        Some(mode) => mode,
        None => {
            return Err(parse_failure("invalid index mode"));
        },
    };
    let stage = match parse_unsigned(field_text(&fields, 2).as_str(), 10, 255) {
        Some(stage) => stage,
        None => {
            return Err(parse_failure("invalid index stage"));
        },
    };
    let path = copy_range(record, tab + 1, record.len());
    assert(path@ =~= record@.skip(tab + 1));
    Ok(IndexEntry { mode, oid: field_text(&fields, 1), stage: stage as u8, path })
}

/// The entries that the records write, empty ones aside; the first that cannot
/// be read is the failure.
pub open spec fn entries_in(records: Seq<Seq<u8>>) -> Result<Seq<EntryView>, GitFailureView>
    decreases records.len(),
{
    if records.len() == 0 {
        Ok(Seq::empty())
    } else {
        match entries_in(records.drop_last()) {
            Err(failure) => Err(failure),
            Ok(before) => if records.last().len() == 0 {
                Ok(before)
            } else {
                match entry_in(records.last()) {
                    Err(failure) => Err(failure),
                    Ok(entry) => Ok(before.push(entry)),
                }
            },
        }
    }
}

proof fn lemma_entries_fail(records: Seq<Seq<u8>>, k: int)
    requires
        0 <= k <= records.len(),
        entries_in(records.take(k)) is Err,
    ensures
        entries_in(records) == entries_in(records.take(k)),
    decreases records.len(),
{
    if k == records.len() {
        assert(records.take(k) =~= records);
    } else {
        assert(records.drop_last().take(k) =~= records.take(k));
        lemma_entries_fail(records.drop_last(), k);
    }
}

fn parse_entries(listing: &[u8]) -> (r: Result<Vec<IndexEntry>, GitFailure>)
    ensures
        entries_said(r) == entries_in(pieces(listing@, 0)),
{
    let records = split_bytes(listing, 0);
    let mut out: Vec<IndexEntry> = Vec::new();
    assert(entry_views(out@) =~= Seq::<EntryView>::empty());
    for i in 0..records.len()
        invariant
            views(records@) == pieces(listing@, 0),
            entries_in(views(records@).take(i as int)) == Ok::<Seq<EntryView>, GitFailureView>(
                entry_views(out@),
            ),
    {
        let ghost all = views(records@);
        let record = records[i].as_slice();
        assert(all.take(i + 1).drop_last() =~= all.take(i as int));
        assert(all.take(i + 1).last() == record@);
        if record.len() > 0 {
            match parse_index_entry(record) {
                Ok(entry) => {
                    let ghost before = entry_views(out@);
                    let ghost shown = entry@;
                    out.push(entry);
                    assert(entry_views(out@) =~= before.push(shown));
                },
                Err(failure) => {
                    proof {
                        lemma_entries_fail(all, i + 1);
                    }
                    return Err(failure);
                },
            }
        }
    }
    assert(views(records@).take(records@.len() as int) =~= views(records@));
    Ok(out)
}

/// Fills an index from a commit, and lists it.
pub open spec fn read_target_index_at(l: Seq<Event>, i: int, cwd: Seq<u8>, target: Seq<char>) -> (
    Result<Seq<EntryView>, GitFailureView>,
    int,
) {
    let (r, i) = checked_at(
        l,
        i,
        cwd,
        "git read-tree"@,
        seq![utf8("read-tree"@), utf8("--reset"@), utf8(target)],
    );
    match r {
        Err(failure) => (Err(failure), i),
        Ok(_) => {
            let (r, i) = checked_at(
                l,
                i,
                cwd,
                "git index listing"@,
                seq![utf8("ls-files"@), utf8("--stage"@), utf8("-z"@)],
            );
            match r {
                Err(failure) => (Err(failure), i),
                Ok(output) => (entries_in(pieces(output.stdout, 0)), i),
            }
        },
    }
}

/// Fills the index of `cwd` from the commit `target`, and lists it.
pub fn read_target_index<H: Host>(s: &mut Session<H>, cwd: &[u8], target: &str) -> (r: Result<
    Vec<IndexEntry>,
    GitFailure,
>)
    ensures
        extends(final(s).log(), old(s).log()),
        forall|l: Seq<Event>|
            extends(l, final(s).log()) ==> #[trigger] read_target_index_at(
                l,
                old(s).log().len() as int,
                cwd@,
                target@,
            ) == (entries_said(r), final(s).log().len() as int),
{
    let args = words(&["read-tree", "--reset", target]);
    assert(views(args@) =~= seq![utf8("read-tree"@), utf8("--reset"@), utf8(target@)]);
    match checked(s, cwd, "git read-tree", args) {
        Err(failure) => Err(failure),
        Ok(_) => {
            let args = words(&["ls-files", "--stage", "-z"]);
            assert(views(args@) =~= seq![utf8("ls-files"@), utf8("--stage"@), utf8("-z"@)]);
            match checked(s, cwd, "git index listing", args) {
                Err(failure) => Err(failure),
                Ok(output) => parse_entries(output.stdout.as_slice()),
            }
        },
    }
}

/// The paths, each with a zero byte behind it.
pub open spec fn zero_ended(paths: Seq<Seq<u8>>) -> Seq<u8>
    decreases paths.len(),
{
    if paths.len() == 0 {
        Seq::empty()
    } else {
        (zero_ended(paths.drop_last()) + paths.last()).push(0)
    }
}

fn path_input(paths: &Vec<Vec<u8>>) -> (r: Vec<u8>)
    ensures
        r@ == zero_ended(views(paths@)),
{
    let mut out: Vec<u8> = Vec::new();
    for i in 0..paths.len()
        invariant
            out@ == zero_ended(views(paths@).take(i as int)),
    {
        assert(views(paths@).take(i + 1).drop_last() =~= views(paths@).take(i as int));
        assert(views(paths@).take(i + 1).last() == paths@[i as int]@);
        extend(&mut out, paths[i].as_slice());
        out.push(0);
    }
    assert(views(paths@).take(paths@.len() as int) =~= views(paths@));
    out
}

/// Checks paths out of the index.
pub open spec fn checkout_paths_at(
    l: Seq<Event>,
    i: int,
    cwd: Seq<u8>,
    paths: Seq<Seq<u8>>,
) -> (Option<GitFailureView>, int) {
    if paths.len() == 0 {
        (None, i)
    } else {
        let (r, i) = required_at(
            l,
            i,
            "git checkout-index"@,
            fed_call(
                cwd,
                seq![utf8("checkout-index"@), utf8("-u"@), utf8("-z"@), utf8("--stdin"@)],
                zero_ended(paths),
            ),
        );
        (failure_said(r), i)
    }
}

/// Checks `paths` out of the index of `cwd`.
pub fn checkout_paths<H: Host>(s: &mut Session<H>, cwd: &[u8], paths: &Vec<Vec<u8>>) -> (r: Result<
    (),
    GitFailure,
>)
    ensures
        extends(final(s).log(), old(s).log()),
        forall|l: Seq<Event>|
            extends(l, final(s).log()) ==> #[trigger] checkout_paths_at(
                l,
                old(s).log().len() as int,
                cwd@,
                views(paths@),
            ) == (refused(r), final(s).log().len() as int),
{
    assert(views(paths@).len() == paths@.len());
    if paths.len() == 0 {
        return Ok(());
    }
    let args = words(&["checkout-index", "-u", "-z", "--stdin"]);
    assert(views(args@) =~= seq![
        utf8("checkout-index"@),
        utf8("-u"@),
        utf8("-z"@),
        utf8("--stdin"@),
    ]);
    nothing_from(checked_with_input(s, cwd, "git checkout-index", args, path_input(paths)))
}

// ---------------------------------------------------------------------------
// Paths that a checkout would change
// ---------------------------------------------------------------------------

/// A setting that says nothing of line ends, or leaves them alone.
pub open spec fn harmless_setting(value: Seq<char>) -> bool {
    value == ""@ || value == "false"@ || value == "input"@ || value == "native"@
}

/// Whether a setting makes a checkout change every file.
pub open spec fn setting_at(l: Seq<Event>, i: int, cwd: Seq<u8>, key: Seq<char>) -> (
    Result<bool, GitFailureView>,
    int,
) {
    let (r, i) = optional_at(
        l,
        i,
        cwd,
        "git config lookup"@,
        seq![utf8("config"@), utf8("--get"@), utf8(key)],
    );
    (
        match r {
            Err(failure) => Err(failure),
            Ok(None) => Ok(false),
            Ok(Some(value)) => Ok(!harmless_setting(value)),
        },
        i,
    )
}

fn setting<H: Host>(s: &mut Session<H>, cwd: &[u8], key: &str) -> (r: Result<bool, GitFailure>)
    ensures
        extends(final(s).log(), old(s).log()),
        forall|l: Seq<Event>|
            extends(l, final(s).log()) ==> #[trigger] setting_at(
                l,
                old(s).log().len() as int,
                cwd@,
                key@,
            ) == (said(r), final(s).log().len() as int),
{
    let args = words(&["config", "--get", key]);
    assert(views(args@) =~= seq![utf8("config"@), utf8("--get"@), utf8(key@)]);
    match optional_text(s, cwd, "git config lookup", args) {
        Err(failure) => Err(failure),
        Ok(None) => Ok(false),
        Ok(Some(value)) => {
            let value = value.as_str();
            Ok(!(same(
                value,
                "",
            ) || same(value, "false") || same(value, "input") || same(value, "native")))
        },
    }
}

/// An attribute with which a checkout changes a file.
pub open spec fn changing_attribute(name: Seq<u8>, value: Seq<u8>) -> bool {
    &&& name == utf8("filter"@) || name == utf8("text"@) || name == utf8("eol"@) || name == utf8(
        "working-tree-encoding"@,
    ) || name == utf8("ident"@)
    &&& !(value == utf8("unspecified"@) || value == utf8("unset"@))
}

fn is_changing_attribute(name: &[u8], value: &[u8]) -> (r: bool)
    ensures
        r == changing_attribute(name@, value@),
{
    (same_bytes(name, utf8_of("filter")) || same_bytes(name, utf8_of("text")) || same_bytes(
        name,
        utf8_of("eol"),
    ) || same_bytes(name, utf8_of("working-tree-encoding")) || same_bytes(name, utf8_of("ident")))
        && !(same_bytes(value, utf8_of("unspecified")) || same_bytes(value, utf8_of("unset")))
}

/// The fields of an answer, each of which ends in a zero byte.
pub open spec fn zero_fields(bytes: Seq<u8>) -> Seq<Seq<u8>> {
    let all = pieces(bytes, 0);
    if all.last().len() == 0 {
        all.drop_last()
    } else {
        all
    }
}

/// An answer about attributes is made of triples, each for a path that was
/// asked about.
pub open spec fn proper_triples(fields: Seq<Seq<u8>>, paths: Seq<Seq<u8>>) -> bool {
    &&& fields.len() % 3 == 0
    &&& forall|k: int| 0 <= k < fields.len() / 3 ==> paths.contains(#[trigger] fields[3 * k])
}

/// An answer about attributes has a checkout change `path`.
pub open spec fn changed_by(fields: Seq<Seq<u8>>, path: Seq<u8>) -> bool {
    exists|k: int|
        0 <= k < fields.len() / 3 && #[trigger] fields[3 * k] == path && changing_attribute(
            fields[3 * k + 1],
            fields[3 * k + 2],
        )
}

/// Which of the paths a checkout would change, by settings or by attributes.
#[verifier::opaque]
pub open spec fn transformed_paths_at(
    l: Seq<Event>,
    i: int,
    cwd: Seq<u8>,
    paths: Seq<Seq<u8>>,
) -> (Result<Seq<bool>, GitFailureView>, int) {
    let none = Seq::new(paths.len(), |k: int| false);
    let all = Seq::new(paths.len(), |k: int| true);
    if paths.len() == 0 {
        (Ok(none), i)
    } else {
        let (autocrlf, i) = setting_at(l, i, cwd, "core.autocrlf"@);
        match autocrlf {
            Err(failure) => (Err(failure), i),
            Ok(true) => (Ok(all), i),
            Ok(false) => {
                let (eol, i) = setting_at(l, i, cwd, "core.eol"@);
                match eol {
                    Err(failure) => (Err(failure), i),
                    Ok(true) => (Ok(all), i),
                    Ok(false) => {
                        let (r, i) = required_at(
                            l,
                            i,
                            "git attribute lookup"@,
                            fed_call(
                                cwd,
                                seq![
                                    utf8("check-attr"@),
                                    utf8("--cached"@),
                                    utf8("-z"@),
                                    utf8("-a"@),
                                    utf8("--stdin"@),
                                ],
                                zero_ended(paths),
                            ),
                        );
                        match r {
                            Err(failure) => (Err(failure), i),
                            Ok(output) => {
                                let fields = zero_fields(output.stdout);
                                if proper_triples(fields, paths) {
                                    (
                                        Ok(
                                            Seq::new(
                                                paths.len(),
                                                |k: int| changed_by(fields, paths[k]),
                                            ),
                                        ),
                                        i,
                                    )
                                } else {
                                    (
                                        Err(
                                            unreadable("malformed git check-attr -z response"@),
                                        ),
                                        i,
                                    )
                                }
                            },
                        }
                    },
                }
            },
        }
    }
}

fn same_flag(n: usize, flag: bool) -> (r: Vec<bool>)
    ensures
        r@ == Seq::new(n as nat, |k: int| flag),
{
    let mut out: Vec<bool> = Vec::new();
    for i in 0..n
        invariant
            out@ == Seq::new(i as nat, |k: int| flag),
    {
        out.push(flag);
        assert(out@ =~= Seq::new((i + 1) as nat, |k: int| flag));
    }
    out
}

/// Which of `paths` an answer about attributes has a checkout change.
pub fn attributed(answer: &[u8], paths: &Vec<Vec<u8>>) -> (r: Result<Vec<bool>, GitFailure>)
    ensures
        said(r) == (if proper_triples(zero_fields(answer@), views(paths@)) {
            Ok::<Seq<bool>, GitFailureView>(
                Seq::new(
                    views(paths@).len(),
                    |k: int| changed_by(zero_fields(answer@), views(paths@)[k]),
                ),
            )
        } else {
            Err::<Seq<bool>, GitFailureView>(unreadable("malformed git check-attr -z response"@))
        }),
{
    let mut fields = split_bytes(answer, 0);
    let ghost asked = views(paths@);
    proof {
        crate::text::lemma_pieces_nonempty(answer@, 0);
        assert(views(fields@).len() == fields@.len());
        assert(views(fields@).last() == fields@.last()@);
    }
    let last: usize = fields.len() - 1;
    if fields[last].len() == 0 {
        let ghost before = fields@;
        fields.pop();
        assert(views(fields@) =~= views(before).drop_last());
    }
    let ghost all = zero_fields(answer@);
    assert(views(fields@) =~= all);
    assert(all.len() == fields@.len());
    if fields.len() % 3 != 0 {
        return Err(parse_failure("malformed git check-attr -z response"));
    }
    let expected = NameSet::of(paths);
    let mut changed: Vec<Vec<u8>> = Vec::new();
    let total: usize = fields.len();
    let n: usize = total / 3;
    for i in 0..n
        invariant
            total == fields@.len(),
            views(fields@) == all,
            all.len() == fields@.len(),
            n == all.len() / 3,
            all.len() % 3 == 0,
            asked == views(paths@),
            all == zero_fields(answer@),
            expected@ == asked.to_set(),
            forall|k: int| 0 <= k < i ==> asked.contains(#[trigger] all[3 * k]),
            forall|p: Seq<u8>|
                #[trigger] views(changed@).contains(p) <==> exists|k: int|
                    0 <= k < i && #[trigger] all[3 * k] == p && changing_attribute(
                        all[3 * k + 1],
                        all[3 * k + 2],
                    ),
    {
        assert(3 * i + 2 < total);
        let at: usize = 3 * i;
        assert(all[at as int] == fields@[at as int]@);
        assert(all[at + 1] == fields@[at + 1]@);
        assert(all[at + 2] == fields@[at + 2]@);
        if !expected.contains(fields[at].as_slice()) {
            assert(!asked.contains(all[3 * (i as int)]));
            return Err(parse_failure("malformed git check-attr -z response"));
        }
        assert(asked.contains(all[3 * (i as int)]));
        let ghost before = views(changed@);
        if is_changing_attribute(fields[at + 1].as_slice(), fields[at + 2].as_slice()) {
            changed.push(copy(fields[at].as_slice()));
            assert(views(changed@) =~= before.push(all[3 * (i as int)]));
        }
        assert forall|p: Seq<u8>|
            #[trigger] views(changed@).contains(p) <==> exists|k: int|
                0 <= k < i + 1 && #[trigger] all[3 * k] == p && changing_attribute(
                    all[3 * k + 1],
                    all[3 * k + 2],
                ) by {
            let here = all[3 * (i as int)] == p && changing_attribute(all[at + 1], all[at + 2]);
            if views(changed@).contains(p) {
                if !here {
                    let j = choose|j: int| 0 <= j < views(changed@).len() && views(changed@)[j] == p;
                    assert(before[j] == p);
                    assert(before.contains(p));
                    let k = choose|k: int|
                        0 <= k < i && #[trigger] all[3 * k] == p && changing_attribute(
                            all[3 * k + 1],
                            all[3 * k + 2],
                        );
                    assert(0 <= k < i + 1 && all[3 * k] == p);
                }
            }
            if exists|k: int|
                0 <= k < i + 1 && #[trigger] all[3 * k] == p && changing_attribute(
                    all[3 * k + 1],
                    all[3 * k + 2],
                ) {
                if here {
                    assert(views(changed@).last() == p);
                } else {
                    let k = choose|k: int|
                        0 <= k < i + 1 && #[trigger] all[3 * k] == p && changing_attribute(
                            all[3 * k + 1],
                            all[3 * k + 2],
                        );
                    assert(k < i);
                    assert(before.contains(p));
                    let j = choose|j: int| 0 <= j < before.len() && before[j] == p;
                    assert(views(changed@)[j] == p);
                }
            }
        }
    }
    let transformed = NameSet::of(&changed);
    let mut flags: Vec<bool> = Vec::new();
    for i in 0..paths.len()
        invariant
            asked == views(paths@),
            n == all.len() / 3,
            transformed@ == views(changed@).to_set(),
            forall|p: Seq<u8>|
                #[trigger] views(changed@).contains(p) <==> exists|k: int|
                    0 <= k < n && #[trigger] all[3 * k] == p && changing_attribute(
                        all[3 * k + 1],
                        all[3 * k + 2],
                    ),
            flags@.len() == i,
            forall|k: int| 0 <= k < i ==> #[trigger] flags@[k] == changed_by(all, asked[k]),
    {
        assert(asked[i as int] == paths@[i as int]@);
        let flag = transformed.contains(paths[i].as_slice());
        assert(flag == views(changed@).contains(asked[i as int]));
        flags.push(flag);
    }
    assert(flags@ =~= Seq::new(asked.len(), |k: int| changed_by(all, asked[k])));
    Ok(flags)
}

/// Which of `paths` a checkout in `cwd` would change.
pub fn transformed_paths<H: Host>(s: &mut Session<H>, cwd: &[u8], paths: &Vec<Vec<u8>>) -> (r:
    Result<Vec<bool>, GitFailure>)
    ensures
        extends(final(s).log(), old(s).log()),
        forall|l: Seq<Event>|
            extends(l, final(s).log()) ==> #[trigger] transformed_paths_at(
                l,
                old(s).log().len() as int,
                cwd@,
                views(paths@),
            ) == (said(r), final(s).log().len() as int),
{
    proof {
        reveal(transformed_paths_at);
    }
    assert(views(paths@).len() == paths@.len());
    if paths.len() == 0 {
        return Ok(same_flag(0, false));
    }
    match setting(s, cwd, "core.autocrlf") {
        Err(failure) => {
            return Err(failure);
        },
        Ok(true) => {
            return Ok(same_flag(paths.len(), true));
        },
        Ok(false) => {},
    }
    match setting(s, cwd, "core.eol") {
        Err(failure) => {
            return Err(failure);
        },
        Ok(true) => {
            return Ok(same_flag(paths.len(), true));
        },
        Ok(false) => {},
    }
    let args = words(&["check-attr", "--cached", "-z", "-a", "--stdin"]);
    assert(views(args@) =~= seq![
        utf8("check-attr"@),
        utf8("--cached"@),
        utf8("-z"@),
        utf8("-a"@),
        utf8("--stdin"@),
    ]);
    match checked_with_input(s, cwd, "git attribute lookup", args, path_input(paths)) {
        Err(failure) => Err(failure),
        Ok(output) => attributed(output.stdout.as_slice(), paths),
    }
}

// ---------------------------------------------------------------------------
// Hashing files
// ---------------------------------------------------------------------------

/// The most paths that one run of Git hashes.
pub const MAX_PATHS: usize = 128;

/// The most bytes of paths that one run of Git hashes, where more than one
/// path is hashed.
pub const MAX_ARG_BYTES: usize = 61440;

/// Why files could not be hashed.
pub enum HashFilesError {
    Git(GitFailure),
    Cancelled,
}

/// The model of a [`HashFilesError`].
pub enum HashFailure {
    Git(GitFailureView),
    Cancelled,
}

/// The view of hashes, or of why there are none.
pub open spec fn hashes_said(r: Result<Vec<String>, HashFilesError>) -> Result<
    Seq<Seq<char>>,
    HashFailure,
> {
    match r {
        Ok(hashes) => Ok(text_views(hashes@)),
        Err(HashFilesError::Git(failure)) => Err(HashFailure::Git(failure@)),
        Err(HashFilesError::Cancelled) => Err(HashFailure::Cancelled),
    }
}

/// Where the batch ends that starts at `start` and has reached `end` with
/// `bytes` bytes: at the first path that does not fit.
pub open spec fn batch_from(paths: Seq<Seq<u8>>, start: int, end: int, bytes: int) -> int
    decreases paths.len() - end,
{
    if end < paths.len() && end - start < MAX_PATHS {
        let more = paths[end].len() + 1;
        if end > start && bytes + more > MAX_ARG_BYTES {
            end
        } else {
            batch_from(paths, start, end + 1, bytes + more)
        }
    } else {
        end
    }
}

/// Where the batch ends that starts at `start`.
pub open spec fn batch_end(paths: Seq<Seq<u8>>, start: int) -> int {
    batch_from(paths, start, start, 0)
}

/// A text without the carriage returns at its end.
pub open spec fn without_returns(s: Seq<char>) -> Seq<char>
    decreases s.len(),
{
    if s.len() > 0 && s.last() == '\r' {
        without_returns(s.drop_last())
    } else {
        s
    }
}

/// The hashes on the given lines, empty ones aside.
pub open spec fn hashes_on(lines: Seq<Seq<u8>>) -> Seq<Seq<char>>
    decreases lines.len(),
{
    if lines.len() == 0 {
        Seq::empty()
    } else {
        let before = hashes_on(lines.drop_last());
        if lines.last().len() == 0 {
            before
        } else {
            before.push(without_returns(lossy_text(lines.last())))
        }
    }
}

/// The command line that hashes the given files.
pub open spec fn hash_args(paths: Seq<Seq<u8>>) -> Seq<Seq<u8>> {
    seq![utf8("hash-object"@), utf8("--no-filters"@), utf8("--"@)] + paths
}

/// Hashes files in batches, from `start` on; `done` are the hashes so far.
pub open spec fn hash_files_from(
    l: Seq<Event>,
    i: int,
    cwd: Seq<u8>,
    paths: Seq<Seq<u8>>,
    start: int,
    done: Seq<Seq<char>>,
) -> (Result<Seq<Seq<char>>, HashFailure>, int)
    decreases paths.len() - start,
{
    if start >= paths.len() {
        (Ok(done), i)
    } else {
        let (cancelled, i) = cancelled_at(l, i);
        if cancelled {
            (Err(HashFailure::Cancelled), i)
        } else {
            let end = batch_end(paths, start);
            let (r, i) = checked_at(
                l,
                i,
                cwd,
                "git hash-object"@,
                hash_args(paths.subrange(start, end)),
            );
            match r {
                Err(failure) => (Err(HashFailure::Git(failure)), i),
                Ok(output) => {
                    let batch = hashes_on(pieces(output.stdout, 10));
                    if batch.len() != end - start {
                        (
                            Err(
                                HashFailure::Git(
                                    unreadable(
                                        "git hash-object returned an unexpected hash count"@,
                                    ),
                                ),
                            ),
                            i,
                        )
                    } else if end <= start || end > paths.len() {
                        arbitrary()
                    } else {
                        hash_files_from(l, i, cwd, paths, end, done + batch)
                    }
                },
            }
        }
    }
}

/// The hash of each file, without filters.
pub open spec fn hash_files_at(l: Seq<Event>, i: int, cwd: Seq<u8>, paths: Seq<Seq<u8>>) -> (
    Result<Seq<Seq<char>>, HashFailure>,
    int,
) {
    hash_files_from(l, i, cwd, paths, 0, Seq::empty())
}

fn find_batch_end(paths: &Vec<Vec<u8>>, start: usize) -> (r: usize)
    requires
        start < paths@.len(),
    ensures
        r == batch_end(views(paths@), start as int),
        start < r <= paths@.len(),
{
    let mut end: usize = start;
    let mut bytes: u128 = 0;
    assert(views(paths@).len() == paths@.len());
    while end < paths.len() && end - start < MAX_PATHS
        invariant_except_break
            end == start ==> bytes == 0,
            bytes <= 0x1_0000_0000_0000_0000 + MAX_ARG_BYTES,
        invariant
            start <= end <= paths@.len(),
            start < paths@.len(),
            views(paths@).len() == paths@.len(),
            batch_end(views(paths@), start as int) == batch_from(
                views(paths@),
                start as int,
                end as int,
                bytes as int,
            ),
        ensures
            end == batch_end(views(paths@), start as int),
            end > start,
        decreases paths@.len() - end,
    {
        assert(views(paths@)[end as int] == paths@[end as int]@);
        let more: u128 = paths[end].len() as u128 + 1;
        if end > start && bytes + more > MAX_ARG_BYTES as u128 {
            break;
        }
        bytes = bytes + more;
        end = end + 1;
    }
    end
}

fn trim_returns(text: &str) -> (r: String)
    ensures
        r@ == without_returns(text@),
{
    let chars = crate::text::chars_of(text);
    let mut end: usize = chars.len();
    assert(text@.take(end as int) =~= text@);
    while end > 0 && chars[end - 1] == '\r'
        invariant
            chars@ == text@,
            end <= chars@.len(),
            without_returns(text@) == without_returns(text@.take(end as int)),
        decreases end,
    {
        assert(text@.take(end as int).drop_last() =~= text@.take(end - 1));
        end = end - 1;
    }
    let r = crate::text::text_range(chars.as_slice(), 0, end);
    assert(r@ =~= text@.take(end as int));
    r
}

/// The hashes that a run printed, one on each line.
pub fn read_hashes(stdout: &[u8]) -> (r: Vec<String>)
    ensures
        text_views(r@) == hashes_on(pieces(stdout@, 10)),
{
    let lines = split_bytes(stdout, 10);
    let mut out: Vec<String> = Vec::new();
    assert(text_views(out@) =~= Seq::<Seq<char>>::empty());
    for i in 0..lines.len()
        invariant
            views(lines@) == pieces(stdout@, 10),
            text_views(out@) == hashes_on(views(lines@).take(i as int)),
    {
        let ghost all = views(lines@);
        let line = lines[i].as_slice();
        assert(all.take(i + 1).drop_last() =~= all.take(i as int));
        assert(all.take(i + 1).last() == line@);
        if line.len() > 0 {
            let ghost before = text_views(out@);
            let hash = trim_returns(lossy(line).as_str());
            let ghost shown = hash@;
            out.push(hash);
            assert(text_views(out@) =~= before.push(shown));
        }
    }
    assert(views(lines@).take(lines@.len() as int) =~= views(lines@));
    out
}

fn range_of(paths: &Vec<Vec<u8>>, start: usize, end: usize) -> (r: Vec<Vec<u8>>)
    requires
        start <= end <= paths@.len(),
    ensures
        views(r@) == views(paths@).subrange(start as int, end as int),
{
    let mut out: Vec<Vec<u8>> = Vec::new();
    let ghost all = views(paths@);
    assert(views(out@) =~= all.subrange(start as int, start as int));
    for i in start..end
        invariant
            start <= end <= paths@.len(),
            all == views(paths@),
            views(out@) == all.subrange(start as int, i as int),
    {
        let ghost before = views(out@);
        out.push(copy(paths[i].as_slice()));
        assert(views(out@) =~= before.push(all[i as int]));
        assert(all.subrange(start as int, i + 1) =~= all.subrange(start as int, i as int).push(
            all[i as int],
        ));
    }
    out
}

/// The hash of each file, without filters. Git is run on batches of paths, and
/// not again once the user has asked to stop.
pub fn hash_files<H: Host>(s: &mut Session<H>, cwd: &[u8], paths: &Vec<Vec<u8>>) -> (r: Result<
    Vec<String>,
    HashFilesError,
>)
    ensures
        extends(final(s).log(), old(s).log()),
        forall|l: Seq<Event>|
            extends(l, final(s).log()) ==> #[trigger] hash_files_at(
                l,
                old(s).log().len() as int,
                cwd@,
                views(paths@),
            ) == (hashes_said(r), final(s).log().len() as int),
{
    let mut hashes: Vec<String> = Vec::new();
    let mut start: usize = 0;
    let ghost from = s.log().len() as int;
    let ghost all = views(paths@);
    assert(all.len() == paths@.len());
    assert(text_views(hashes@) =~= Seq::<Seq<char>>::empty());
    while start < paths.len()
        invariant
            start <= paths@.len(),
            all == views(paths@),
            all.len() == paths@.len(),
            from == old(s).log().len(),
            extends(s.log(), old(s).log()),
            forall|l: Seq<Event>|
                extends(l, s.log()) ==> #[trigger] hash_files_at(l, from, cwd@, all)
                    == hash_files_from(
                    l,
                    s.log().len() as int,
                    cwd@,
                    all,
                    start as int,
                    text_views(hashes@),
                ),
        decreases paths@.len() - start,
    {
        if s.cancelled() {
            return Err(HashFilesError::Cancelled);
        }
        let end = find_batch_end(paths, start);
        let mut args = words(&["hash-object", "--no-filters", "--"]);
        assert(views(args@) =~= seq![utf8("hash-object"@), utf8("--no-filters"@), utf8("--"@)]);
        push_all(&mut args, &range_of(paths, start, end));
        let output = match checked(s, cwd, "git hash-object", args) {
            Ok(output) => output,
            Err(failure) => {
                return Err(HashFilesError::Git(failure));
            },
        };
        let batch = read_hashes(output.stdout.as_slice());
        assert(text_views(batch@).len() == batch@.len());
        if batch.len() != end - start {
            return Err(
                HashFilesError::Git(
                    parse_failure("git hash-object returned an unexpected hash count"),
                ),
            );
        }
        append_texts(&mut hashes, &batch);
        start = end;
    }
    Ok(hashes)
}

// ---------------------------------------------------------------------------
// Worktrees
// ---------------------------------------------------------------------------

/// The canonical form of a path, or the path itself where it has none.
pub open spec fn canonical_or_self_at(l: Seq<Event>, i: int, path: Seq<u8>) -> (Seq<u8>, int) {
    let (r, i) = canonicalize_at(l, i, path);
    (
        match r {
            Ok(found) => found,
            Err(_) => path,
        },
        i,
    )
}

/// The canonical form of `path`, or `path` itself where it has none.
pub fn canonical_or_self<H: Host>(s: &mut Session<H>, path: &[u8]) -> (r: Vec<u8>)
    ensures
        extends(final(s).log(), old(s).log()),
        forall|l: Seq<Event>|
            extends(l, final(s).log()) ==> #[trigger] canonical_or_self_at(
                l,
                old(s).log().len() as int,
                path@,
            ) == (r@, final(s).log().len() as int),
{
    match s.canonicalize(path) {
        Ok(found) => found,
        Err(_) => copy(path),
    }
}

/// Whether two paths name the same place once they are resolved.
pub open spec fn same_place_at(l: Seq<Event>, i: int, a: Seq<u8>, b: Seq<u8>) -> (bool, int) {
    let (a, i) = canonical_or_self_at(l, i, a);
    let (b, i) = canonical_or_self_at(l, i, b);
    (steps(a) == steps(b), i)
}

/// `a` and `b` name the same place once they are resolved.
pub fn same_place<H: Host>(s: &mut Session<H>, a: &[u8], b: &[u8]) -> (r: bool)
    ensures
        extends(final(s).log(), old(s).log()),
        forall|l: Seq<Event>|
            extends(l, final(s).log()) ==> #[trigger] same_place_at(
                l,
                old(s).log().len() as int,
                a@,
                b@,
            ) == (r, final(s).log().len() as int),
{
    let first = canonical_or_self(s, a);
    let second = canonical_or_self(s, b);
    same_path(first.as_slice(), second.as_slice())
}

/// The command line that lists the worktrees.
pub open spec fn list_args() -> Seq<Seq<u8>> {
    seq![utf8("worktree"@), utf8("list"@), utf8("--porcelain"@), utf8("-z"@)]
}

fn list_words() -> (r: Vec<Vec<u8>>)
    ensures
        views(r@) == list_args(),
{
    let args = words(&["worktree", "list", "--porcelain", "-z"]);
    assert(views(args@) =~= list_args());
    args
}

/// Whether one of the fields from `k` on is a worktree at `destination`.
pub open spec fn registered_from(
    l: Seq<Event>,
    i: int,
    fields: Seq<Seq<u8>>,
    k: int,
    destination: Seq<u8>,
) -> (bool, int)
    decreases fields.len() - k,
{
    if k >= fields.len() {
        (false, i)
    } else if !begins(fields[k], utf8("worktree "@)) {
        registered_from(l, i, fields, k + 1, destination)
    } else {
        let (same, i) = same_place_at(
            l,
            i,
            fields[k].skip(utf8("worktree "@).len() as int),
            destination,
        );
        if same {
            (true, i)
        } else {
            registered_from(l, i, fields, k + 1, destination)
        }
    }
}

/// Whether Git knows a worktree at `destination`.
pub open spec fn worktree_registered_at(
    l: Seq<Event>,
    i: int,
    cwd: Seq<u8>,
    destination: Seq<u8>,
) -> (Result<bool, GitFailureView>, int) {
    let (r, i) = checked_at(l, i, cwd, "git worktree ownership check"@, list_args());
    match r {
        Err(failure) => (Err(failure), i),
        Ok(output) => {
            let (found, i) = registered_from(l, i, pieces(output.stdout, 0), 0, destination);
            (Ok(found), i)
        },
    }
}

/// Git knows a worktree at `destination`.
pub fn worktree_registered<H: Host>(s: &mut Session<H>, cwd: &[u8], destination: &[u8]) -> (r:
    Result<bool, GitFailure>)
    ensures
        extends(final(s).log(), old(s).log()),
        forall|l: Seq<Event>|
            extends(l, final(s).log()) ==> #[trigger] worktree_registered_at(
                l,
                old(s).log().len() as int,
                cwd@,
                destination@,
            ) == (said(r), final(s).log().len() as int),
{
    let ghost from = s.log().len() as int;
    let output = match checked(s, cwd, "git worktree ownership check", list_words()) {
        Ok(output) => output,
        Err(failure) => {
            return Err(failure);
        },
    };
    let fields = split_bytes(output.stdout.as_slice(), 0);
    let prefix = word("worktree ");
    let ghost all = pieces(output.stdout@, 0);
    let n: usize = fields.len();
    assert(all.len() == n);
    for k in 0..n
        invariant
            n == fields@.len(),
            n == all.len(),
            views(fields@) == all,
            prefix@ == utf8("worktree "@),
            from == old(s).log().len(),
            extends(s.log(), old(s).log()),
            forall|l: Seq<Event>|
                extends(l, s.log()) ==> {
                    let (found, i) = registered_from(
                        l,
                        s.log().len() as int,
                        all,
                        k as int,
                        destination@,
                    );
                    #[trigger] worktree_registered_at(l, from, cwd@, destination@) == (
                        Ok::<bool, GitFailureView>(found),
                        i,
                    )
                },
    {
        let entry = fields[k].as_slice();
        assert(all[k as int] == entry@);
        if bytes_begin(entry, prefix.as_slice()) {
            let candidate = copy_range(entry, prefix.len(), entry.len());
            assert(candidate@ =~= entry@.skip(prefix@.len() as int));
            if same_place(s, candidate.as_slice(), destination) {
                return Ok(true);
            }
        }
    }
    Ok(false)
}

/// Whether a branch is checked out in some worktree.
pub open spec fn branch_checked_out_at(
    l: Seq<Event>,
    i: int,
    cwd: Seq<u8>,
    reference: Seq<char>,
) -> (
    Result<bool, GitFailureView>,
    int,
) {
    let (r, i) = checked_at(l, i, cwd, "git branch ownership check"@, list_args());
    (
        match r {
            Err(failure) => Err(failure),
            Ok(output) => Ok(pieces(output.stdout, 0).contains(utf8("branch "@ + reference))),
        },
        i,
    )
}

/// The branch `reference` is checked out in some worktree.
pub fn branch_checked_out<H: Host>(s: &mut Session<H>, cwd: &[u8], reference: &str) -> (r: Result<
    bool,
    GitFailure,
>)
    ensures
        extends(final(s).log(), old(s).log()),
        forall|l: Seq<Event>|
            extends(l, final(s).log()) ==> #[trigger] branch_checked_out_at(
                l,
                old(s).log().len() as int,
                cwd@,
                reference@,
            ) == (said(r), final(s).log().len() as int),
{
    let output = match checked(s, cwd, "git branch ownership check", list_words()) {
        Ok(output) => output,
        Err(failure) => {
            return Err(failure);
        },
    };
    let expected = text2("branch ", reference);
    let fields = split_bytes(output.stdout.as_slice(), 0);
    Ok(has_field(&fields, utf8_of(expected.as_str())))
}

fn has_field(fields: &Vec<Vec<u8>>, wanted: &[u8]) -> (r: bool)
    ensures
        r == views(fields@).contains(wanted@),
{
    for k in 0..fields.len()
        invariant
            forall|j: int| 0 <= j < k ==> (#[trigger] views(fields@)[j]) != wanted@,
    {
        assert(views(fields@)[k as int] == fields@[k as int]@);
        if same_bytes(fields[k].as_slice(), wanted) {
            return true;
        }
    }
    false
}

// ---------------------------------------------------------------------------
// Installing an index
// ---------------------------------------------------------------------------

/// Where an index is written before it takes its place.
pub open spec fn index_stage(destination: Seq<u8>, process: u32) -> Seq<u8> {
    let name = match name_of(destination) {
        Some(name) => lossy_text(name),
        None => "index"@,
    };
    renamed(destination, utf8("."@ + name + ".ramiz-"@ + decimal(process as nat)))
}

/// Writes, syncs and moves an index into place.
pub open spec fn place_index_at(
    l: Seq<Event>,
    i: int,
    bytes: Seq<u8>,
    stage: Seq<u8>,
    destination: Seq<u8>,
) -> (Option<Seq<char>>, int) {
    let (written, i) = write_new_at(l, i, stage, bytes);
    match written {
        Some(fault) => (Some(write_message(fault)), i),
        None => {
            let (moved, i) = rename_at(l, i, stage, destination);
            match (moved, parent_of(destination)) {
                (None, Some(above)) => sync_directory_at(l, i, above),
                (moved, _) => (moved, i),
            }
        },
    }
}

/// The message of a failure to write a new file.
pub open spec fn write_message(fault: WriteFaultView) -> Seq<char> {
    match fault {
        WriteFaultView::Create(e) => e,
        WriteFaultView::Write(e) => e,
        WriteFaultView::Sync(e) => e,
    }
}

/// Puts an index in place of another; what was written for it is removed
/// where that fails.
#[verifier::opaque]
pub open spec fn install_index_at(l: Seq<Event>, i: int, bytes: Seq<u8>, destination: Seq<u8>) -> (
    Option<Seq<char>>,
    int,
) {
    let (process, i) = process_id_at(l, i);
    let stage = index_stage(destination, process);
    let (problem, i) = place_index_at(l, i, bytes, stage, destination);
    match problem {
        None => (None, i),
        Some(message) => {
            let (_, i) = remove_file_at(l, i, stage);
            (Some(message), i)
        },
    }
}

fn place_index<H: Host>(s: &mut Session<H>, bytes: &[u8], stage: &[u8], destination: &[u8]) -> (r:
    Result<(), String>)
    ensures
        extends(final(s).log(), old(s).log()),
        forall|l: Seq<Event>|
            extends(l, final(s).log()) ==> #[trigger] place_index_at(
                l,
                old(s).log().len() as int,
                bytes@,
                stage@,
                destination@,
            ) == (crate::host::fault(r), final(s).log().len() as int),
{
    match s.write_new(stage, bytes) {
        Err(WriteFault::Create(e)) => Err(e),
        Err(WriteFault::Write(e)) => Err(e),
        Err(WriteFault::Sync(e)) => Err(e),
        Ok(_) => match s.rename(stage, destination) {
            Err(e) => Err(e),
            Ok(_) => match crate::path::parent(destination) {
                Some(above) => s.sync_directory(above.as_slice()),
                None => Ok(()),
            },
        },
    }
}

/// Puts `bytes` in place of the index at `destination`.
pub fn install_index<H: Host>(s: &mut Session<H>, bytes: &[u8], destination: &[u8]) -> (r: Result<
    (),
    String,
>)
    ensures
        extends(final(s).log(), old(s).log()),
        forall|l: Seq<Event>|
            extends(l, final(s).log()) ==> #[trigger] install_index_at(
                l,
                old(s).log().len() as int,
                bytes@,
                destination@,
            ) == (crate::host::fault(r), final(s).log().len() as int),
{
    proof {
        reveal(install_index_at);
    }
    let process = s.process_id();
    let name = match crate::path::file_name(destination) {
        Some(name) => lossy(name.as_slice()),
        None => "index".to_owned(),
    };
    let file = text4(".", name.as_str(), ".ramiz-", decimal_text(process as u128).as_str());
    let stage = crate::path::with_file_name(destination, utf8_of(file.as_str()));
    match place_index(s, bytes, stage.as_slice(), destination) {
        Ok(_) => Ok(()),
        Err(message) => {
            let _ = s.remove_file(stage.as_slice());
            Err(message)
        },
    }
}

} // verus!
