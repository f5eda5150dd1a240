//! What a new worktree reports, and the hook that runs last.
use crate::doctor::ended;
use crate::error::{problem, ErrorView, HookOutput, HookView, RamizError};
use crate::git::{run_post_checkout, run_post_checkout_at, GitFailureView};
use crate::host::{forward_at, Event, Host, Session};
use crate::output::{base64, base64_text, encoded, encoded_views, EncodedPath, EncodedView};
use crate::text::{decimal, decimal_text, signed_decimal, signed_text, text2, text5, text_views};
use crate::update::io::extends;
use crate::update::model::text_option;
use vstd::prelude::*;

verus! {

/// What is told of a new worktree.
pub struct AddData {
    pub path: EncodedPath,
    /// The commit that is checked out; none before the first commit.
    pub head: Option<String>,
    pub backend: &'static str,
    pub cow_files: usize,
    pub git_files: usize,
    pub copied_files: usize,
    pub hardlinks: usize,
    pub skipped_special: Vec<EncodedPath>,
    pub inherited_symlinks: Vec<EncodedPath>,
    pub donor_links: Vec<EncodedPath>,
    pub hook_output: HookOutput,
}

/// A new worktree: what is told of it, and of what to beware.
pub struct Added {
    pub data: AddData,
    pub warnings: Vec<String>,
}

/// The model of [`Added`].
#[verifier::ext_equal]
pub struct AddedView {
    pub path: EncodedView,
    pub head: Option<Seq<char>>,
    pub backend: Seq<char>,
    pub cow_files: int,
    pub git_files: int,
    pub copied_files: int,
    pub hardlinks: int,
    pub skipped_special: Seq<EncodedView>,
    pub inherited_symlinks: Seq<EncodedView>,
    pub donor_links: Seq<EncodedView>,
    pub hook_output: HookView,
    pub warnings: Seq<Seq<char>>,
}

impl View for Added {
    type V = AddedView;

    open spec fn view(&self) -> AddedView {
        AddedView {
            path: self.data.path@,
            head: text_option(self.data.head),
            backend: self.data.backend@,
            cow_files: self.data.cow_files as int,
            git_files: self.data.git_files as int,
            copied_files: self.data.copied_files as int,
            hardlinks: self.data.hardlinks as int,
            skipped_special: encoded_views(self.data.skipped_special@),
            inherited_symlinks: encoded_views(self.data.inherited_symlinks@),
            donor_links: encoded_views(self.data.donor_links@),
            hook_output: self.data.hook_output@,
            warnings: text_views(self.warnings@),
        }
    }
}

/// What a hook printed, in base64.
pub open spec fn hook_view(stdout: Seq<u8>, stderr: Seq<u8>) -> HookView {
    HookView {
        encoding: "base64"@,
        stdout: base64_text(stdout),
        stderr: base64_text(stderr),
    }
}

/// What a hook printed, in base64.
pub fn hook_output(stdout: &[u8], stderr: &[u8]) -> (r: HookOutput)
    ensures
        r@ == hook_view(stdout@, stderr@),
{
    HookOutput { encoding: "base64", stdout: base64(stdout), stderr: base64(stderr) }
}

/// A worktree into which nothing was inherited.
pub open spec fn plain_worktree(
    destination: Seq<u8>,
    head: Option<Seq<char>>,
    backend: Seq<char>,
    cow_files: int,
    git_files: int,
    hook: HookView,
    warnings: Seq<Seq<char>>,
) -> AddedView {
    AddedView {
        path: encoded(destination),
        head,
        backend,
        cow_files,
        git_files,
        copied_files: 0,
        hardlinks: 0,
        skipped_special: Seq::empty(),
        inherited_symlinks: Seq::empty(),
        donor_links: Seq::empty(),
        hook_output: hook,
        warnings,
    }
}

/// A worktree into which nothing was inherited.
pub fn plain_added(
    destination: &[u8],
    head: Option<String>,
    backend: &'static str,
    cow_files: usize,
    git_files: usize,
    hook: HookOutput,
    warnings: Vec<String>,
) -> (r: Added)
    ensures
        r@ == plain_worktree(
            destination@,
            text_option(head),
            backend@,
            cow_files as int,
            git_files as int,
            hook@,
            text_views(warnings@),
        ),
{
    let r = Added {
        data: AddData {
            path: EncodedPath::new(destination),
            head,
            backend,
            cow_files,
            git_files,
            copied_files: 0,
            hardlinks: 0,
            skipped_special: Vec::new(),
            inherited_symlinks: Vec::new(),
            donor_links: Vec::new(),
            hook_output: hook,
        },
        warnings,
    };
    assert(r@ =~= plain_worktree(
        destination@,
        text_option(head),
        backend@,
        cow_files as int,
        git_files as int,
        hook@,
        text_views(warnings@),
    ));
    r
}

impl AddedView {
    /// The new worktree, for a human reader.
    pub open spec fn line(self) -> Seq<char> {
        "created "@ + self.path.display + " at "@ + (match self.head {
            Some(head) => head,
            None => "unborn"@,
        }) + " via "@ + self.backend + " ("@ + decimal(self.cow_files as nat) + " CoW, "@ + decimal(
            self.git_files as nat,
        ) + " Git-materialized files)"@
    }
}

impl Added {
    /// The new worktree, for a human reader.
    pub fn line(&self) -> (r: String)
        ensures
            r@ == self@.line(),
    {
        let head: &str = match &self.data.head {
            Some(head) => head.as_str(),
            None => "unborn",
        };
        let front = text5("created ", self.data.path.display.as_str(), " at ", head, " via ");
        let middle = text5(
            front.as_str(),
            self.data.backend,
            " (",
            decimal_text(self.data.cow_files as u128).as_str(),
            " CoW, ",
        );
        let r = crate::text::text3(
            middle.as_str(),
            decimal_text(self.data.git_files as u128).as_str(),
            " Git-materialized files)",
        );
        assert(r@ =~= self@.line());
        r
    }

    /// What to beware of, for a human reader.
    pub fn warning_lines(&self) -> (r: Vec<String>)
        ensures
            text_views(r@) == self@.warnings.map_values(|w: Seq<char>| "warning: "@ + w),
    {
        let mut out: Vec<String> = Vec::new();
        let n: usize = self.warnings.len();
        for k in 0..n
            invariant
                n == self.warnings@.len(),
                out@.len() == k,
                forall|j: int|
                    0 <= j < k ==> (#[trigger] out@[j])@ == "warning: "@ + self.warnings@[j]@,
        {
            out.push(text2("warning: ", self.warnings[k].as_str()));
        }
        assert(text_views(out@) =~= self@.warnings.map_values(|w: Seq<char>| "warning: "@ + w));
        out
    }
}

// ---------------------------------------------------------------------------
// The hook
// ---------------------------------------------------------------------------

/// A status in words.
pub open spec fn status_text(code: Option<i32>) -> Seq<char> {
    match code {
        Some(code) => signed_decimal(code as int),
        None => "signal"@,
    }
}

/// The hook failed. The worktree is there and stays.
pub open spec fn hook_problem(failure: GitFailureView, json: bool) -> ErrorView {
    problem(
        "post_checkout_failed"@,
        "post-checkout hook failed with exit status "@ + status_text(failure.code),
        json,
    ).created().hooked(base64_text(failure.stdout), base64_text(failure.stderr))
}

/// Runs the hook; what it printed is passed on, unless one envelope is all
/// that is printed.
pub open spec fn post_checkout_at(
    l: Seq<Event>,
    i: int,
    destination: Seq<u8>,
    target: Seq<char>,
    json: bool,
) -> (Result<HookView, ErrorView>, int) {
    let (r, i) = run_post_checkout_at(l, i, destination, target);
    match r {
        Ok(output) => {
            let i = if json {
                i
            } else {
                forward_at(l, i, output.stdout, output.stderr)
            };
            (Ok(hook_view(output.stdout, output.stderr)), i)
        },
        Err(failure) => {
            let i = if json {
                i
            } else {
                forward_at(l, i, failure.stdout, failure.stderr)
            };
            (Err(hook_problem(failure, json)), i)
        },
    }
}

/// Runs the hook for the new worktree.
pub fn post_checkout<H: Host>(
    s: &mut Session<H>,
    destination: &[u8],
    target: &str,
    json: bool,
) -> (r:
    Result<HookOutput, RamizError>)
    ensures
        extends(final(s).log(), old(s).log()),
        forall|l: Seq<Event>|
            extends(l, final(s).log()) ==> #[trigger] post_checkout_at(
                l,
                old(s).log().len() as int,
                destination@,
                target@,
                json,
            ) == (ended(r), final(s).log().len() as int),
{
    match run_post_checkout(s, destination, target) {
        Ok(output) => {
            if !json {
                s.forward(output.stdout.as_slice(), output.stderr.as_slice());
            }
            Ok(hook_output(output.stdout.as_slice(), output.stderr.as_slice()))
        },
        Err(failure) => {
            if !json {
                s.forward(failure.stdout.as_slice(), failure.stderr.as_slice());
            }
            let status = match failure.code {
                Some(code) => signed_text(code),
                None => "signal".to_owned(),
            };
            let message = text2(
                "post-checkout hook failed with exit status ",
                status.as_str(),
            );
            Err(
                RamizError::new(
                    "post_checkout_failed",
                    message,
                    json,
                ).worktree_created().with_hook_output(
                    base64(failure.stdout.as_slice()),
                    base64(failure.stderr.as_slice()),
                ),
            )
        },
    }
}

} // verus!
