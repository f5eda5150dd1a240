//! What the program reports when it fails.
use crate::text::{text2, text_views};
use crate::update::model::{text_option, FailureView, UpdateFailure};
use vstd::prelude::*;

verus! {

/// What a hook printed, in base64.
#[derive(Clone, Debug)]
pub struct HookOutput {
    pub encoding: &'static str,
    pub stdout: String,
    pub stderr: String,
}

/// The model of a [`HookOutput`].
#[verifier::ext_equal]
pub struct HookView {
    pub encoding: Seq<char>,
    pub stdout: Seq<char>,
    pub stderr: Seq<char>,
}

impl View for HookOutput {
    type V = HookView;

    open spec fn view(&self) -> HookView {
        HookView { encoding: self.encoding@, stdout: self.stdout@, stderr: self.stderr@ }
    }
}

/// The data of a failure.
pub struct ErrorData {
    pub code: &'static str,
    pub message: String,
    /// The failure left a worktree behind.
    pub worktree_created: Option<bool>,
    /// What could not be cleaned up, and how to go on.
    pub cleanup: Option<String>,
    pub hook_output: Option<HookOutput>,
    pub update: Option<UpdateFailure>,
}

/// The model of a [`RamizError`].
#[verifier::ext_equal]
pub struct ErrorView {
    pub code: Seq<char>,
    pub message: Seq<char>,
    pub worktree_created: Option<bool>,
    pub cleanup: Option<Seq<char>>,
    pub hook_output: Option<HookView>,
    pub update: Option<FailureView>,
    pub json: bool,
    pub exit_code: u8,
}

/// A failure of the program.
pub struct RamizError {
    pub data: Box<ErrorData>,
    pub json: bool,
    pub exit_code: u8,
}

impl View for RamizError {
    type V = ErrorView;

    open spec fn view(&self) -> ErrorView {
        ErrorView {
            code: self.data.code@,
            message: self.data.message@,
            worktree_created: self.data.worktree_created,
            cleanup: text_option(self.data.cleanup),
            hook_output: match self.data.hook_output {
                Some(output) => Some(output@),
                None => None,
            },
            update: match self.data.update {
                Some(failure) => Some(failure@),
                None => None,
            },
            json: self.json,
            exit_code: self.exit_code,
        }
    }
}

/// A failure with nothing but a code and a message.
pub open spec fn problem(code: Seq<char>, message: Seq<char>, json: bool) -> ErrorView {
    ErrorView {
        code,
        message,
        worktree_created: None,
        cleanup: None,
        hook_output: None,
        update: None,
        json,
        exit_code: 1,
    }
}

impl ErrorView {
    /// The same failure, which left a worktree behind.
    pub open spec fn created(self) -> ErrorView {
        ErrorView { worktree_created: Some(true), ..self }
    }

    /// The same failure, with what could not be cleaned up.
    pub open spec fn cleaned(self, cleanup: Option<Seq<char>>) -> ErrorView {
        match cleanup {
            Some(_) => ErrorView { cleanup, ..self },
            None => self,
        }
    }

    /// The same failure, with what a hook printed.
    pub open spec fn hooked(self, stdout: Seq<char>, stderr: Seq<char>) -> ErrorView {
        ErrorView {
            hook_output: Some(HookView { encoding: "base64"@, stdout, stderr }),
            ..self
        }
    }

    /// What the failure prints for a human reader.
    pub open spec fn lines(self) -> Seq<Seq<char>> {
        let first = seq!["ramiz: "@ + self.message];
        let second = labelled("cleanup: "@, self.cleanup);
        let third = match self.update {
            Some(failure) => labelled("rollback: "@, failure.rollback) + labelled(
                "cleanup: "@,
                failure.cleanup,
            ),
            None => Seq::empty(),
        };
        first + second + third
    }
}

/// A labelled line, where there is something to say.
pub open spec fn labelled(label: Seq<char>, text: Option<Seq<char>>) -> Seq<Seq<char>> {
    match text {
        Some(text) => seq![label + text],
        None => Seq::empty(),
    }
}

fn push_labelled(lines: &mut Vec<String>, label: &str, text: &Option<String>)
    ensures
        text_views(final(lines)@) == text_views(old(lines)@) + labelled(label@, text_option(*text)),
{
    match text {
        Some(text) => {
            let ghost before = lines@;
            let line = text2(label, text.as_str());
            let ghost shown = line@;
            lines.push(line);
            assert(text_views(lines@) =~= text_views(before).push(shown));
            assert(text_views(lines@) =~= text_views(before) + seq![shown]);
        },
        None => {
            assert(text_views(lines@) =~= text_views(lines@) + Seq::<Seq<char>>::empty());
        },
    }
}

impl RamizError {
    /// A failure with nothing but a code and a message.
    pub fn new(code: &'static str, message: String, json: bool) -> (r: Self)
        ensures
            r@ == problem(code@, message@, json),
    {
        RamizError {
            data: Box::new(
                ErrorData {
                    code,
                    message,
                    worktree_created: None,
                    cleanup: None,
                    hook_output: None,
                    update: None,
                },
            ),
            json,
            exit_code: 1,
        }
    }

    /// The same failure, which left a worktree behind.
    pub fn worktree_created(self) -> (r: Self)
        ensures
            r@ == self@.created(),
    {
        let mut data = *self.data;
        data.worktree_created = Some(true);
        RamizError { data: Box::new(data), json: self.json, exit_code: self.exit_code }
    }

    /// The same failure, with what could not be cleaned up.
    pub fn with_cleanup(self, cleanup: String) -> (r: Self)
        ensures
            r@ == self@.cleaned(Some(cleanup@)),
    {
        let mut data = *self.data;
        data.cleanup = Some(cleanup);
        RamizError { data: Box::new(data), json: self.json, exit_code: self.exit_code }
    }

    /// The same failure, with what a hook printed, in base64.
    pub fn with_hook_output(self, stdout: String, stderr: String) -> (r: Self)
        ensures
            r@ == self@.hooked(stdout@, stderr@),
    {
        let mut data = *self.data;
        data.hook_output = Some(HookOutput { encoding: "base64", stdout, stderr });
        RamizError { data: Box::new(data), json: self.json, exit_code: self.exit_code }
    }

    /// The same failure, with the state that a failed update left.
    pub fn with_update_details(self, details: UpdateFailure) -> (r: Self)
        ensures
            r@ == (ErrorView { update: Some(details@), ..self@ }),
    {
        let mut data = *self.data;
        data.update = Some(details);
        RamizError { data: Box::new(data), json: self.json, exit_code: self.exit_code }
    }

    /// The failure of an update.
    pub fn of_update(failure: UpdateFailure, json: bool) -> (r: Self)
        ensures
            r@ == (ErrorView {
                update: Some(failure@),
                ..problem(failure@.code, failure@.message, json)
            }),
    {
        let message = failure.message.clone();
        RamizError::new(failure.code, message, json).with_update_details(failure)
    }

    /// The status that the program ends with.
    pub fn exit_code(&self) -> (r: u8)
        ensures
            r == self@.exit_code,
    {
        self.exit_code
    }

    /// What the failure prints for a human reader.
    pub fn lines(&self) -> (r: Vec<String>)
        ensures
            text_views(r@) == self@.lines(),
    {
        let mut out: Vec<String> = Vec::new();
        let first = text2("ramiz: ", self.data.message.as_str());
        let ghost shown = first@;
        out.push(first);
        assert(text_views(out@) =~= seq![shown]);
        push_labelled(&mut out, "cleanup: ", &self.data.cleanup);
        match &self.data.update {
            Some(failure) => {
                let ghost so_far = text_views(out@);
                push_labelled(&mut out, "rollback: ", &failure.rollback);
                push_labelled(&mut out, "cleanup: ", &failure.cleanup);
                assert(text_views(out@) =~= so_far + (labelled("rollback: "@, failure@.rollback)
                    + labelled("cleanup: "@, failure@.cleanup)));
            },
            None => {
                assert(text_views(out@) =~= text_views(out@) + Seq::<Seq<char>>::empty());
            },
        }
        out
    }
}

} // verus!
