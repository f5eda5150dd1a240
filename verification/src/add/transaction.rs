//! Taking back what was made.
use crate::add::destination::objection;
use crate::error::{problem, ErrorView, RamizError};
use crate::git::{
    branch_checked_out, branch_checked_out_at, checked, checked_at, delete_ref_if,
    delete_ref_if_at, words,
};
use crate::host::{
    cancelled_at, create_directories_at, path_exists_at, Event, Host, Session,
};
use crate::outside::{lossy, lossy_text};
use crate::text::{copy, join_text, joined_text, text3, text4, text_views, utf8, views};
use crate::update::io::extends;
use crate::update::model::text_option;
use vstd::prelude::*;

verus! {

/// What was made for a new worktree, and can be taken back.
pub struct Transaction {
    pub repository: Vec<u8>,
    pub destination: Vec<u8>,
    /// The destination was an empty directory before.
    pub existed_empty: bool,
    /// The branch that was made.
    pub branch_ref: Option<String>,
    /// The commit that it was made at.
    pub created_oid: Option<String>,
    pub registered: bool,
    pub rollback_enabled: bool,
}

/// The model of a [`Transaction`].
#[verifier::ext_equal]
pub struct TransactionView {
    pub repository: Seq<u8>,
    pub destination: Seq<u8>,
    pub existed_empty: bool,
    pub branch_ref: Option<Seq<char>>,
    pub created_oid: Option<Seq<char>>,
    pub registered: bool,
    pub rollback_enabled: bool,
}

impl View for Transaction {
    type V = TransactionView;

    open spec fn view(&self) -> TransactionView {
        TransactionView {
            repository: self.repository@,
            destination: self.destination@,
            existed_empty: self.existed_empty,
            branch_ref: text_option(self.branch_ref),
            created_oid: text_option(self.created_oid),
            registered: self.registered,
            rollback_enabled: self.rollback_enabled,
        }
    }
}

/// The command line that takes a worktree away.
pub open spec fn remove_args(destination: Seq<u8>) -> Seq<Seq<u8>> {
    seq![utf8("worktree"@), utf8("remove"@), utf8("--force"@), destination]
}

/// Takes the worktree away; the second part says that this was done.
pub open spec fn unregister_at(l: Seq<Event>, i: int, t: TransactionView) -> (
    (Seq<Seq<char>>, bool),
    int,
) {
    if !t.registered {
        ((Seq::empty(), false), i)
    } else {
        let (r, i) = checked_at(
            l,
            i,
            t.repository,
            "git worktree rollback"@,
            remove_args(t.destination),
        );
        match r {
            Ok(_) => ((Seq::empty(), true), i),
            Err(failure) => ((seq![failure.text()], false), i),
        }
    }
}

/// Makes the empty destination again, where there was one and the worktree is
/// gone.
pub open spec fn restore_empty_at(
    l: Seq<Event>,
    i: int,
    t: TransactionView,
    removed: bool,
    problems: Seq<Seq<char>>,
) -> (Seq<Seq<char>>, int) {
    if !(t.existed_empty && removed) {
        (problems, i)
    } else {
        let (there, i) = path_exists_at(l, i, t.destination);
        if there {
            (problems, i)
        } else {
            let (made, i) = create_directories_at(l, i, t.destination);
            match made {
                None => (problems, i),
                Some(error) => (
                    problems.push(
                        "restore empty "@ + lossy_text(t.destination) + ": "@ + error,
                    ),
                    i,
                ),
            }
        }
    }
}

/// Deletes the branch that was made, unless it is checked out somewhere.
pub open spec fn drop_branch_at(
    l: Seq<Event>,
    i: int,
    t: TransactionView,
    problems: Seq<Seq<char>>,
) -> (Seq<Seq<char>>, int) {
    match (t.branch_ref, t.created_oid) {
        (Some(reference), Some(oid)) => {
            let (used, i) = branch_checked_out_at(l, i, t.repository, reference);
            match used {
                Err(failure) => (problems.push(failure.text()), i),
                Ok(true) => (
                    problems.push(
                        "owned branch "@ + reference
                            + " is checked out; refusing to delete it"@,
                    ),
                    i,
                ),
                Ok(false) => {
                    let (deleted, i) = delete_ref_if_at(l, i, t.repository, reference, oid);
                    match deleted {
                        None => (problems, i),
                        Some(failure) => (problems.push(failure.text()), i),
                    }
                },
            }
        },
        _ => (problems, i),
    }
}

/// Takes back what was made, once; what could not be taken back is told.
#[verifier::opaque]
pub open spec fn rollback_at(l: Seq<Event>, i: int, t: TransactionView) -> (
    Option<Seq<char>>,
    int,
) {
    if !t.rollback_enabled {
        (None, i)
    } else {
        let ((problems, removed), i) = unregister_at(l, i, t);
        let (problems, i) = restore_empty_at(l, i, t, removed, problems);
        let (problems, i) = drop_branch_at(l, i, t, problems);
        (
            if problems.len() == 0 {
                None
            } else {
                Some(
                    joined_text(problems, "; "@)
                        + "; recover with `git worktree repair` and inspect `"@ + lossy_text(
                        t.destination,
                    ) + "`"@,
                )
            },
            i,
        )
    }
}

fn note(problems: &mut Vec<String>, text: String)
    ensures
        text_views(final(problems)@) == text_views(old(problems)@).push(text@),
{
    let ghost before = text_views(problems@);
    let ghost shown = text@;
    problems.push(text);
    assert(text_views(problems@) =~= before.push(shown));
}

impl Transaction {
    fn unregister<H: Host>(&self, s: &mut Session<H>) -> (r: (Vec<String>, bool))
        ensures
            extends(final(s).log(), old(s).log()),
            forall|l: Seq<Event>|
                extends(l, final(s).log()) ==> #[trigger] unregister_at(
                    l,
                    old(s).log().len() as int,
                    self@,
                ) == ((text_views(r.0@), r.1), final(s).log().len() as int),
    {
        let mut problems: Vec<String> = Vec::new();
        assert(text_views(problems@) =~= Seq::<Seq<char>>::empty());
        if !self.registered {
            return (problems, false);
        }
        let mut line = words(&["worktree", "remove", "--force"]);
        let ghost front = views(line@);
        assert(front =~= seq![utf8("worktree"@), utf8("remove"@), utf8("--force"@)]);
        line.push(copy(self.destination.as_slice()));
        assert(views(line@) =~= front.push(self.destination@));
        assert(views(line@) =~= remove_args(self.destination@));
        match checked(s, self.repository.as_slice(), "git worktree rollback", line) {
            Ok(_) => (problems, true),
            Err(failure) => {
                note(&mut problems, failure.message());
                assert(text_views(problems@) =~= seq![failure@.text()]);
                (problems, false)
            },
        }
    }

    fn restore_empty<H: Host>(&self, s: &mut Session<H>, removed: bool, problems: &mut Vec<String>)
        ensures
            extends(final(s).log(), old(s).log()),
            forall|l: Seq<Event>|
                extends(l, final(s).log()) ==> #[trigger] restore_empty_at(
                    l,
                    old(s).log().len() as int,
                    self@,
                    removed,
                    text_views(old(problems)@),
                ) == (text_views(final(problems)@), final(s).log().len() as int),
    {
        if self.existed_empty && removed {
            if !s.path_exists(self.destination.as_slice()) {
                match s.create_directories(self.destination.as_slice()) {
                    Ok(_) => {},
                    Err(error) => {
                        note(
                            problems,
                            text4(
                                "restore empty ",
                                lossy(self.destination.as_slice()).as_str(),
                                ": ",
                                error.as_str(),
                            ),
                        );
                    },
                }
            }
        }
    }

    fn drop_branch<H: Host>(&self, s: &mut Session<H>, problems: &mut Vec<String>)
        ensures
            extends(final(s).log(), old(s).log()),
            forall|l: Seq<Event>|
                extends(l, final(s).log()) ==> #[trigger] drop_branch_at(
                    l,
                    old(s).log().len() as int,
                    self@,
                    text_views(old(problems)@),
                ) == (text_views(final(problems)@), final(s).log().len() as int),
    {
        match (&self.branch_ref, &self.created_oid) {
            (Some(reference), Some(oid)) => {
                match branch_checked_out(s, self.repository.as_slice(), reference.as_str()) {
                    Err(failure) => {
                        note(problems, failure.message());
                    },
                    Ok(true) => {
                        note(
                            problems,
                            text3(
                                "owned branch ",
                                reference.as_str(),
                                " is checked out; refusing to delete it",
                            ),
                        );
                    },
                    Ok(false) => {
                        match delete_ref_if(
                            s,
                            self.repository.as_slice(),
                            reference.as_str(),
                            oid.as_str(),
                        ) {
                            Ok(_) => {},
                            Err(failure) => {
                                note(problems, failure.message());
                            },
                        }
                    },
                }
            },
            _ => {},
        }
    }

    /// Takes back what was made, once; what could not be taken back is told.
    pub fn rollback<H: Host>(&mut self, s: &mut Session<H>) -> (r: Option<String>)
        ensures
            extends(final(s).log(), old(s).log()),
            forall|l: Seq<Event>|
                extends(l, final(s).log()) ==> #[trigger] rollback_at(
                    l,
                    old(s).log().len() as int,
                    old(self)@,
                ) == (text_option(r), final(s).log().len() as int),
            final(self)@ == (TransactionView { rollback_enabled: false, ..old(self)@ }),
    {
        proof {
            reveal(rollback_at);
        }
        if !self.rollback_enabled {
            return None;
        }
        let (mut problems, removed) = self.unregister(s);
        self.restore_empty(s, removed, &mut problems);
        self.drop_branch(s, &mut problems);
        self.rollback_enabled = false;
        assert(text_views(problems@).len() == problems@.len());
        if problems.len() == 0 {
            None
        } else {
            Some(
                text4(
                    join_text(&problems, "; ").as_str(),
                    "; recover with `git worktree repair` and inspect `",
                    lossy(self.destination.as_slice()).as_str(),
                    "`",
                ),
            )
        }
    }
}

/// A failure after which what was made is taken back.
pub open spec fn fail_at(l: Seq<Event>, i: int, error: ErrorView, t: TransactionView) -> (
    ErrorView,
    int,
) {
    let (cleanup, i) = rollback_at(l, i, t);
    (error.cleaned(cleanup), i)
}

/// Takes back what was made, and adds what could not be to the failure.
pub fn fail<H: Host>(s: &mut Session<H>, error: RamizError, t: &mut Transaction) -> (r: RamizError)
    ensures
        extends(final(s).log(), old(s).log()),
        forall|l: Seq<Event>|
            extends(l, final(s).log()) ==> #[trigger] fail_at(
                l,
                old(s).log().len() as int,
                error@,
                old(t)@,
            ) == (r@, final(s).log().len() as int),
        final(t)@ == (TransactionView { rollback_enabled: false, ..old(t)@ }),
{
    match t.rollback(s) {
        Some(cleanup) => error.with_cleanup(cleanup),
        None => error,
    }
}

/// The user has asked to stop.
pub open spec fn interrupted(json: bool) -> ErrorView {
    problem("interrupted"@, "creation interrupted"@, json)
}

/// The failure, where the user has asked to stop.
pub open spec fn check_cancelled_at(l: Seq<Event>, i: int, json: bool, t: TransactionView) -> (
    Option<ErrorView>,
    int,
) {
    let (cancelled, i) = cancelled_at(l, i);
    if cancelled {
        let (error, i) = fail_at(l, i, interrupted(json), t);
        (Some(error), i)
    } else {
        (None, i)
    }
}

/// Takes back what was made where the user has asked to stop.
pub fn check_cancelled<H: Host>(s: &mut Session<H>, json: bool, t: &mut Transaction) -> (r: Result<
    (),
    RamizError,
>)
    ensures
        extends(final(s).log(), old(s).log()),
        forall|l: Seq<Event>|
            extends(l, final(s).log()) ==> #[trigger] check_cancelled_at(
                l,
                old(s).log().len() as int,
                json,
                old(t)@,
            ) == (objection(r), final(s).log().len() as int),
        r is Ok ==> *final(t) == *old(t),
        r is Err ==> final(t)@ == (TransactionView { rollback_enabled: false, ..old(t)@ }),
{
    if s.cancelled() {
        let error = RamizError::new("interrupted", "creation interrupted".to_owned(), json);
        return Err(fail(s, error, t));
    }
    Ok(())
}

} // verus!
