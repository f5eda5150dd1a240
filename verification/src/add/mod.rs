//! Making a worktree.
pub mod branch;
pub mod carried;
pub mod clean;
pub mod copied;
pub mod destination;
pub mod guarantees;
pub mod inherited;
pub mod isolation;
pub mod laws;
pub mod links;
pub mod materialize;
pub mod meant;
pub mod owed;
pub mod planned;
pub mod preflight;
pub mod proven;
pub mod recorded;
pub mod recovery;
pub mod report;
pub mod sequence;
pub mod taken_over;
pub mod transaction;
pub mod unborn;

use crate::add::clean::{run_clean, run_clean_at};
use crate::add::inherited::{run_inherit, run_inherit_at};
use crate::add::report::{Added, AddedView};
use crate::cli::{AddArgs, AddView};
use crate::doctor::ended;
use crate::error::{ErrorView, RamizError};
use crate::host::{Event, Host, Session};
use crate::update::io::extends;
use vstd::prelude::*;

verus! {

/// Makes a worktree: a clean one, or one that inherits.
pub open spec fn run_at(l: Seq<Event>, i: int, args: AddView) -> (
    Result<AddedView, ErrorView>,
    int,
) {
    if args.inherit {
        run_inherit_at(l, i, args)
    } else {
        run_clean_at(l, i, args)
    }
}

/// Makes a worktree: a clean one, or one that inherits.
pub fn run<H: Host>(s: &mut Session<H>, args: &AddArgs) -> (r: Result<Added, RamizError>)
    ensures
        extends(final(s).log(), old(s).log()),
        forall|l: Seq<Event>|
            extends(l, final(s).log()) ==> #[trigger] run_at(
                l,
                old(s).log().len() as int,
                args@,
            ) == (ended(r), final(s).log().len() as int),
{
    if args.inherit {
        return run_inherit(s, args);
    }
    run_clean(s, args)
}

} // verus!
