//! The wish of the user to stop.
use crate::host::{Event, Host, Session};
use vstd::prelude::*;

verus! {

/// The user has asked to stop.
pub fn requested<H: Host>(s: &mut Session<H>) -> (r: bool)
    ensures
        final(s).log() == old(s).log().push(Event::Cancelled(r)),
{
    s.cancelled()
}

} // verus!
