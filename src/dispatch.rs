//! The entry point for external open requests: the launch arguments of this
//! process, or those of a second instance redirected into this one.
use crate::gate::{delivered_now, submit_step, StartupState};
use vstd::prelude::*;

verus! {

/// The launch arguments that matter to the core: an optional path to open.
pub struct Args {
    pub open: Option<String>,
}

impl Args {
    /// No path to open.
    pub fn none() -> (r: Args)
        ensures
            r.open is None,
    {
        Args { open: None }
    }
}

/// Hands the requested path, if any, to the startup state. The path is not checked
/// against the file system: that is the decoder's concern. Returns the path
/// to deliver at once, when the startup state is already ready.
pub fn handle_args(state: &mut StartupState, parsed: Args) -> (r: Option<String>)
    ensures
        match parsed.open {
            Some(p) => (final(state)@, delivered_now(r)) == submit_step(old(state)@, p@),
            None => r is None && final(state)@ == old(state)@,
        },
{
    match parsed.open {
        Some(path) => state.enqueue_or_emit(path.as_str()),
        None => None,
    }
}

} // verus!
