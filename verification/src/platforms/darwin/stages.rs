//! Darwin quit-ladder stages.
//!
//! Three stages in order:
//! 1. `apple_event_quit`: an Apple Event "quit" to the root app (only with
//!    a bundle ID). AppKit handles helper fanout.
//! 2. `sigterm_tree`: SIGTERM to the whole process tree.
//! 3. `sigkill_tree`: SIGKILL to the whole tree. Terminal.

use vstd::prelude::*;

use crate::container::StageSpec;

verus! {

pub struct AppleEventQuitStage;

pub struct SigTermTreeStage;

pub struct SigKillTreeStage;

impl AppleEventQuitStage {
    pub fn name(&self) -> (r: &'static str)
        ensures
            r@ == "apple_event_quit"@,
    {
        "apple_event_quit"
    }

    pub fn is_terminal(&self) -> (r: bool)
        ensures
            !r,
    {
        false
    }

    pub fn max_wait_ms(&self) -> (r: u64)
        ensures
            r == 3000,
    {
        3000
    }

    pub fn spec(&self) -> (s: StageSpec)
        ensures
            s.name@ == "apple_event_quit"@,
            !s.is_terminal,
            s.max_wait_ms == 3000,
    {
        StageSpec { name: String::from_str(self.name()), is_terminal: false, max_wait_ms: 3000 }
    }

    /// The AppleScript that asks the app with this bundle ID to quit.
    pub fn quit_script(bundle_id: &str) -> (r: String)
        ensures
            r@ == "tell application id \""@ + bundle_id@ + "\" to quit"@,
    {
        let mut s = String::from_str("tell application id \"");
        s.append(bundle_id);
        s.append("\" to quit");
        s
    }
}

impl SigTermTreeStage {
    pub fn name(&self) -> (r: &'static str)
        ensures
            r@ == "sigterm_tree"@,
    {
        "sigterm_tree"
    }

    pub fn is_terminal(&self) -> (r: bool)
        ensures
            !r,
    {
        false
    }

    pub fn max_wait_ms(&self) -> (r: u64)
        ensures
            r == 2000,
    {
        2000
    }

    pub fn spec(&self) -> (s: StageSpec)
        ensures
            s.name@ == "sigterm_tree"@,
            !s.is_terminal,
            s.max_wait_ms == 2000,
    {
        StageSpec { name: String::from_str(self.name()), is_terminal: false, max_wait_ms: 2000 }
    }
}

impl SigKillTreeStage {
    pub fn name(&self) -> (r: &'static str)
        ensures
            r@ == "sigkill_tree"@,
    {
        "sigkill_tree"
    }

    pub fn is_terminal(&self) -> (r: bool)
        ensures
            r,
    {
        true
    }

    pub fn max_wait_ms(&self) -> (r: u64)
        ensures
            r == 500,
    {
        500
    }

    pub fn spec(&self) -> (s: StageSpec)
        ensures
            s.name@ == "sigkill_tree"@,
            s.is_terminal,
            s.max_wait_ms == 500,
    {
        StageSpec { name: String::from_str(self.name()), is_terminal: true, max_wait_ms: 500 }
    }
}

/// The Darwin ladder: `apple_event_quit`, `sigterm_tree`, then the terminal
/// `sigkill_tree`.
pub fn darwin_stages() -> (v: Vec<StageSpec>)
    ensures
        v@.len() == 3,
        v@[0].name@ == "apple_event_quit"@ && !v@[0].is_terminal && v@[0].max_wait_ms == 3000,
        v@[1].name@ == "sigterm_tree"@ && !v@[1].is_terminal && v@[1].max_wait_ms == 2000,
        v@[2].name@ == "sigkill_tree"@ && v@[2].is_terminal && v@[2].max_wait_ms == 500,
{
    let mut v = Vec::new();
    v.push(AppleEventQuitStage.spec());
    v.push(SigTermTreeStage.spec());
    v.push(SigKillTreeStage.spec());
    v
}

} // verus!
