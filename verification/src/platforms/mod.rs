//! Per-platform logic: identity-to-resource naming, parsing of what the
//! operating system reports, and each platform's quit ladder.

use vstd::prelude::*;

use crate::error::Error;

pub mod darwin;
pub mod linux;
pub mod win32;

verus! {

/// The error a spawn fails with on a target that has no spawn route:
/// `UnsupportedPlatform("<os> (spawning not yet implemented)")`.
pub fn spawn_unsupported(os: &str) -> (e: Error)
    ensures
        e matches Error::UnsupportedPlatform(p) && p@ == os@ + " (spawning not yet implemented)"@,
{
    let mut p = String::from_str(os);
    p.append(" (spawning not yet implemented)");
    Error::UnsupportedPlatform(p)
}

} // verus!
