//! Verified core of an interactive shell-session manager.
//!
//! The library holds the logic of the manager: choosing which shell to
//! launch, keeping the concurrent registry of live sessions, turning a
//! session's raw output bytes into ordered line events, and deciding what
//! `start`, `send` and `close` do in every state.  The embedding
//! application performs the surrounding I/O (spawning the process,
//! reading its pipes, delivering events) and feeds the results back in
//! as plain values.

pub mod file_ops;
pub mod pump;
pub mod registry;
pub mod resolver;
pub mod session;

use vstd::prelude::*;

verus! {

/// The title the editor window shows when opened on a working
/// directory.
pub fn window_title(dir: &str) -> (r: String)
    ensures
        r@ == "jeditr - "@ + dir@,
{
    let mut r = String::from_str("jeditr - ");
    r.append(dir);
    r
}

} // verus!
