//! The machinery that runs the tasks of the server.

use vstd::prelude::*;

verus! {

/// What the machinery is and can do.
#[derive(Clone, Copy, Debug, PartialEq, Eq)]
pub struct RuntimeInfo {
    /// Name of the active runtime.
    pub name: &'static str,
    /// Whether io_uring is available (Linux only).
    pub io_uring: bool,
    /// Whether tasks may move between threads.
    pub send_tasks: bool,
}

/// The machinery that is in use.
pub open spec fn is_active(i: RuntimeInfo) -> bool {
    i.name@ == "tokio"@ && !i.io_uring && i.send_tasks
}

/// The machinery that is in use.
pub fn info() -> (i: RuntimeInfo)
    ensures
        is_active(i),
{
    RuntimeInfo { name: "tokio", io_uring: false, send_tasks: true }
}

} // verus!
