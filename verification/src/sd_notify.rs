//! Telling the service manager about the state of the server.

use vstd::prelude::*;
use crate::bytes;

verus! {

/// The socket of the service manager.
#[derive(Debug, PartialEq, Eq)]
pub enum NotifySocket {
    /// One with a name that is no path.
    Abstract(Vec<u8>),
    /// One at a path.
    Path(Vec<u8>),
}

/// Finds out which socket the value of `NOTIFY_SOCKET` stands for: behind an `@` stands a
/// name that is no path.
pub fn notify_socket(value: &[u8]) -> (r: NotifySocket)
    ensures
        match r {
            NotifySocket::Abstract(name) => value@.len() > 0 && value@[0] == 64 && name@
                == value@.skip(1),
            NotifySocket::Path(path) => (value@.len() == 0 || value@[0] != 64) && path@ == value@,
        },
{
    let n = value.len();
    if n > 0 && value[0] == 64 {
        let name = bytes::part(value, 1, n);
        assert(name@ =~= value@.skip(1));
        NotifySocket::Abstract(name)
    } else {
        let path = bytes::part(value, 0, n);
        assert(path@ =~= value@);
        NotifySocket::Path(path)
    }
}

} // verus!
