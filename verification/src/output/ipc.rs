//! `--format ipc`: the rule on where the binary stream may go.
use vstd::prelude::*;

use crate::error::Error;

verus! {

/// Arrow IPC is a binary format; a terminal is refused.
pub fn guard_not_terminal(stdout_is_terminal: bool) -> (r: Result<(), Error>)
    ensures
        stdout_is_terminal ==> r == Err::<(), Error>(Error::IpcToTerminal),
        !stdout_is_terminal ==> r is Ok,
{
    if stdout_is_terminal {
        Err(Error::IpcToTerminal)
    } else {
        Ok(())
    }
}

} // verus!
