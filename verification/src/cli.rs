//! The commands of the console, as parsed from one input line.

use vstd::prelude::*;

verus! {

/// The port that `start` listens on when no port is given.
pub const DEFAULT_PORT: u16 = 8080;

/// One parsed console line.
pub struct Cli {
    pub cmd: Commands,
}

/// The console commands.
#[derive(Debug, Clone, Copy, PartialEq, Eq)]
pub enum Commands {
    /// Leave the console.
    Exit,
    /// Start the transfer server on a port.
    Start { port: u16 },
    /// Tell whether the server is listening.
    Status,
    /// Tell the port the server was started on.
    Port,
}

impl Cli {
    /// A parsed line holding `cmd`.
    pub fn new(cmd: Commands) -> (r: Cli)
        ensures
            r.cmd == cmd,
    {
        Cli { cmd }
    }
}

} // verus!
