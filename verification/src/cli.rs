//! The command line of the player.

use vstd::prelude::*;
use vstd::string::StringExecFns;

verus! {

/// What the player is asked to do.
#[derive(Clone, Copy, Debug, PartialEq, Eq, Structural, Hash)]
pub enum Commands {
    /// Play the animation; the default.
    Play,
    /// Show one frame of the animation.
    ShowFrame { frame: usize },
}

/// The arguments of the player.
#[derive(Debug)]
pub struct Cli {
    /// Whether modern terminal output (UTF-8) is used.
    pub utf8: bool,
    /// The file to play or show.
    pub path: Option<String>,
    /// The socket port for input and output.
    pub port: Option<String>,
    pub command: Option<Commands>,
}

/// The host that a port is opened on.
pub open spec fn local_host() -> Seq<char> {
    "127.0.0.1:"@
}

impl Cli {
    /// The command, or `Play` where none is given.
    pub fn command_or_default(&self) -> (c: Commands)
        ensures
            c == match self.command {
                Some(c) => c,
                None => Commands::Play,
            },
    {
        match self.command {
            Some(c) => c,
            None => Commands::Play,
        }
    }

    /// The address to connect to: the given port on the local host. `None`
    /// where no port is given: the player then talks to its own standard
    /// input and output.
    pub fn address(&self) -> (a: Option<String>)
        ensures
            match self.port {
                Some(port) => (a matches Some(s) && s@ == local_host() + port@),
                None => a is None,
            },
    {
        match &self.port {
            Some(port) => Some(String::from_str("127.0.0.1:").concat(port.as_str())),
            None => None,
        }
    }
}

} // verus!
