//! The command-line request, as plain values.

use vstd::prelude::*;

verus! {

/// A parsed command line.
pub struct Cli {
    pub command: Commands,
}

/// What the command line asks for.
pub enum Commands {
    /// Let the engine play both sides from `position` (a FEN string),
    /// searching `depth` plies per move, and optionally print the movetext.
    PlaySelf { position: String, depth: usize, output_pgn: bool },
}

} // verus!
