//! The command-line model: which scan to run, over which interval, with
//! which condition.
//!
//! Usage:
//!   mc-seed-finder bench [count] [--start-seed <seed>] --mode <double|quad>
//!   mc-seed-finder search [count] [--start-seed <seed>] --mode <double|quad>

use vstd::prelude::*;

verus! {

/// Default number of seeds to scan when `count` is omitted.
pub const DEFAULT_COUNT: i64 = 10_000_000;

/// Which hut-cluster condition to search for.
#[derive(Copy, Clone, Debug, PartialEq, Eq, Structural)]
pub enum Mode {
    /// Adjacent pair of swamp huts.
    Double,
    /// All four corners of a 2x2 block of swamp huts.
    Quad,
}

/// A parsed command line.
#[derive(Debug)]
pub struct Cli {
    pub command: Command,
}

/// The two subcommands.
#[derive(Debug)]
pub enum Command {
    /// Pass-1 geometry scan only, no biome check.
    Bench { count: i64, start_seed: i64, mode: Mode },
    /// Pass-1 geometry scan, then a real biome check on the survivors.
    Search { count: i64, start_seed: i64, mode: Mode },
}

} // verus!
