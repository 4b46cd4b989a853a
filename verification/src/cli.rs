//! The parsed command model of the command-line front end. The argument
//! parsing itself is host glue; these are the plain values it produces.
use vstd::prelude::*;

verus! {

/// Options of the `init` subcommand.
#[derive(Debug)]
pub struct InitOpts {
}

/// Options of the `build` subcommand.
#[derive(Debug)]
pub struct BuildOpts {
}

/// Options of the `run` subcommand.
#[derive(Debug)]
pub struct RunOpts {
    /// The port to listen on.
    pub port: u16,
}

impl Default for RunOpts {
    /// The default run options: port 3000.
    fn default() -> (r: RunOpts)
        ensures
            r.port == 3000,
    {
        RunOpts { port: 3000 }
    }
}

/// One parsed subcommand.
#[derive(Debug)]
pub enum SubCommand {
    Init(InitOpts),
    Build(BuildOpts),
    Run(RunOpts),
}

/// A whole parsed command line.
#[derive(Debug)]
pub struct Opts {
    pub cmd: SubCommand,
}

} // verus!
