use vstd::prelude::*;

verus! {

/// The command line of the server.
pub struct Args {
    pub port: u16,
    pub bind: String,
    pub snapshot_dir: String,
    pub log_level: String,
    pub cpu_pinning: bool,
}

/// How the server runs.
pub struct Config {
    pub port: u16,
    pub bind: String,
    /// The directory that holds the snapshots.
    pub snapshot_dir: String,
    pub log_level: String,
    pub cpu_pinning: bool,
}

impl Config {
    /// The configuration that the command line gives, field for field.
    pub fn from_args(args: Args) -> (r: Self)
        ensures
            r.port == args.port,
            r.bind@ == args.bind@,
            r.snapshot_dir@ == args.snapshot_dir@,
            r.log_level@ == args.log_level@,
            r.cpu_pinning == args.cpu_pinning,
    {
        Config {
            port: args.port,
            bind: args.bind,
            snapshot_dir: args.snapshot_dir,
            log_level: args.log_level,
            cpu_pinning: args.cpu_pinning,
        }
    }
}

} // verus!
