//! The settings of a run, with what stands in for each one that was not
//! given.

use vstd::prelude::*;

verus! {

/// The storage budget where none was given, in KiB.
pub const DEFAULT_BUDGET_KIB: u64 = 4;

/// The place of the archive where none was given.
pub const DEFAULT_DESTINATION: &'static str = "./archive.xz";

/// The bytes of so many KiB, as far as they fit into 64 bits.
pub open spec fn kib_to_bytes(kib: u64) -> u64 {
    kib << 10
}

/// What was chosen for a run, as far as it was chosen.
pub struct Choices {
    /// The URL to start from.
    pub start_url: String,
    /// The number of workers.
    pub num_workers: Option<usize>,
    /// The storage budget, in KiB.
    pub budget_kib: Option<u64>,
    /// The place of the archive.
    pub destination: Option<String>,
    /// Whether the traversal is breadth-first rather than depth-first.
    pub is_bfs: bool,
    /// Whether the run reports what it does.
    pub verbose: bool,
}

/// The settings of a run.
pub struct Settings {
    /// The URL to start from.
    pub start_url: String,
    /// The number of workers.
    pub num_workers: usize,
    /// The storage budget, in bytes.
    pub budget: u64,
    /// The place of the archive.
    pub destination: String,
    /// Whether the traversal is breadth-first rather than depth-first.
    pub is_bfs: bool,
    /// Whether the run reports what it does.
    pub verbose: bool,
}

/// The text of a destination that may be missing: the default in its place.
pub open spec fn destination_of(given: Option<String>) -> Seq<char> {
    match given {
        Some(path) => path@,
        None => DEFAULT_DESTINATION@,
    }
}

impl Settings {
    /// Settles a run: what was not chosen is the number of workers that the
    /// machine can run in parallel, a budget of [`DEFAULT_BUDGET_KIB`] and
    /// the archive at [`DEFAULT_DESTINATION`].
    pub fn resolve(choices: Choices, parallelism: usize) -> (settings: Settings)
        ensures
            settings.start_url@ == choices.start_url@,
            settings.num_workers == (match choices.num_workers {
                Some(n) => n,
                None => parallelism,
            }),
            settings.budget == kib_to_bytes(
                match choices.budget_kib {
                    Some(kib) => kib,
                    None => DEFAULT_BUDGET_KIB,
                },
            ),
            settings.destination@ == destination_of(choices.destination),
            settings.is_bfs == choices.is_bfs,
            settings.verbose == choices.verbose,
    {
        let num_workers: usize = match choices.num_workers {
            Some(n) => n,
            None => parallelism,
        };
        let kib: u64 = match choices.budget_kib {
            Some(kib) => kib,
            None => DEFAULT_BUDGET_KIB,
        };
        let destination: String = match choices.destination {
            Some(path) => path,
            None => DEFAULT_DESTINATION.to_owned(),
        };
        Settings {
            start_url: choices.start_url,
            num_workers,
            budget: kib << 10,
            destination,
            is_bfs: choices.is_bfs,
            verbose: choices.verbose,
        }
    }
}

} // verus!
