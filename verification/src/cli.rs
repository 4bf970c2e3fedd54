//! The decisions of the command-line tool: what it was asked for, how much it
//! logs, and which download link it picks.

pub mod provider;

use vstd::prelude::*;

use crate::provider::Provider;
use crate::types::episode::Episode;
use crate::types::quality::Quality;

verus! {

/// What the command line asks for.
pub struct QuerySet {
    pub provider: Option<Box<dyn Provider>>,
    pub series: String,
    pub episode: Option<u32>,
    pub ignore: Option<String>,
}

impl Default for QuerySet {
    fn default() -> (q: QuerySet)
        ensures
            q.provider is None,
            q.series@ == Seq::<char>::empty(),
            q.episode is None,
            q.ignore is None,
    {
        QuerySet { provider: None, series: String::new(), episode: None, ignore: None }
    }
}

/// How much the tool logs.
#[derive(Debug, Clone, Copy, PartialEq, Eq, Structural)]
pub enum LogLevel {
    Error,
    Warn,
    Info,
    Debug,
    Trace,
}

/// The log level for the number of `-v` flags: none gives `Debug` in a debug
/// build and `Error` otherwise, then one each for `Warn`, `Info` and `Debug`,
/// and four or more give `Trace`.
pub open spec fn log_level_spec(verbose: u8, debug_build: bool) -> LogLevel {
    if verbose == 0 {
        if debug_build {
            LogLevel::Debug
        } else {
            LogLevel::Error
        }
    } else if verbose == 1 {
        LogLevel::Warn
    } else if verbose == 2 {
        LogLevel::Info
    } else if verbose == 3 {
        LogLevel::Debug
    } else {
        LogLevel::Trace
    }
}

/// The log level for the number of `-v` flags.
pub fn log_level(verbose: u8, debug_build: bool) -> (l: LogLevel)
    ensures
        l == log_level_spec(verbose, debug_build),
{
    match verbose {
        0 => if debug_build {
            LogLevel::Debug
        } else {
            LogLevel::Error
        },
        1 => LogLevel::Warn,
        2 => LogLevel::Info,
        3 => LogLevel::Debug,
        _ => LogLevel::Trace,
    }
}

/// Position `i` holds the link to pick: no quality ranks above its, and every
/// later link ranks below it (the last of the best is picked).
pub open spec fn is_pick(qualities: Seq<Quality>, i: int) -> bool {
    &&& 0 <= i < qualities.len()
    &&& forall|j: int| 0 <= j < qualities.len() ==> #[trigger] qualities[j].spec_rank() <= qualities[i].spec_rank()
    &&& forall|j: int| i < j < qualities.len() ==> #[trigger] qualities[j].spec_rank() < qualities[i].spec_rank()
}

/// The qualities of the episodes, in order.
pub open spec fn qualities_of(episodes: Seq<Episode>) -> Seq<Quality> {
    episodes.map_values(|e: Episode| e.quality)
}

/// The link of the highest quality to play: the last of those that rank
/// highest. `None` when there is no link.
pub fn pick_highest(episodes: &Vec<Episode>) -> (r: Option<usize>)
    ensures
        r is None <==> episodes@.len() == 0,
        r matches Some(i) ==> is_pick(qualities_of(episodes@), i as int),
{
    if episodes.len() == 0 {
        return None;
    }
    let ghost qs = qualities_of(episodes@);
    let mut highest: usize = 0;
    let mut i: usize = 0;
    while i < episodes.len()
        invariant
            0 < episodes.len(),
            qs == qualities_of(episodes@),
            i <= episodes.len(),
            highest < episodes.len(),
            i == 0 ==> highest == 0,
            i > 0 ==> highest < i,
            forall|j: int| 0 <= j < i ==> #[trigger] qs[j].spec_rank() <= qs[highest as int].spec_rank(),
            forall|j: int| highest < j < i ==> #[trigger] qs[j].spec_rank() < qs[highest as int].spec_rank(),
        decreases episodes.len() - i,
    {
        assert(qs[i as int] == episodes@[i as int].quality);
        assert(qs[highest as int] == episodes@[highest as int].quality);
        if episodes[highest].quality.rank() > episodes[i].quality.rank() {
            i = i + 1;
            continue;
        }
        highest = i;
        i = i + 1;
    }
    Some(highest)
}

} // verus!
