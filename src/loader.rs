//! The order in which catalog sources are tried: the newest cached snapshot
//! within a lookback window, then a fresh download, then the bundled snapshot.

use vstd::prelude::*;

verus! {

/// Days back from today that cached snapshots are looked for.
pub const MAX_DL_DATE_LOOKBACKS: u32 = 3;

/// A source of the catalog.
#[derive(Debug, Clone, Copy, PartialEq, Eq, Structural)]
pub enum Source {
    /// The cached snapshot dated this many days before today.
    Cache(u32),
    /// A snapshot downloaded now.
    Remote,
    /// The snapshot that ships with the program.
    Bundled,
}

/// What to do after a source was tried.
#[derive(Debug, Clone, Copy, PartialEq, Eq, Structural)]
pub enum LoadDecision {
    /// Keep the catalog that this source gave.
    Use(Source),
    /// Try this source next.
    Try(Source),
    /// Every source failed: startup cannot go on.
    Exhausted,
}

/// The first source to try, with a window of `lookback` days.
pub fn first_source(lookback: u32) -> (r: Source)
    ensures
        r == (if lookback > 0 { Source::Cache(0) } else { Source::Remote }),
{
    if lookback > 0 {
        Source::Cache(0)
    } else {
        Source::Remote
    }
}

/// What trying a source came to.
#[derive(Debug, Clone, Copy, PartialEq, Eq, Structural)]
pub enum Outcome {
    /// It gave a catalog.
    Loaded,
    /// It was not there: no cached file for that day, no answer from the remote.
    Missing,
    /// It was there but could not be read as a catalog.
    Unreadable,
}

/// The decision after `tried` came to `outcome`. A catalog is kept. A missing
/// cached snapshot sends the search one day further back while the window
/// lasts; an unreadable one, like the end of the window, goes on to the
/// download. After the download comes the bundled snapshot, and after that
/// nothing.
pub fn next_source(tried: Source, outcome: Outcome, lookback: u32) -> (r: LoadDecision)
    ensures
        outcome == Outcome::Loaded ==> r == LoadDecision::Use(tried),
        outcome != Outcome::Loaded ==> r == match tried {
            Source::Cache(d) => if outcome == Outcome::Missing && d as int + 1 < lookback as int {
                LoadDecision::Try(Source::Cache((d + 1) as u32))
            } else {
                LoadDecision::Try(Source::Remote)
            },
            Source::Remote => LoadDecision::Try(Source::Bundled),
            Source::Bundled => LoadDecision::Exhausted,
        },
{
    match outcome {
        Outcome::Loaded => LoadDecision::Use(tried),
        _ => match tried {
            Source::Cache(d) => {
                let missing = match outcome {
                    Outcome::Missing => true,
                    _ => false,
                };
                if missing && d < lookback && d + 1 < lookback {
                    LoadDecision::Try(Source::Cache(d + 1))
                } else {
                    LoadDecision::Try(Source::Remote)
                }
            },
            Source::Remote => LoadDecision::Try(Source::Bundled),
            Source::Bundled => LoadDecision::Exhausted,
        },
    }
}

/// Whether a download should be written to the cache: only a catalog that
/// came from the remote source is.
pub fn should_cache(used: Source) -> (r: bool)
    ensures
        r == (used == Source::Remote),
{
    match used {
        Source::Remote => true,
        _ => false,
    }
}

} // verus!
