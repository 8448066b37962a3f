//! When progress lines are shown during a scan.
use vstd::prelude::*;

verus! {

/// Inventory progress is shown every this many files.
pub const FILE_PROGRESS_INTERVAL: usize = 250;

/// Parse progress is shown every this many files.
pub const PARSE_PROGRESS_INTERVAL: usize = 50;

/// Whether a progress line is due after `count` files: never in verbose mode
/// (which reports each file), else after the first and every `interval`-th.
pub open spec fn tick_due(count: nat, interval: nat, verbose: bool) -> bool {
    !verbose && (count == 1 || count % interval == 0)
}

/// Whether an inventory progress line is due after `count` files.
pub fn file_tick_due(count: usize, verbose: bool) -> (r: bool)
    ensures
        r == tick_due(count as nat, FILE_PROGRESS_INTERVAL as nat, verbose),
{
    !verbose && (count == 1 || count % FILE_PROGRESS_INTERVAL == 0)
}

/// Whether a parse progress line is due after `count` files.
pub fn parse_tick_due(count: usize, verbose: bool) -> (r: bool)
    ensures
        r == tick_due(count as nat, PARSE_PROGRESS_INTERVAL as nat, verbose),
{
    !verbose && (count == 1 || count % PARSE_PROGRESS_INTERVAL == 0)
}

} // verus!
