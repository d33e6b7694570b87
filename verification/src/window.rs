//! The window fetcher's range computation: which layer-1 blocks to scan
//! next, given the current chain head, the cursor of the last watched
//! block, and the configured step size.
//!
//! Only the range arithmetic lives here; fetching the logs themselves is
//! the log source's business.

use vstd::prelude::*;

verus! {

/// Reorg-safety margin: layer-1 blocks closer than this to the chain head
/// are never observed, so that a shallow reorganization cannot retract a
/// log this engine has already consumed.
pub const END_BLOCK_OFFSET: u64 = 40;

/// The layer-1 block range to scan next, both ends inclusive.
///
/// With `safe_head` the chain head minus the reorg-safety margin: no range
/// when the cursor already sits at `safe_head`; otherwise the range starts
/// right after the cursor and is capped both by the step size and by
/// `safe_head`.
pub open spec fn spec_next_block_range(
    last_watched_block_number: u64,
    latest_block: u64,
    view_block_step: u64,
) -> Option<(u64, u64)> {
    let safe_head = (latest_block - END_BLOCK_OFFSET) as u64;
    if safe_head == last_watched_block_number {
        None
    } else {
        let from_block = (last_watched_block_number + 1) as u64;
        let capped = (from_block + view_block_step) as u64;
        Some(
            (
                from_block,
                if capped < safe_head {
                    capped
                } else {
                    safe_head
                },
            ),
        )
    }
}

/// Computes the next layer-1 block range to scan; `None` means no new
/// blocks are safely observable yet.
///
/// The returned upper end becomes the new cursor once the range's logs
/// have been applied.
pub fn next_block_range(
    last_watched_block_number: u64,
    latest_block: u64,
    view_block_step: u64,
) -> (r: Option<(u64, u64)>)
    requires
        latest_block >= END_BLOCK_OFFSET,
        last_watched_block_number + 1 + view_block_step <= u64::MAX,
    ensures
        r == spec_next_block_range(last_watched_block_number, latest_block, view_block_step),
{
    let safe_head = latest_block - END_BLOCK_OFFSET;
    if safe_head == last_watched_block_number {
        return None;
    }
    let from_block = last_watched_block_number + 1;
    let capped = from_block + view_block_step;
    let to_block = if capped < safe_head {
        capped
    } else {
        safe_head
    };
    Some((from_block, to_block))
}

} // verus!
