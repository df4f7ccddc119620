//! Identifiers and positions in the log.
use vstd::prelude::*;

verus! {

/// The id of an entry. Ids are handed out in increasing order; 0 stands for no
/// entry.
#[derive(Clone, Copy, Debug, PartialEq, Eq, PartialOrd, Ord, Hash, Structural)]
pub struct EntryId(pub u64);

/// Where a chunk of an entry is stored.
#[derive(Clone, Copy, Debug, PartialEq, Eq, Hash, Structural)]
pub struct LogPosition {
    /// The id of the segment file.
    pub file_id: u64,
    /// The offset of the chunk's header in the file.
    pub offset: u64,
}

/// A point in time on a monotonic clock, as the time passed since a moment that
/// is fixed while the log is open.
#[derive(Clone, Copy, Debug, PartialEq, Eq, PartialOrd, Ord, Hash, Structural)]
pub struct Timestamp(pub u128);

/// Whether what was last synchronized at `synced_at`, if ever, has been
/// synchronized at `at` or later.
pub open spec fn synced_since(synced_at: Option<Timestamp>, at: Timestamp) -> bool {
    synced_at matches Some(synced_at) && at.0 <= synced_at.0
}

/// Tells whether what was last synchronized at `synced_at`, if ever, has been
/// synchronized at `at` or later.
pub(crate) fn is_synced_since(synced_at: Option<Timestamp>, at: Timestamp) -> (synced: bool)
    ensures
        synced == synced_since(synced_at, at),
        synced == (synced_at is Some && at.0 <= (synced_at->0).0),
{
    match synced_at {
        Some(synced_at) => at.0 <= synced_at.0,
        None => false,
    }
}

/// A synchronization counts for a moment exactly if it was started then or
/// later; without one, nothing has been synchronized. So what counts for a moment
/// counts for every earlier one, and a later synchronization counts for no less.
pub proof fn law_synchronization_counts_for_what_came_before(
    synced: Timestamp,
    at: Timestamp,
    later: Timestamp,
    earlier: Timestamp,
)
    ensures
        synced_since(Some(synced), at) <==> synced.0 >= at.0,
        !synced_since(None, at),
        synced_since(Some(synced), at) && synced.0 <= later.0 && earlier.0 <= at.0 ==> synced_since(
            Some(later),
            earlier,
        ),
{
}

} // verus!
