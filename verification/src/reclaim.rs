//! What happens to a segment file once its writer is done with it.
//!
//! The file, or a new one in its place, becomes available to the next writer at
//! once; success is reported to the writer when its entry has reached the disk.
use vstd::prelude::*;

use crate::entry::{is_synced_since, Timestamp};

verus! {

/// How the writer of an entry ended.
#[derive(Clone, Copy, Debug, PartialEq, Eq, Structural)]
pub enum WriteResult {
    /// The entry was rolled back and the file is as it was before.
    RolledBack,
    /// The entry was written. The file is now `new_length` bytes long.
    Entry { new_length: u64 },
}

/// How far the reclaiming of a segment file has come, and with that, what is to
/// be done next.
#[derive(Clone, Copy, Debug, PartialEq, Eq, Structural)]
pub enum Reclaim {
    /// Put a new active file in place.
    Activating { new_length: u64 },
    /// Send the full file to the checkpointer.
    Sending { new_length: u64, last_directory_sync: Option<Timestamp> },
    /// Synchronize the file up to `new_length`.
    Synchronizing { new_length: u64, last_directory_sync: Option<Timestamp> },
    /// Have the directory synchronized at `sync_on_or_after` or later.
    SyncingDirectory { sync_on_or_after: Timestamp },
    /// Nothing is left to do; report success.
    Done,
    /// A step failed; report its error.
    Failed,
}

/// What the step that was to be done has led to.
#[derive(Clone, Copy, Debug, PartialEq, Eq, Structural)]
pub enum ReclaimEvent {
    /// A new file is active. The directory was last synchronized at
    /// `directory_synced_at`.
    Activated { directory_synced_at: Option<Timestamp> },
    /// The file has been sent.
    Sent,
    /// The file has been synchronized. It was created at `created_at`, unless
    /// it was there when the log was opened.
    Synchronized { created_at: Option<Timestamp> },
    /// The directory has been synchronized, the last time at
    /// `directory_synced_at`.
    DirectorySynced { directory_synced_at: Option<Timestamp> },
    /// The step failed.
    Failed,
}

/// The moment from which on the directory has to be synchronized for a file
/// created at `created_at`, if it was last synchronized at
/// `last_directory_sync`: that of the creation, unless the directory was
/// synchronized then or later.
pub open spec fn directory_sync_target(
    created_at: Option<Timestamp>,
    last_directory_sync: Option<Timestamp>,
) -> Option<Timestamp> {
    match created_at {
        Some(created_at) => if crate::entry::synced_since(last_directory_sync, created_at) {
            None
        } else {
            Some(created_at)
        },
        None => None,
    }
}

impl Reclaim {
    /// The first step after a writer ended with `result`: a rolled back entry
    /// needs nothing done; a file with a new entry is synchronized, and replaced
    /// before that if it has reached `checkpoint_after_bytes`.
    pub open spec fn begin(
        result: WriteResult,
        checkpoint_after_bytes: u64,
        directory_synced_at: Option<Timestamp>,
    ) -> Reclaim {
        match result {
            WriteResult::RolledBack => Reclaim::Done,
            WriteResult::Entry { new_length } => if checkpoint_after_bytes <= new_length {
                Reclaim::Activating { new_length }
            } else {
                Reclaim::Synchronizing { new_length, last_directory_sync: directory_synced_at }
            },
        }
    }

    /// Whether all has been done, or given up.
    pub open spec fn is_over(self) -> bool {
        self is Done || self is Failed
    }

    /// The step after `event`. An event that does not answer the current step
    /// changes nothing, and neither does a synchronization of the directory that
    /// was started too early.
    pub open spec fn after(self, event: ReclaimEvent) -> Reclaim {
        match (self, event) {
            (Reclaim::Done, _) => self,
            (Reclaim::Failed, _) => self,
            (_, ReclaimEvent::Failed) => Reclaim::Failed,
            (
                Reclaim::Activating { new_length },
                ReclaimEvent::Activated { directory_synced_at },
            ) => Reclaim::Sending { new_length, last_directory_sync: directory_synced_at },
            (Reclaim::Sending { new_length, last_directory_sync }, ReclaimEvent::Sent) =>
                Reclaim::Synchronizing { new_length, last_directory_sync },
            (
                Reclaim::Synchronizing { new_length: _, last_directory_sync },
                ReclaimEvent::Synchronized { created_at },
            ) => match directory_sync_target(created_at, last_directory_sync) {
                Some(sync_on_or_after) => Reclaim::SyncingDirectory { sync_on_or_after },
                None => Reclaim::Done,
            },
            (
                Reclaim::SyncingDirectory { sync_on_or_after },
                ReclaimEvent::DirectorySynced { directory_synced_at },
            ) => if crate::entry::synced_since(directory_synced_at, sync_on_or_after) {
                Reclaim::Done
            } else {
                self
            },
            _ => self,
        }
    }

    /// The step after all of `events`.
    pub open spec fn after_all(self, events: Seq<ReclaimEvent>) -> Reclaim
        decreases events.len(),
    {
        if events.len() == 0 {
            self
        } else {
            self.after_all(events.drop_last()).after(events.last())
        }
    }

    /// Goes on to the step after `event`.
    pub fn resume(self, event: ReclaimEvent) -> (next: Reclaim)
        ensures
            next == self.after(event),
    {
        match (self, event) {
            (Reclaim::Done, _) => self,
            (Reclaim::Failed, _) => self,
            (_, ReclaimEvent::Failed) => Reclaim::Failed,
            (
                Reclaim::Activating { new_length },
                ReclaimEvent::Activated { directory_synced_at },
            ) => Reclaim::Sending { new_length, last_directory_sync: directory_synced_at },
            (Reclaim::Sending { new_length, last_directory_sync }, ReclaimEvent::Sent) =>
                Reclaim::Synchronizing { new_length, last_directory_sync },
            (
                Reclaim::Synchronizing { new_length: _, last_directory_sync },
                ReclaimEvent::Synchronized { created_at },
            ) => match created_at {
                Some(created_at) => if is_synced_since(last_directory_sync, created_at) {
                    Reclaim::Done
                } else {
                    Reclaim::SyncingDirectory { sync_on_or_after: created_at }
                },
                None => Reclaim::Done,
            },
            (
                Reclaim::SyncingDirectory { sync_on_or_after },
                ReclaimEvent::DirectorySynced { directory_synced_at },
            ) => if is_synced_since(directory_synced_at, sync_on_or_after) {
                Reclaim::Done
            } else {
                self
            },
            _ => self,
        }
    }
}

/// Whether event `i` was the completed synchronization of the file up to
/// `new_length`.
pub open spec fn file_synchronized_at(
    start: Reclaim,
    events: Seq<ReclaimEvent>,
    i: int,
    new_length: u64,
) -> bool {
    &&& 0 <= i < events.len()
    &&& start.after_all(events.subrange(0, i)) is Synchronizing
    &&& start.after_all(events.subrange(0, i))->Synchronizing_new_length == new_length
    &&& events[i] is Synchronized
}

/// Whether event `j` was the completed synchronization of the directory, which
/// was recorded to have been started at `target` or later.
pub open spec fn directory_synchronized_at(
    start: Reclaim,
    events: Seq<ReclaimEvent>,
    j: int,
    target: Timestamp,
) -> bool {
    &&& 0 <= j < events.len()
    &&& start.after_all(events.subrange(0, j)) == (Reclaim::SyncingDirectory {
        sync_on_or_after: target,
    })
    &&& events[j] matches ReclaimEvent::DirectorySynced { directory_synced_at }
        && crate::entry::synced_since(directory_synced_at, target)
}

/// The moment from which on the directory had to be synchronized after the file
/// was, in event `i`.
pub open spec fn directory_sync_target_at(
    start: Reclaim,
    events: Seq<ReclaimEvent>,
    i: int,
) -> Option<Timestamp> {
    directory_sync_target(
        events[i]->created_at,
        start.after_all(events.subrange(0, i))->Synchronizing_last_directory_sync,
    )
}

/// Whether the file was synchronized up to `new_length` in the course of
/// `events` and, where its directory had to be, the directory after it.
pub open spec fn made_durable(start: Reclaim, events: Seq<ReclaimEvent>, new_length: u64) -> bool {
    exists|i: int| #[trigger]
        file_synchronized_at(start, events, i, new_length) && match directory_sync_target_at(
            start,
            events,
            i,
        ) {
            None => true,
            Some(target) => exists|j: int|
                i < j && #[trigger] directory_synchronized_at(start, events, j, target),
        }
}

proof fn lemma_length_is_kept(start: Reclaim, events: Seq<ReclaimEvent>, new_length: u64)
    requires
        match start {
            Reclaim::Activating { new_length: n } => n == new_length,
            Reclaim::Synchronizing { new_length: n, .. } => n == new_length,
            _ => false,
        },
    ensures
        match start.after_all(events) {
            Reclaim::Activating { new_length: n } => n == new_length,
            Reclaim::Sending { new_length: n, .. } => n == new_length,
            Reclaim::Synchronizing { new_length: n, .. } => n == new_length,
            _ => true,
        },
    decreases events.len(),
{
    if events.len() > 0 {
        lemma_length_is_kept(start, events.drop_last(), new_length);
    }
}

/// While the directory is to be synchronized, the file has been.
proof fn lemma_file_comes_first(
    start: Reclaim,
    events: Seq<ReclaimEvent>,
    new_length: u64,
) -> (i: int)
    requires
        match start {
            Reclaim::Activating { new_length: n } => n == new_length,
            Reclaim::Synchronizing { new_length: n, .. } => n == new_length,
            _ => false,
        },
        start.after_all(events) is SyncingDirectory,
    ensures
        file_synchronized_at(start, events, i, new_length),
        directory_sync_target_at(start, events, i) == Some(
            start.after_all(events)->sync_on_or_after,
        ),
    decreases events.len(),
{
    let before = events.drop_last();
    let last = events.len() - 1;
    lemma_length_is_kept(start, before, new_length);
    assert(events.subrange(0, last) =~= before);
    if start.after_all(before) is SyncingDirectory {
        let i = lemma_file_comes_first(start, before, new_length);
        assert(before.subrange(0, i) =~= events.subrange(0, i));
        i
    } else {
        last
    }
}

/// Success is reported for a written entry only after its file has been
/// synchronized up to the end of the entry, and after that, if the file is
/// newer than the last synchronization of its directory, the directory, at the
/// time the file was created or later.
pub proof fn law_success_means_durable(
    new_length: u64,
    checkpoint_after_bytes: u64,
    directory_synced_at: Option<Timestamp>,
    events: Seq<ReclaimEvent>,
)
    requires
        Reclaim::begin(
            WriteResult::Entry { new_length },
            checkpoint_after_bytes,
            directory_synced_at,
        ).after_all(events) is Done,
    ensures
        made_durable(
            Reclaim::begin(
                WriteResult::Entry { new_length },
                checkpoint_after_bytes,
                directory_synced_at,
            ),
            events,
            new_length,
        ),
    decreases events.len(),
{
    let start = Reclaim::begin(
        WriteResult::Entry { new_length },
        checkpoint_after_bytes,
        directory_synced_at,
    );
    let before = events.drop_last();
    let last = events.len() - 1;
    lemma_length_is_kept(start, before, new_length);
    assert(events.subrange(0, last) =~= before);
    match start.after_all(before) {
        Reclaim::Done => {
            law_success_means_durable(
                new_length,
                checkpoint_after_bytes,
                directory_synced_at,
                before,
            );
            let i = choose|i: int| #[trigger]
                file_synchronized_at(start, before, i, new_length)
                    && match directory_sync_target_at(start, before, i) {
                    None => true,
                    Some(target) => exists|j: int|
                        i < j && #[trigger] directory_synchronized_at(start, before, j, target),
                };
            assert(before.subrange(0, i) =~= events.subrange(0, i));
            assert(file_synchronized_at(start, events, i, new_length));
            match directory_sync_target_at(start, before, i) {
                None => {},
                Some(target) => {
                    let j = choose|j: int|
                        i < j && #[trigger] directory_synchronized_at(start, before, j, target);
                    assert(before.subrange(0, j) =~= events.subrange(0, j));
                    assert(directory_synchronized_at(start, events, j, target));
                },
            }
        },
        Reclaim::SyncingDirectory { sync_on_or_after } => {
            let i = lemma_file_comes_first(start, before, new_length);
            assert(before.subrange(0, i) =~= events.subrange(0, i));
            assert(file_synchronized_at(start, events, i, new_length));
            assert(directory_synchronized_at(start, events, last, sync_on_or_after));
        },
        _ => {
            assert(file_synchronized_at(start, events, last, new_length));
        },
    }
}

/// The first step that fails ends the reclaiming with an error, whatever is
/// reported after it.
pub proof fn law_failure_is_final(
    start: Reclaim,
    before: Seq<ReclaimEvent>,
    after: Seq<ReclaimEvent>,
)
    requires
        !start.after_all(before).is_over(),
    ensures
        start.after_all(before.push(ReclaimEvent::Failed) + after) is Failed,
    decreases after.len(),
{
    let events = before.push(ReclaimEvent::Failed) + after;
    if after.len() == 0 {
        assert(events.drop_last() =~= before);
    } else {
        law_failure_is_final(start, before, after.drop_last());
        assert(events.drop_last() =~= before.push(ReclaimEvent::Failed) + after.drop_last());
    }
}

/// Success is owed once every step has been done: a file that is not full needs
/// to be synchronized, a full one to be replaced and sent before that, and the
/// directory to be synchronized at the end, if at all. Nothing less is enough
/// there: without a synchronization of the directory at the time the file was
/// created or later, the directory remains to be synchronized.
pub proof fn law_completed_steps_mean_success(
    new_length: u64,
    checkpoint_after_bytes: u64,
    directory_synced_at: Option<Timestamp>,
    created_at: Option<Timestamp>,
    directory_synced_later: Option<Timestamp>,
)
    ensures
        ({
            let start = Reclaim::begin(
                WriteResult::Entry { new_length },
                checkpoint_after_bytes,
                directory_synced_at,
            );
            let synchronizing = if checkpoint_after_bytes <= new_length {
                start.after(ReclaimEvent::Activated { directory_synced_at }).after(
                    ReclaimEvent::Sent,
                )
            } else {
                start
            };
            let synchronized = synchronizing.after(ReclaimEvent::Synchronized { created_at });
            &&& directory_sync_target(created_at, directory_synced_at) is None ==> synchronized
                is Done
            &&& directory_sync_target(created_at, directory_synced_at) matches Some(target)
                ==> synchronized.after(
                ReclaimEvent::DirectorySynced { directory_synced_at: directory_synced_later },
            ) == if crate::entry::synced_since(directory_synced_later, target) {
                Reclaim::Done
            } else {
                Reclaim::SyncingDirectory { sync_on_or_after: target }
            }
        }),
{
}

/// A file with a new entry is replaced first exactly if its length has reached
/// the limit; otherwise it is synchronized at once. Either way it is its whole
/// length that counts. After a rollback nothing is to be done.
pub proof fn law_files_are_full_from_the_limit_on(
    new_length: u64,
    limit: u64,
    directory_synced_at: Option<Timestamp>,
)
    ensures
        ({
            let step = Reclaim::begin(
                WriteResult::Entry { new_length },
                limit,
                directory_synced_at,
            );
            &&& new_length >= limit ==> step == Reclaim::Activating { new_length }
            &&& new_length < limit ==> step == (Reclaim::Synchronizing {
                new_length,
                last_directory_sync: directory_synced_at,
            })
        }),
        Reclaim::begin(WriteResult::RolledBack, limit, directory_synced_at) == Reclaim::Done,
{
}

/// A full file is sent once another one is active, and synchronized once it has
/// been sent. The length, and the time at which the directory was last
/// synchronized when the other file became active, are kept.
pub proof fn law_full_files_are_replaced_sent_and_synchronized(
    new_length: u64,
    directory_synced_at: Option<Timestamp>,
)
    ensures
        ({
            let replaced = (Reclaim::Activating { new_length }).after(
                ReclaimEvent::Activated { directory_synced_at },
            );
            &&& replaced == (Reclaim::Sending {
                new_length,
                last_directory_sync: directory_synced_at,
            })
            &&& replaced.after(ReclaimEvent::Sent) == (Reclaim::Synchronizing {
                new_length,
                last_directory_sync: directory_synced_at,
            })
        }),
{
}

/// Once the file is synchronized, success is reported exactly if the file was
/// there when the log was opened, or the directory had been synchronized when the
/// file was created or later. Otherwise the directory is to be synchronized as of
/// the creation, and success is reported once it has been, then or later.
pub proof fn law_directory_is_synchronized_for_newer_files(
    new_length: u64,
    last_directory_sync: Option<Timestamp>,
    created_at: Timestamp,
    synced_at: Timestamp,
)
    ensures
        ({
            let step = Reclaim::Synchronizing { new_length, last_directory_sync };
            let next = step.after(ReclaimEvent::Synchronized { created_at: Some(created_at) });
            let ended = next.after(
                ReclaimEvent::DirectorySynced { directory_synced_at: Some(synced_at) },
            );
            let newer = last_directory_sync is None || (last_directory_sync->0).0 < created_at.0;
            &&& step.after(ReclaimEvent::Synchronized { created_at: None }) == Reclaim::Done
            &&& !newer ==> next == Reclaim::Done
            &&& newer ==> next == (Reclaim::SyncingDirectory { sync_on_or_after: created_at })
            &&& newer && synced_at.0 >= created_at.0 ==> ended == Reclaim::Done
            &&& newer && synced_at.0 < created_at.0 ==> ended == next
            &&& newer ==> next.after(ReclaimEvent::DirectorySynced { directory_synced_at: None })
                == next
        }),
{
}

/// A step is left by the answer to it alone, or by its failure; success and
/// failure are not left at all.
pub proof fn law_steps_are_left_by_their_answers_alone(step: Reclaim, event: ReclaimEvent)
    requires
        step.after(event) != step,
    ensures
        !(step is Done),
        !(step is Failed),
        event is Failed ==> step.after(event) is Failed,
        !(event is Failed) ==> !(step.after(event) is Failed),
        event is Activated ==> step is Activating && step.after(event) is Sending,
        event is Sent ==> step is Sending && step.after(event) is Synchronizing,
        event is Synchronized ==> step is Synchronizing,
        event is DirectorySynced ==> step is SyncingDirectory && step.after(event) is Done,
{
}

/// A failed step ends the reclaiming, whichever it is.
pub proof fn law_each_step_can_fail(step: Reclaim)
    ensures
        step is Done ==> step.after(ReclaimEvent::Failed) is Done,
        !(step is Done) ==> step.after(ReclaimEvent::Failed) is Failed,
{
}

/// Success is reported for a written entry only after its file was reported to be
/// synchronized in a step that asked for all of it, and only if the file was
/// there when the log was opened, or its directory was synchronized when it was
/// created or later: already before, or as reported afterwards.
pub proof fn law_success_is_backed_by_synchronization(
    new_length: u64,
    limit: u64,
    directory_synced_at: Option<Timestamp>,
    events: Seq<ReclaimEvent>,
) -> (i: int)
    requires
        Reclaim::begin(
            WriteResult::Entry { new_length },
            limit,
            directory_synced_at,
        ).after_all(events) is Done,
    ensures
        0 <= i < events.len(),
        events[i] is Synchronized,
        ({
            let start = Reclaim::begin(
                WriteResult::Entry { new_length },
                limit,
                directory_synced_at,
            );
            let asked = start.after_all(events.subrange(0, i));
            &&& asked is Synchronizing
            &&& asked->Synchronizing_new_length == new_length
            &&& {
                ||| events[i]->created_at is None
                ||| asked->Synchronizing_last_directory_sync is Some && (
                asked->Synchronizing_last_directory_sync->0).0 >= (events[i]->created_at->0).0
                ||| exists|j: int|
                    i < j < events.len() && (#[trigger] events[j]) is DirectorySynced
                        && events[j]->DirectorySynced_directory_synced_at is Some && (
                    events[j]->DirectorySynced_directory_synced_at->0).0 >= (
                    events[i]->created_at->0).0
            }
        }),
{
    let start = Reclaim::begin(
        WriteResult::Entry { new_length },
        limit,
        directory_synced_at,
    );
    law_success_means_durable(new_length, limit, directory_synced_at, events);
    let i = choose|i: int| #[trigger]
        file_synchronized_at(start, events, i, new_length) && match directory_sync_target_at(
            start,
            events,
            i,
        ) {
            None => true,
            Some(target) => exists|j: int|
                i < j && #[trigger] directory_synchronized_at(start, events, j, target),
        };
    match directory_sync_target_at(start, events, i) {
        None => {},
        Some(target) => {
            let j = choose|j: int|
                i < j && #[trigger] directory_synchronized_at(start, events, j, target);
            assert(events[j] is DirectorySynced);
        },
    }
    i
}

/// Success is reported for an entry that filled its file only after another file
/// became active, and after that the full one was sent to be checkpointed.
pub proof fn law_full_files_are_sent_before_success(
    new_length: u64,
    events: Seq<ReclaimEvent>,
) -> (steps: (int, int))
    requires
        match (Reclaim::Activating { new_length }).after_all(events) {
            Reclaim::Synchronizing { .. } => true,
            Reclaim::SyncingDirectory { .. } => true,
            Reclaim::Done => true,
            _ => false,
        },
    ensures
        0 <= steps.0 < steps.1 < events.len(),
        events[steps.0] is Activated,
        (Reclaim::Activating { new_length }).after_all(events.subrange(0, steps.0)) is Activating,
        events[steps.1] is Sent,
        (Reclaim::Activating { new_length }).after_all(events.subrange(0, steps.1)) is Sending,
    decreases events.len(),
{
    let before = events.drop_last();
    let last = events.len() - 1;
    assert(events.subrange(0, last) =~= before);
    if (Reclaim::Activating { new_length }).after_all(before) is Sending {
        let i = lemma_replaced_before_sending(new_length, before);
        assert(before.subrange(0, i) =~= events.subrange(0, i));
        (i, last)
    } else {
        let (i, j) = law_full_files_are_sent_before_success(new_length, before);
        assert(before.subrange(0, i) =~= events.subrange(0, i));
        assert(before.subrange(0, j) =~= events.subrange(0, j));
        (i, j)
    }
}

proof fn lemma_replaced_before_sending(new_length: u64, events: Seq<ReclaimEvent>) -> (i: int)
    requires
        (Reclaim::Activating { new_length }).after_all(events) is Sending,
    ensures
        0 <= i < events.len(),
        events[i] is Activated,
        (Reclaim::Activating { new_length }).after_all(events.subrange(0, i)) is Activating,
    decreases events.len(),
{
    let before = events.drop_last();
    let last = events.len() - 1;
    assert(events.subrange(0, last) =~= before);
    if (Reclaim::Activating { new_length }).after_all(before) is Sending {
        let i = lemma_replaced_before_sending(new_length, before);
        assert(before.subrange(0, i) =~= events.subrange(0, i));
        i
    } else {
        last
    }
}

} // verus!
