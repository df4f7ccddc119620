//! The work of the thread that checkpoints full segment files.
//!
//! The thread receives one file after the other. It hands the file's entries to
//! the log's manager, empties the file and renames it, so that it can be reused.
use vstd::prelude::*;

use crate::entry::{EntryId, Timestamp};
use crate::names::checkpointed_file_name;

verus! {

/// What the writer of a segment file says about the file.
#[derive(Debug)]
pub struct WriterStatus {
    /// Whether all that was written has reached the disk.
    pub is_synchronized: bool,
    /// Where the next byte would be written.
    pub position: u64,
    /// The id of the last entry in the file.
    pub last_entry_id: Option<EntryId>,
    /// The name of the file.
    pub file_name: String,
}

/// How far the checkpointing has come, and with that, what is to be done next.
/// `F` is the handle of a segment file; from its receipt on, the file goes with
/// the steps.
#[derive(Debug)]
pub enum Checkpoint<F> {
    /// Wait for the next file.
    Receiving,
    /// A file was received: see whether the log is still open.
    Resuming { file: F },
    /// Ask the file's writer for its status.
    Inspecting { file: F },
    /// Synchronize the file up to `target`.
    Synchronizing { file: F, target: u64 },
    /// Let the manager checkpoint the file's entries up to `entry_id`.
    Checkpointing { file: F, entry_id: EntryId, file_name: String },
    /// Revert the file to `position`.
    Reverting { file: F, position: u64, new_name: String },
    /// Rename the file to `new_name`.
    Renaming { file: F, new_name: String },
    /// Have the directory synchronized at `sync_on_or_after` or later, then add
    /// the file to those that can be reused.
    SyncingDirectory { file: F, sync_on_or_after: Timestamp },
    /// End the thread without an error.
    Stopped,
    /// A step failed; end the thread with its error.
    Failed,
}

/// What the step that was to be done has led to.
#[derive(Debug)]
pub enum CheckpointEvent<F> {
    /// A file was received.
    Received { file: F },
    /// No file will ever be received again.
    Disconnected,
    /// The log is still open.
    LogOpen,
    /// The log has been dropped.
    LogClosed,
    /// The writer gave its status.
    Inspected(WriterStatus),
    /// The file was synchronized.
    Synchronized,
    /// The manager has checkpointed the entries.
    Checkpointed,
    /// The file was reverted.
    Reverted,
    /// The file was renamed; `now` is a moment after that.
    Renamed { now: Timestamp },
    /// The step failed.
    Failed,
}

/// The state of [`Checkpoint`].
pub enum CheckpointState<F> {
    Receiving,
    Resuming { file: F },
    Inspecting { file: F },
    Synchronizing { file: F, target: u64 },
    Checkpointing { file: F, entry_id: EntryId, file_name: Seq<char> },
    Reverting { file: F, position: u64, new_name: Seq<char> },
    Renaming { file: F, new_name: Seq<char> },
    SyncingDirectory { file: F, sync_on_or_after: Timestamp },
    Stopped,
    Failed,
}

impl<F> View for Checkpoint<F> {
    type V = CheckpointState<F>;

    open spec fn view(&self) -> CheckpointState<F> {
        match *self {
            Checkpoint::Receiving => CheckpointState::Receiving,
            Checkpoint::Resuming { file } => CheckpointState::Resuming { file },
            Checkpoint::Inspecting { file } => CheckpointState::Inspecting { file },
            Checkpoint::Synchronizing { file, target } => CheckpointState::Synchronizing {
                file,
                target,
            },
            Checkpoint::Checkpointing { file, entry_id, file_name } =>
                CheckpointState::Checkpointing { file, entry_id, file_name: file_name@ },
            Checkpoint::Reverting { file, position, new_name } => CheckpointState::Reverting {
                file,
                position,
                new_name: new_name@,
            },
            Checkpoint::Renaming { file, new_name } => CheckpointState::Renaming {
                file,
                new_name: new_name@,
            },
            Checkpoint::SyncingDirectory { file, sync_on_or_after } =>
                CheckpointState::SyncingDirectory { file, sync_on_or_after },
            Checkpoint::Stopped => CheckpointState::Stopped,
            Checkpoint::Failed => CheckpointState::Failed,
        }
    }
}

impl<F> CheckpointState<F> {
    /// Whether the thread ends.
    pub open spec fn is_over(self) -> bool {
        self is Stopped || self is Failed
    }

    /// The file that is being dealt with.
    pub open spec fn file(self) -> Option<F> {
        match self {
            CheckpointState::Resuming { file } => Some(file),
            CheckpointState::Inspecting { file } => Some(file),
            CheckpointState::Synchronizing { file, .. } => Some(file),
            CheckpointState::Checkpointing { file, .. } => Some(file),
            CheckpointState::Reverting { file, .. } => Some(file),
            CheckpointState::Renaming { file, .. } => Some(file),
            CheckpointState::SyncingDirectory { file, .. } => Some(file),
            _ => None,
        }
    }

    /// The step that a file is emptied in, before it is renamed.
    pub open spec fn emptying(file: F, file_name: Seq<char>) -> CheckpointState<F> {
        CheckpointState::Reverting {
            file,
            position: 0,
            new_name: crate::names::checkpointed_file_name_of(file_name),
        }
    }

    /// The step after the writer of `file` gave `status`: a file is synchronized
    /// until all of it has reached the disk; then its entries, if there are any,
    /// are checkpointed, and the file is emptied.
    pub open spec fn inspected(file: F, status: WriterStatus) -> CheckpointState<F> {
        if !status.is_synchronized {
            CheckpointState::Synchronizing { file, target: status.position }
        } else {
            match status.last_entry_id {
                Some(entry_id) => CheckpointState::Checkpointing {
                    file,
                    entry_id,
                    file_name: status.file_name@,
                },
                None => CheckpointState::emptying(file, status.file_name@),
            }
        }
    }

    /// The step after `event`. An event that does not answer the current step
    /// changes nothing.
    pub open spec fn after(self, event: CheckpointEvent<F>) -> CheckpointState<F> {
        match (self, event) {
            (CheckpointState::Stopped, _) => self,
            (CheckpointState::Failed, _) => self,
            (_, CheckpointEvent::Failed) => CheckpointState::Failed,
            (CheckpointState::Receiving, CheckpointEvent::Received { file }) =>
                CheckpointState::Resuming { file },
            (CheckpointState::Receiving, CheckpointEvent::Disconnected) => CheckpointState::Stopped,
            (CheckpointState::Resuming { file }, CheckpointEvent::LogOpen) =>
                CheckpointState::Inspecting { file },
            (CheckpointState::Resuming { .. }, CheckpointEvent::LogClosed) =>
                CheckpointState::Stopped,
            (CheckpointState::Inspecting { file }, CheckpointEvent::Inspected(status)) =>
                CheckpointState::inspected(file, status),
            (CheckpointState::Synchronizing { file, .. }, CheckpointEvent::Synchronized) =>
                CheckpointState::Inspecting { file },
            (
                CheckpointState::Checkpointing { file, entry_id: _, file_name },
                CheckpointEvent::Checkpointed,
            ) => CheckpointState::emptying(file, file_name),
            (
                CheckpointState::Reverting { file, position: _, new_name },
                CheckpointEvent::Reverted,
            ) => CheckpointState::Renaming { file, new_name },
            (CheckpointState::Renaming { file, .. }, CheckpointEvent::Renamed { now }) =>
                CheckpointState::SyncingDirectory { file, sync_on_or_after: now },
            _ => self,
        }
    }

    /// The step after all of `events`.
    pub open spec fn after_all(self, events: Seq<CheckpointEvent<F>>) -> CheckpointState<F>
        decreases events.len(),
    {
        if events.len() == 0 {
            self
        } else {
            self.after_all(events.drop_last()).after(events.last())
        }
    }

    /// The step once the file, whose new name has reached the disk, can be
    /// reused: the next file is waited for.
    pub open spec fn finished(self) -> CheckpointState<F> {
        if self is SyncingDirectory {
            CheckpointState::Receiving
        } else {
            self
        }
    }
}

impl<F> Checkpoint<F> {
    /// The step that a file is emptied in, before it is renamed.
    fn empty_file(file: F, file_name: &str) -> (step: Checkpoint<F>)
        ensures
            step@ == CheckpointState::emptying(file, file_name@),
            step is Reverting,
            step->Reverting_file == file,
            step->position == 0,
            step->Reverting_new_name@ == file_name@ + seq!['-', 'c', 'p'],
    {
        Checkpoint::Reverting { file, position: 0, new_name: checkpointed_file_name(file_name) }
    }

    /// Goes on to the step after `event`.
    pub fn resume(self, event: CheckpointEvent<F>) -> (next: Checkpoint<F>)
        ensures
            next@ == self@.after(event),
            next is Reverting && !(self is Reverting) ==> next->position == 0,
            next is Checkpointing && !(self is Checkpointing) ==> {
                &&& self is Inspecting
                &&& event is Inspected
                &&& event->Inspected_0.is_synchronized
                &&& event->Inspected_0.last_entry_id == Some(next->entry_id)
                &&& next->Checkpointing_file == self->Inspecting_file
            },
    {
        match (self, event) {
            (Checkpoint::Stopped, _) => Checkpoint::Stopped,
            (Checkpoint::Failed, _) => Checkpoint::Failed,
            (_, CheckpointEvent::Failed) => Checkpoint::Failed,
            (Checkpoint::Receiving, CheckpointEvent::Received { file }) => Checkpoint::Resuming {
                file,
            },
            (Checkpoint::Receiving, CheckpointEvent::Disconnected) => Checkpoint::Stopped,
            (Checkpoint::Resuming { file }, CheckpointEvent::LogOpen) => Checkpoint::Inspecting {
                file,
            },
            (Checkpoint::Resuming { .. }, CheckpointEvent::LogClosed) => Checkpoint::Stopped,
            (Checkpoint::Inspecting { file }, CheckpointEvent::Inspected(status)) => {
                if !status.is_synchronized {
                    Checkpoint::Synchronizing { file, target: status.position }
                } else {
                    match status.last_entry_id {
                        Some(entry_id) => Checkpoint::Checkpointing {
                            file,
                            entry_id,
                            file_name: status.file_name,
                        },
                        None => Checkpoint::empty_file(file, status.file_name.as_str()),
                    }
                }
            },
            (Checkpoint::Synchronizing { file, .. }, CheckpointEvent::Synchronized) =>
                Checkpoint::Inspecting { file },
            (
                Checkpoint::Checkpointing { file, entry_id: _, file_name },
                CheckpointEvent::Checkpointed,
            ) => Checkpoint::empty_file(file, file_name.as_str()),
            (Checkpoint::Reverting { file, position: _, new_name }, CheckpointEvent::Reverted) =>
                Checkpoint::Renaming { file, new_name },
            (Checkpoint::Renaming { file, .. }, CheckpointEvent::Renamed { now }) =>
                Checkpoint::SyncingDirectory { file, sync_on_or_after: now },
            (step, _) => step,
        }
    }
}

/// The step after `events`, where `file` was received before them.
pub open spec fn step_after<F>(file: F, events: Seq<CheckpointEvent<F>>) -> CheckpointState<F> {
    (CheckpointState::Resuming { file }).after_all(events)
}

/// The step that event `i` of `events` answered, where `file` was received before
/// them.
pub open spec fn step_at<F>(
    file: F,
    events: Seq<CheckpointEvent<F>>,
    i: int,
) -> CheckpointState<F> {
    step_after(file, events.subrange(0, i))
}

/// Whether event `i` was the status of a file that had reached the disk.
pub open spec fn found_synchronized_at<F>(
    file: F,
    events: Seq<CheckpointEvent<F>>,
    i: int,
) -> bool {
    &&& 0 <= i < events.len()
    &&& step_at(file, events, i) is Inspecting
    &&& events[i] is Inspected
    &&& events[i]->Inspected_0.is_synchronized
}

/// Whether event `j` was the completed checkpoint of the entries up to that
/// which `status` names.
pub open spec fn checkpointed_at<F>(
    file: F,
    events: Seq<CheckpointEvent<F>>,
    j: int,
    status: WriterStatus,
) -> bool {
    &&& 0 <= j < events.len()
    &&& step_at(file, events, j) is Checkpointing
    &&& Some(step_at(file, events, j)->entry_id) == status.last_entry_id
    &&& events[j] is Checkpointed
}

/// Whether event `k` was the completed emptying of the file that had `status`.
pub open spec fn emptied_at<F>(
    file: F,
    events: Seq<CheckpointEvent<F>>,
    k: int,
    status: WriterStatus,
) -> bool {
    &&& 0 <= k < events.len()
    &&& step_at(file, events, k) == CheckpointState::emptying(file, status.file_name@)
    &&& events[k] is Reverted
}

/// Whether event `l` was the completed renaming of the file that had `status`
/// to its checkpointed name.
pub open spec fn renamed_at<F>(
    file: F,
    events: Seq<CheckpointEvent<F>>,
    l: int,
    status: WriterStatus,
) -> bool {
    &&& 0 <= l < events.len()
    &&& step_at(file, events, l) == (CheckpointState::Renaming {
        file,
        new_name: crate::names::checkpointed_file_name_of(status.file_name@),
    })
    &&& events[l] is Renamed
}

/// Whether the entries of the file that was found synchronized in event `i`, if
/// there were any, were checkpointed between the events `i` and `k`.
pub open spec fn entries_checkpointed_between<F>(
    file: F,
    events: Seq<CheckpointEvent<F>>,
    i: int,
    k: int,
) -> bool {
    events[i]->Inspected_0.last_entry_id is Some ==> exists|j: int|
        i < j < k && #[trigger] checkpointed_at(file, events, j, events[i]->Inspected_0)
}

/// Once a file has been received, the steps deal with that file alone, until the
/// thread ends: no other one is received before the file can be reused.
pub proof fn law_one_file_at_a_time<F>(file: F, events: Seq<CheckpointEvent<F>>)
    ensures
        step_after(file, events).is_over() || step_after(file, events).file() == Some(file),
        !(step_after(file, events) is Receiving),
    decreases events.len(),
{
    if events.len() > 0 {
        law_one_file_at_a_time(file, events.drop_last());
    }
}

/// What happened in `before` happened in longer `events` too.
proof fn lemma_earlier_events<F>(
    file: F,
    before: Seq<CheckpointEvent<F>>,
    events: Seq<CheckpointEvent<F>>,
)
    requires
        before.len() <= events.len(),
        before == events.subrange(0, before.len() as int),
    ensures
        forall|i: int| 0 <= i < before.len() ==> #[trigger] before[i] == events[i],
        forall|i: int| #[trigger]
            found_synchronized_at(file, before, i) ==> found_synchronized_at(file, events, i),
        forall|j: int, status: WriterStatus| #[trigger]
            checkpointed_at(file, before, j, status) ==> checkpointed_at(file, events, j, status),
        forall|k: int, status: WriterStatus| #[trigger]
            emptied_at(file, before, k, status) ==> emptied_at(file, events, k, status),
        forall|l: int, status: WriterStatus| #[trigger]
            renamed_at(file, before, l, status) ==> renamed_at(file, events, l, status),
{
    assert forall|i: int| 0 <= i < before.len() implies #[trigger] step_at(file, before, i)
        == step_at(file, events, i) by {
        assert(before.subrange(0, i) =~= events.subrange(0, i));
    }
    assert forall|i: int| #[trigger]
        found_synchronized_at(file, before, i) implies found_synchronized_at(file, events, i) by {
        assert(before[i] == events[i]);
    }
    assert forall|j: int, status: WriterStatus| #[trigger]
        checkpointed_at(file, before, j, status) implies checkpointed_at(
        file,
        events,
        j,
        status,
    ) by {
        assert(before[j] == events[j]);
    }
    assert forall|k: int, status: WriterStatus| #[trigger]
        emptied_at(file, before, k, status) implies emptied_at(file, events, k, status) by {
        assert(before[k] == events[k]);
    }
    assert forall|l: int, status: WriterStatus| #[trigger]
        renamed_at(file, before, l, status) implies renamed_at(file, events, l, status) by {
        assert(before[l] == events[l]);
    }
}

proof fn lemma_last_event<F>(file: F, events: Seq<CheckpointEvent<F>>)
    requires
        events.len() > 0,
    ensures
        step_at(file, events, events.len() - 1) == step_after(
            file,
            events.drop_last(),
        ),
        step_after(file, events) == step_at(file, events, events.len() - 1).after(
            events[events.len() - 1],
        ),
{
    assert(events.subrange(0, events.len() - 1) =~= events.drop_last());
}

proof fn lemma_before_checkpointing<F>(file: F, events: Seq<CheckpointEvent<F>>) -> (i: int)
    requires
        step_after(file, events) is Checkpointing,
    ensures
        found_synchronized_at(file, events, i),
        step_after(file, events) == CheckpointState::inspected(
            file,
            events[i]->Inspected_0,
        ),
    decreases events.len(),
{
    let before = events.drop_last();
    law_one_file_at_a_time(file, before);
    lemma_last_event(file, events);
    lemma_earlier_events(file, before, events);
    if step_after(file, before) is Checkpointing {
        lemma_before_checkpointing(file, before)
    } else {
        events.len() - 1
    }
}

proof fn lemma_before_reverting<F>(file: F, events: Seq<CheckpointEvent<F>>) -> (i: int)
    requires
        step_after(file, events) is Reverting,
    ensures
        found_synchronized_at(file, events, i),
        entries_checkpointed_between(file, events, i, events.len() as int),
        step_after(file, events) == CheckpointState::emptying(
            file,
            events[i]->Inspected_0.file_name@,
        ),
    decreases events.len(),
{
    let before = events.drop_last();
    let last = events.len() - 1;
    law_one_file_at_a_time(file, before);
    lemma_last_event(file, events);
    lemma_earlier_events(file, before, events);
    match step_after(file, before) {
        CheckpointState::Reverting { .. } => {
            let i = lemma_before_reverting(file, before);
            let status = before[i]->Inspected_0;
            if status.last_entry_id is Some {
                let j = choose|j: int|
                    i < j < before.len() && #[trigger] checkpointed_at(file, before, j, status);
                assert(checkpointed_at(file, events, j, status));
            }
            i
        },
        CheckpointState::Checkpointing { .. } => {
            let i = lemma_before_checkpointing(file, before);
            assert(checkpointed_at(file, events, last, events[i]->Inspected_0));
            i
        },
        _ => last,
    }
}

proof fn lemma_before_renaming<F>(file: F, events: Seq<CheckpointEvent<F>>) -> (steps: (int, int))
    requires
        step_after(file, events) is Renaming,
    ensures
        steps.0 < steps.1,
        found_synchronized_at(file, events, steps.0),
        entries_checkpointed_between(file, events, steps.0, steps.1),
        emptied_at(file, events, steps.1, events[steps.0]->Inspected_0),
        step_after(file, events) == (CheckpointState::Renaming {
            file,
            new_name: crate::names::checkpointed_file_name_of(
                events[steps.0]->Inspected_0.file_name@,
            ),
        }),
    decreases events.len(),
{
    let before = events.drop_last();
    let last = events.len() - 1;
    lemma_last_event(file, events);
    lemma_earlier_events(file, before, events);
    let (i, k) = if step_after(file, before) is Renaming {
        lemma_before_renaming(file, before)
    } else {
        (lemma_before_reverting(file, before), last)
    };
    let status = before[i]->Inspected_0;
    if status.last_entry_id is Some {
        let j = choose|j: int| i < j < k && #[trigger] checkpointed_at(file, before, j, status);
        assert(checkpointed_at(file, events, j, status));
    }
    (i, k)
}

/// Whether, in the course of `events`, a file was found synchronized, its
/// entries checkpointed if it had any, the file emptied and then renamed to its
/// checkpointed name, in this order.
pub open spec fn prepared_for_reuse<F>(file: F, events: Seq<CheckpointEvent<F>>) -> bool {
    exists|i: int, k: int, l: int|
        i < k < l && #[trigger] found_synchronized_at(file, events, i)
            && entries_checkpointed_between(file, events, i, k) && #[trigger] emptied_at(
            file,
            events,
            k,
            events[i]->Inspected_0,
        ) && #[trigger] renamed_at(file, events, l, events[i]->Inspected_0)
}

/// A received file comes to be reused only after all that was written to it has
/// reached the disk, the manager has checkpointed its entries, and the file has
/// been emptied and renamed.
pub proof fn law_reuse_follows_checkpoint<F>(file: F, events: Seq<CheckpointEvent<F>>)
    requires
        step_after(file, events) is SyncingDirectory,
    ensures
        prepared_for_reuse(file, events),
    decreases events.len(),
{
    let before = events.drop_last();
    let last = events.len() - 1;
    lemma_last_event(file, events);
    lemma_earlier_events(file, before, events);
    let (i, k, l) = if step_after(file, before) is SyncingDirectory {
        law_reuse_follows_checkpoint(file, before);
        choose|i: int, k: int, l: int|
            i < k < l && #[trigger] found_synchronized_at(file, before, i)
                && entries_checkpointed_between(file, before, i, k) && #[trigger] emptied_at(
                file,
                before,
                k,
                before[i]->Inspected_0,
            ) && #[trigger] renamed_at(file, before, l, before[i]->Inspected_0)
    } else {
        let (i, k) = lemma_before_renaming(file, before);
        (i, k, last)
    };
    let status = before[i]->Inspected_0;
    if status.last_entry_id is Some {
        let j = choose|j: int| i < j < k && #[trigger] checkpointed_at(file, before, j, status);
        assert(checkpointed_at(file, events, j, status));
    }
    assert(found_synchronized_at(file, events, i));
    assert(emptied_at(file, events, k, events[i]->Inspected_0));
    assert(renamed_at(file, events, l, events[i]->Inspected_0));
}

/// The first step that fails ends the thread with an error, whatever is
/// reported after it.
pub proof fn law_failure_is_final<F>(
    start: CheckpointState<F>,
    before: Seq<CheckpointEvent<F>>,
    after: Seq<CheckpointEvent<F>>,
)
    requires
        !start.after_all(before).is_over(),
    ensures
        start.after_all(before.push(CheckpointEvent::Failed) + after) is Failed,
    decreases after.len(),
{
    let events = before.push(CheckpointEvent::Failed) + after;
    if after.len() == 0 {
        assert(events.drop_last() =~= before);
    } else {
        law_failure_is_final(start, before, after.drop_last());
        assert(events.drop_last() =~= before.push(CheckpointEvent::Failed) + after.drop_last());
    }
}

/// A received file comes to be reused once every step has been done: it is
/// synchronized as often as that is found necessary, checkpointed if it has
/// entries, then emptied and renamed, and after that the next one is waited for.
pub proof fn law_completed_steps_lead_to_reuse<F>(
    file: F,
    unsynchronized: WriterStatus,
    status: WriterStatus,
    now: Timestamp,
)
    requires
        !unsynchronized.is_synchronized,
        status.is_synchronized,
    ensures
        ({
            let received = CheckpointState::Receiving.after(CheckpointEvent::Received { file });
            let opened = received.after(CheckpointEvent::LogOpen);
            let inspected = opened.after(CheckpointEvent::Inspected(status));
            let checkpointed = if status.last_entry_id is Some {
                inspected.after(CheckpointEvent::Checkpointed)
            } else {
                inspected
            };
            let renamed = checkpointed.after(CheckpointEvent::Reverted).after(
                CheckpointEvent::Renamed { now },
            );
            &&& opened.after(CheckpointEvent::Inspected(unsynchronized)).after(
                CheckpointEvent::Synchronized,
            ) == opened
            &&& renamed == (CheckpointState::SyncingDirectory { file, sync_on_or_after: now })
            &&& renamed.finished() is Receiving
        }),
{
}

/// Whether the manager was asked to checkpoint the entries in event `i`.
pub open spec fn requested_at<F>(file: F, events: Seq<CheckpointEvent<F>>, i: int) -> bool {
    &&& 0 <= i < events.len()
    &&& !(step_at(file, events, i) is Checkpointing)
    &&& step_at(file, events, i + 1) is Checkpointing
}

/// Once a file has been found synchronized, it is not inspected again.
proof fn lemma_inspection_is_over<F>(file: F, events: Seq<CheckpointEvent<F>>, i: int, j: int)
    requires
        0 <= i <= j <= events.len(),
        step_at(file, events, i) is Checkpointing,
    ensures
        match step_at(file, events, j) {
            CheckpointState::Receiving => false,
            CheckpointState::Resuming { .. } => false,
            CheckpointState::Inspecting { .. } => false,
            CheckpointState::Synchronizing { .. } => false,
            _ => true,
        },
    decreases j,
{
    if i < j {
        lemma_inspection_is_over(file, events, i, j - 1);
        assert(events.subrange(0, j).drop_last() =~= events.subrange(0, j - 1));
    }
}

/// The manager is asked at most once to checkpoint a file that was received.
pub proof fn law_manager_is_asked_at_most_once<F>(
    file: F,
    events: Seq<CheckpointEvent<F>>,
    i: int,
    j: int,
)
    requires
        requested_at(file, events, i),
        requested_at(file, events, j),
    ensures
        i == j,
{
    let first = if i < j { i } else { j };
    let second = if i < j { j } else { i };
    if first < second {
        lemma_inspection_is_over(file, events, first + 1, second);
        assert(events.subrange(0, second + 1).drop_last() =~= events.subrange(0, second));
    }
}

/// A change of the step of the checkpointing thread.
pub enum CheckpointChange<F> {
    /// The step was resumed with `event`.
    Resume { event: CheckpointEvent<F> },
    /// The checkpoint was finished: its file was added to those that can be
    /// reused.
    Finish,
}

/// What the checkpointing thread has done since it was started.
pub struct CheckpointHistory<F> {
    /// The step that is to be done next.
    pub step: CheckpointState<F>,
    /// The files that were received.
    pub received: Seq<F>,
    /// The files that were found synchronized, with their last entries.
    pub found: Seq<(F, Option<EntryId>)>,
    /// The files that the manager was asked to checkpoint, with the entries up to
    /// which it was to do so.
    pub requested: Seq<(F, EntryId)>,
    /// The files that the manager has checkpointed.
    pub checkpointed: Seq<(F, EntryId)>,
    /// The files that were added to those that can be reused.
    pub recycled: Seq<F>,
}

impl<F> CheckpointHistory<F> {
    /// Nothing has been done yet.
    pub open spec fn started() -> CheckpointHistory<F> {
        CheckpointHistory {
            step: CheckpointState::Receiving,
            received: Seq::empty(),
            found: Seq::empty(),
            requested: Seq::empty(),
            checkpointed: Seq::empty(),
            recycled: Seq::empty(),
        }
    }

    /// What has been done after `change`.
    pub open spec fn after(self, change: CheckpointChange<F>) -> CheckpointHistory<F> {
        match change {
            CheckpointChange::Resume { event } => {
                let next = self.step.after(event);
                CheckpointHistory {
                    step: next,
                    received: match (self.step, event) {
                        (CheckpointState::Receiving, CheckpointEvent::Received { file }) =>
                            self.received.push(file),
                        _ => self.received,
                    },
                    found: match (self.step, event) {
                        (
                            CheckpointState::Inspecting { file },
                            CheckpointEvent::Inspected(status),
                        ) => if status.is_synchronized {
                            self.found.push((file, status.last_entry_id))
                        } else {
                            self.found
                        },
                        _ => self.found,
                    },
                    requested: match (self.step, next) {
                        (CheckpointState::Checkpointing { .. }, _) => self.requested,
                        (_, CheckpointState::Checkpointing { file, entry_id, .. }) =>
                            self.requested.push((file, entry_id)),
                        _ => self.requested,
                    },
                    checkpointed: match (self.step, event) {
                        (
                            CheckpointState::Checkpointing { file, entry_id, .. },
                            CheckpointEvent::Checkpointed,
                        ) => self.checkpointed.push((file, entry_id)),
                        _ => self.checkpointed,
                    },
                    recycled: self.recycled,
                }
            },
            CheckpointChange::Finish => CheckpointHistory {
                step: self.step.finished(),
                recycled: match self.step {
                    CheckpointState::SyncingDirectory { file, .. } => self.recycled.push(file),
                    _ => self.recycled,
                },
                ..self
            },
        }
    }

    /// What has been done after all of `changes`.
    pub open spec fn after_all(self, changes: Seq<CheckpointChange<F>>) -> CheckpointHistory<F>
        decreases changes.len(),
    {
        if changes.len() == 0 {
            self
        } else {
            self.after_all(changes.drop_last()).after(changes.last())
        }
    }

    /// Whether the files were dealt with one after the other, in the order in
    /// which they were received, and each of them once:
    /// - all files that were received can be reused, but for the last one while
    ///   it is being dealt with or if the thread has ended meanwhile;
    /// - the files that can be reused, and those that were found synchronized,
    ///   are those that were received first, in their order;
    /// - the manager was asked to checkpoint those with entries, each once and
    ///   in their order, and has done so before the next step.
    pub open spec fn is_in_order(self) -> bool {
        &&& self.recycled.len() <= self.found.len() <= self.received.len()
        &&& self.received.len() <= self.recycled.len() + 1
        &&& forall|i: int|
            0 <= i < self.recycled.len() ==> #[trigger] self.recycled[i] == self.received[i]
        &&& forall|i: int|
            0 <= i < self.found.len() ==> (#[trigger] self.found[i]).0 == self.received[i]
        &&& self.requested == requests_for(self.found)
        &&& match self.step {
            CheckpointState::Receiving => self.received == self.recycled,
            CheckpointState::Stopped => true,
            CheckpointState::Failed => true,
            _ => Some(self.received.last()) == self.step.file() && self.received
                == self.recycled.push(self.received.last()),
        }
        &&& match self.step {
            CheckpointState::Resuming { .. } => self.found.len() == self.recycled.len(),
            CheckpointState::Inspecting { .. } => self.found.len() == self.recycled.len(),
            CheckpointState::Synchronizing { .. } => self.found.len() == self.recycled.len(),
            CheckpointState::Stopped => true,
            CheckpointState::Failed => true,
            _ => self.found.len() == self.received.len(),
        }
        &&& match self.step {
            CheckpointState::Checkpointing { file, entry_id, .. } => self.requested
                == self.checkpointed.push((file, entry_id)),
            CheckpointState::Failed => self.requested == self.checkpointed || self.requested
                == self.checkpointed.push(self.requested.last()),
            _ => self.requested == self.checkpointed,
        }
    }
}

/// What the manager is to be asked for if the files `found` have these last
/// entries: to checkpoint those that have one, in their order.
pub open spec fn requests_for<F>(found: Seq<(F, Option<EntryId>)>) -> Seq<(F, EntryId)>
    decreases found.len(),
{
    if found.len() == 0 {
        Seq::empty()
    } else {
        let (file, last_entry_id) = found.last();
        let before = requests_for(found.drop_last());
        match last_entry_id {
            Some(entry_id) => before.push((file, entry_id)),
            None => before,
        }
    }
}

/// At every moment the files have been dealt with one after the other, in the
/// order in which they were received, and each of them once. In particular,
/// whenever the next file is waited for, all before it can be reused.
pub proof fn law_files_are_dealt_with_in_order<F>(changes: Seq<CheckpointChange<F>>)
    ensures
        CheckpointHistory::<F>::started().after_all(changes).is_in_order(),
    decreases changes.len(),
{
    if changes.len() > 0 {
        law_files_are_dealt_with_in_order(changes.drop_last());
        let before = CheckpointHistory::<F>::started().after_all(changes.drop_last());
        let after = before.after(changes.last());
        assert(after.found.len() > before.found.len() ==> after.found.drop_last() =~= before.found);
    }
}

/// The manager is asked for no more checkpoints than there are files that were
/// received, and has completed no more than it was asked for.
pub proof fn law_checkpoints_do_not_outnumber_files<F>(changes: Seq<CheckpointChange<F>>)
    ensures
        ({
            let history = CheckpointHistory::<F>::started().after_all(changes);
            history.checkpointed.len() <= history.requested.len() <= history.received.len()
        }),
{
    law_files_are_dealt_with_in_order(changes);
    lemma_requests_do_not_outnumber(CheckpointHistory::<F>::started().after_all(changes).found);
}

proof fn lemma_requests_do_not_outnumber<F>(found: Seq<(F, Option<EntryId>)>)
    ensures
        requests_for(found).len() <= found.len(),
    decreases found.len(),
{
    if found.len() > 0 {
        lemma_requests_do_not_outnumber(found.drop_last());
    }
}

/// The thread goes on as long as no step fails, the log is open and more files
/// can come. All files that were received can then be reused, but for the one
/// that is being dealt with.
pub proof fn law_thread_goes_on<F>(changes: Seq<CheckpointChange<F>>)
    requires
        forall|i: int|
            0 <= i < changes.len() ==> !((#[trigger] changes[i]) matches CheckpointChange::Resume {
                event,
            } && (event is Failed || event is LogClosed || event is Disconnected)),
    ensures
        ({
            let history = CheckpointHistory::<F>::started().after_all(changes);
            &&& !history.step.is_over()
            &&& history.received == match history.step.file() {
                Some(file) => history.recycled.push(file),
                None => history.recycled,
            }
        }),
    decreases changes.len(),
{
    law_files_are_dealt_with_in_order(changes);
    if changes.len() > 0 {
        let before = changes.drop_last();
        assert forall|i: int| 0 <= i < before.len() implies !((
        #[trigger] before[i]) matches CheckpointChange::Resume { event } && (event is Failed
            || event is LogClosed || event is Disconnected)) by {
            assert(before[i] == changes[i]);
        }
        law_thread_goes_on(before);
        assert(changes[changes.len() - 1] == changes.last());
    }
}

/// The state of a step is what the step holds.
pub proof fn law_state_is_that_of_the_step<F>(step: Checkpoint<F>)
    ensures
        match step {
            Checkpoint::Receiving => step@ is Receiving,
            Checkpoint::Resuming { file } => step@ == (CheckpointState::Resuming { file }),
            Checkpoint::Inspecting { file } => step@ == (CheckpointState::Inspecting { file }),
            Checkpoint::Synchronizing { file, target } => step@
                == (CheckpointState::Synchronizing { file, target }),
            Checkpoint::Checkpointing { file, entry_id, file_name } => step@
                == (CheckpointState::Checkpointing { file, entry_id, file_name: file_name@ }),
            Checkpoint::Reverting { file, position, new_name } => step@
                == (CheckpointState::Reverting { file, position, new_name: new_name@ }),
            Checkpoint::Renaming { file, new_name } => step@ == (CheckpointState::Renaming {
                file,
                new_name: new_name@,
            }),
            Checkpoint::SyncingDirectory { file, sync_on_or_after } => step@
                == (CheckpointState::SyncingDirectory { file, sync_on_or_after }),
            Checkpoint::Stopped => step@ is Stopped,
            Checkpoint::Failed => step@ is Failed,
        },
{
}

/// A file that is received is dealt with if the log is open; otherwise the thread
/// stops, as it does if no file can come any more.
pub proof fn law_files_are_dealt_with_while_the_log_is_open<F>(file: F)
    ensures
        CheckpointState::Receiving.after(CheckpointEvent::Received { file }) == (
        CheckpointState::Resuming { file }),
        (CheckpointState::Resuming { file }).after(CheckpointEvent::LogOpen) == (
        CheckpointState::Inspecting { file }),
        (CheckpointState::Resuming { file }).after(CheckpointEvent::LogClosed) is Stopped,
        CheckpointState::<F>::Receiving.after(CheckpointEvent::Disconnected) is Stopped,
{
}

/// A file that has not reached the disk as a whole is synchronized up to its end,
/// whatever its writer says otherwise, and then inspected again.
pub proof fn law_files_are_synchronized_to_their_end<F>(file: F, status: WriterStatus)
    requires
        !status.is_synchronized,
    ensures
        ({
            let next = (CheckpointState::Inspecting { file }).after(
                CheckpointEvent::Inspected(status),
            );
            &&& next == (CheckpointState::Synchronizing { file, target: status.position })
            &&& next.after(CheckpointEvent::Synchronized) == (CheckpointState::Inspecting { file })
        }),
{
}

/// A file that has reached the disk is checkpointed up to its last entry, if it
/// has one. After that, or at once if it has none, it is reverted to its start,
/// then renamed to its name with `-cp` behind it, and then the directory is to be
/// synchronized as of after the renaming.
pub proof fn law_files_are_checkpointed_emptied_and_renamed<F>(
    file: F,
    status: WriterStatus,
    now: Timestamp,
)
    requires
        status.is_synchronized,
    ensures
        ({
            let inspected = (CheckpointState::Inspecting { file }).after(
                CheckpointEvent::Inspected(status),
            );
            let checkpointed = inspected.after(CheckpointEvent::Checkpointed);
            let reverted = checkpointed.after(CheckpointEvent::Reverted);
            let new_name = status.file_name@ + seq!['-', 'c', 'p'];
            &&& status.last_entry_id is Some ==> inspected == (CheckpointState::Checkpointing {
                file,
                entry_id: status.last_entry_id->0,
                file_name: status.file_name@,
            })
            &&& status.last_entry_id is None ==> inspected == (CheckpointState::Reverting {
                file,
                position: 0,
                new_name,
            })
            &&& checkpointed == (CheckpointState::Reverting { file, position: 0, new_name })
            &&& reverted == (CheckpointState::Renaming { file, new_name })
            &&& reverted.after(CheckpointEvent::Renamed { now }) == (
            CheckpointState::SyncingDirectory { file, sync_on_or_after: now })
        }),
{
}

/// A step is left by the answer to it alone, or by its failure; once the thread
/// is to end, it is not left at all.
pub proof fn law_steps_are_left_by_their_answers_alone<F>(
    step: CheckpointState<F>,
    event: CheckpointEvent<F>,
)
    requires
        step.after(event) != step,
    ensures
        !(step is Stopped),
        !(step is Failed),
        !(step is SyncingDirectory) || event is Failed,
        event is Failed <==> step.after(event) is Failed,
        event is Received ==> step is Receiving,
        event is Disconnected ==> step is Receiving,
        event is LogOpen ==> step is Resuming,
        event is LogClosed ==> step is Resuming,
        event is Inspected ==> step is Inspecting,
        event is Synchronized ==> step is Synchronizing,
        event is Checkpointed ==> step is Checkpointing,
        event is Reverted ==> step is Reverting,
        event is Renamed ==> step is Renaming,
{
}

/// A failed step ends the thread with an error, unless the thread is to end
/// without one anyway.
pub proof fn law_each_step_can_fail<F>(step: CheckpointState<F>)
    ensures
        step is Stopped ==> step.after(CheckpointEvent::Failed) is Stopped,
        !(step is Stopped) ==> step.after(CheckpointEvent::Failed) is Failed,
{
}

/// Once the directory is synchronized, and not before, the next file is waited
/// for.
pub proof fn law_the_next_file_follows_the_directory<F>(step: CheckpointState<F>)
    ensures
        step is SyncingDirectory ==> step.finished() is Receiving,
        !(step is SyncingDirectory) ==> step.finished() == step,
{
}

/// Whenever a received file is to be reverted, it is to its very start, and its
/// new name is one it had with `-cp` behind it. It is renamed only after it was
/// reverted so, to the name that was chosen then.
pub proof fn law_files_are_emptied_wholly<F>(file: F, events: Seq<CheckpointEvent<F>>)
    ensures
        step_after(file, events) is Reverting ==> {
            &&& step_after(file, events)->position == 0
            &&& exists|i: int|
                0 <= i < events.len() && (#[trigger] events[i]) is Inspected
                    && step_after(file, events)->Reverting_new_name
                    == events[i]->Inspected_0.file_name@ + seq!['-', 'c', 'p']
        },
        step_after(file, events) is Renaming ==> exists|k: int|
            0 <= k < events.len() && (#[trigger] events[k]) is Reverted && step_after(
                file,
                events.subrange(0, k),
            ) == (CheckpointState::Reverting {
                file,
                position: 0,
                new_name: step_after(file, events)->Renaming_new_name,
            }),
{
    if step_after(file, events) is Reverting {
        let i = lemma_before_reverting(file, events);
        assert(events[i] is Inspected);
    }
    if step_after(file, events) is Renaming {
        let (i, k) = lemma_before_renaming(file, events);
        assert(events[k] is Reverted);
        assert(step_at(file, events, k) == step_after(file, events.subrange(0, k)));
    }
}

/// At every moment of the thread, a file that is to be reverted is to be reverted
/// to its very start.
pub proof fn law_files_are_always_emptied_wholly<F>(changes: Seq<CheckpointChange<F>>)
    ensures
        ({
            let step = CheckpointHistory::<F>::started().after_all(changes).step;
            step is Reverting ==> step->position == 0
        }),
    decreases changes.len(),
{
    if changes.len() > 0 {
        law_files_are_always_emptied_wholly(changes.drop_last());
    }
}

proof fn lemma_requests_are_those_with_entries<F>(found: Seq<(F, Option<EntryId>)>)
    ensures
        requests_for(found) == found.filter(
            |each: (F, Option<EntryId>)| each.1 is Some,
        ).map_values(|each: (F, Option<EntryId>)| (each.0, each.1->0)),
    decreases found.len(),
{
    reveal(Seq::filter);
    let has_entry = |each: (F, Option<EntryId>)| each.1 is Some;
    let request = |each: (F, Option<EntryId>)| (each.0, each.1->0);
    if found.len() > 0 {
        let before = found.drop_last();
        lemma_requests_are_those_with_entries(before);
        if found.last().1 is Some {
            assert(found.filter(has_entry) =~= before.filter(has_entry).push(found.last()));
        }
    }
    assert(requests_for(found) =~= found.filter(has_entry).map_values(request));
}

/// At every moment of the thread, the files that were received are those that can
/// be reused, in the same order, and the one that is being dealt with, if any. Of
/// those that were found synchronized, which are the first ones received, the
/// manager was asked to checkpoint exactly those with entries, in their order, up
/// to their last entries.
pub proof fn law_received_files_are_reused_in_order<F>(changes: Seq<CheckpointChange<F>>)
    ensures
        ({
            let history = CheckpointHistory::<F>::started().after_all(changes);
            &&& history.step is Receiving ==> history.recycled == history.received
            &&& !(history.step is Receiving) ==> history.recycled == history.received
                || history.recycled == history.received.drop_last() && history.received.len() > 0
            &&& history.found.map_values(|each: (F, Option<EntryId>)| each.0)
                == history.received.subrange(0, history.found.len() as int)
            &&& history.found.len() >= history.recycled.len()
            &&& history.requested == history.found.filter(
                |each: (F, Option<EntryId>)| each.1 is Some,
            ).map_values(|each: (F, Option<EntryId>)| (each.0, each.1->0))
        }),
{
    let history = CheckpointHistory::<F>::started().after_all(changes);
    law_files_are_dealt_with_in_order(changes);
    lemma_requests_are_those_with_entries(history.found);
    if history.recycled.len() == history.received.len() {
        assert(history.recycled =~= history.received);
    } else {
        assert(history.recycled =~= history.received.drop_last());
    }
    assert(history.found.map_values(|each: (F, Option<EntryId>)| each.0)
        =~= history.received.subrange(0, history.found.len() as int));
}

} // verus!
