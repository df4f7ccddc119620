//! Opening a log: bringing back what is stored in its segment files.
use vstd::prelude::*;

use crate::discovery::{discover_segments, DiscoveredFile};
use crate::entry::EntryId;
use crate::files::{Activation, Files};
use crate::wal::{Configuration, WriteAheadLog};

verus! {

/// What the log's manager decides about a segment.
#[derive(Clone, Copy, Debug, PartialEq, Eq, Structural)]
pub enum Recovery {
    /// Its entries are to be recovered.
    Recover,
    /// Its entries are to be ignored.
    Abandon,
}

/// What is to be done next in recovering a log. All of it concerns the segment
/// file that [`LogRecovery::current`] names.
#[derive(Clone, Copy, Debug, PartialEq, Eq, Structural)]
pub enum RecoveryStage {
    /// Open the file for writing, with no entries. It has been checkpointed.
    OpenCheckpointed,
    /// Open the file for reading and let the manager decide about it.
    Examine,
    /// Read the next entry.
    ReadEntry,
    /// Let the manager recover the entry.
    RecoverEntry { entry_id: EntryId },
    /// Look for a chunk of the entry that the manager has not read.
    ReadChunk { entry_id: EntryId },
    /// Skip what is left of the chunk.
    SkipChunk { entry_id: EntryId },
    /// Open the file for writing behind the last valid entry.
    OpenRecovered { valid_until: u64, last_entry_id: Option<EntryId> },
    /// Open the file for writing, with no entries. It has been abandoned.
    OpenAbandoned,
    /// Nothing is left to do.
    Complete,
}

/// How to open a segment file for writing.
#[derive(Clone, Copy, Debug, PartialEq, Eq, Structural)]
pub struct Opening {
    /// The id in the file's name.
    pub entry_id: u64,
    /// Where the next entry is written. What the file holds from there on is
    /// void.
    pub position: u64,
    /// The id of the last entry before that position.
    pub last_entry_id: Option<EntryId>,
}

/// What the step that was to be done has led to.
#[derive(Debug)]
pub enum RecoveryEvent<F> {
    /// The file was opened for writing.
    Opened(F),
    /// The manager has decided.
    Examined(Recovery),
    /// An entry was found.
    EntryRead(EntryId),
    /// There are no more entries. The file is valid up to `valid_until`.
    SegmentRead { valid_until: u64, last_entry_id: Option<EntryId> },
    /// The manager has recovered the entry.
    EntryRecovered,
    /// A chunk was found.
    ChunkFound,
    /// The chunk was skipped.
    ChunkSkipped,
    /// The entry has no more chunks.
    EndOfEntry,
    /// The entry was never completed.
    AbortedEntry,
}

/// What became of a segment file.
pub enum SegmentOutcome<F> {
    /// It had been checkpointed.
    Checkpointed { file: F },
    /// The entries `entries` were recovered from it.
    Recovered { file: F, entries: Seq<EntryId> },
    /// It was abandoned.
    Abandoned { file: F },
}

impl<F> SegmentOutcome<F> {
    /// The file, open for writing.
    pub open spec fn file(self) -> F {
        match self {
            SegmentOutcome::Checkpointed { file } => file,
            SegmentOutcome::Recovered { file, .. } => file,
            SegmentOutcome::Abandoned { file } => file,
        }
    }

    /// The ids of the entries that were recovered.
    pub open spec fn entries(self) -> Seq<EntryId> {
        match self {
            SegmentOutcome::Recovered { entries, .. } => entries,
            _ => Seq::empty(),
        }
    }
}

/// The files that entries were recovered from, in their order.
pub open spec fn recovered_in<F>(outcomes: Seq<SegmentOutcome<F>>) -> Seq<F> {
    outcomes.filter(|outcome: SegmentOutcome<F>| outcome is Recovered).map_values(
        |outcome: SegmentOutcome<F>| outcome.file(),
    )
}

/// The files that can be reused, in their order: all the others.
pub open spec fn reusable_in<F>(outcomes: Seq<SegmentOutcome<F>>) -> Seq<F> {
    outcomes.filter(|outcome: SegmentOutcome<F>| !(outcome is Recovered)).map_values(
        |outcome: SegmentOutcome<F>| outcome.file(),
    )
}

/// The ids of all entries that were recovered, in the order of their recovery.
pub open spec fn entries_in<F>(outcomes: Seq<SegmentOutcome<F>>) -> Seq<EntryId>
    decreases outcomes.len(),
{
    if outcomes.len() == 0 {
        Seq::empty()
    } else {
        entries_in(outcomes.drop_last()) + outcomes.last().entries()
    }
}

/// The id of the newest of `entries`; 0 if there is none.
pub open spec fn newest_of(entries: Seq<EntryId>) -> EntryId {
    if entries.len() == 0 {
        EntryId(0)
    } else {
        entries.last()
    }
}

/// The segment files of a log whose recovery had the given outcomes, before one
/// of them becomes active.
pub open spec fn files_after<F>(
    outcomes: Seq<SegmentOutcome<F>>,
    entries: Seq<EntryId>,
) -> crate::files::FilesState<F> {
    crate::files::FilesState {
        inactive: reusable_in(outcomes),
        last_entry_id: newest_of(entries),
        ..crate::files::FilesState::empty()
    }
}

/// The state of [`LogRecovery`].
#[verifier::ext_equal]
pub struct RecoveryState<F> {
    /// The segment files of the log, in the order in which they are recovered.
    pub discovered: Seq<DiscoveredFile>,
    /// What became of those that have been dealt with.
    pub outcomes: Seq<SegmentOutcome<F>>,
    /// What is to be done next.
    pub stage: RecoveryStage,
    /// The entries that have been recovered from the current file.
    pub entries: Seq<EntryId>,
}

impl<F> RecoveryState<F> {
    /// The first stage of file `n` of `discovered`.
    pub open spec fn first_stage(discovered: Seq<DiscoveredFile>, n: int) -> RecoveryStage {
        if n >= discovered.len() {
            RecoveryStage::Complete
        } else if discovered[n].has_checkpointed {
            RecoveryStage::OpenCheckpointed
        } else {
            RecoveryStage::Examine
        }
    }

    /// The state in which no file has been dealt with.
    pub open spec fn begun(discovered: Seq<DiscoveredFile>) -> RecoveryState<F> {
        RecoveryState {
            discovered,
            outcomes: Seq::empty(),
            stage: Self::first_stage(discovered, 0),
            entries: Seq::empty(),
        }
    }

    /// The state once `outcome` is that of the current file.
    pub open spec fn with_outcome(self, outcome: SegmentOutcome<F>) -> RecoveryState<F> {
        RecoveryState {
            discovered: self.discovered,
            outcomes: self.outcomes.push(outcome),
            stage: Self::first_stage(self.discovered, self.outcomes.len() as int + 1),
            entries: Seq::empty(),
        }
    }

    /// The state in which `stage` comes next.
    pub open spec fn with_stage(self, stage: RecoveryStage) -> RecoveryState<F> {
        RecoveryState { stage, ..self }
    }

    /// The state after `event`. An event that does not answer the current stage
    /// changes nothing.
    pub open spec fn after(self, event: RecoveryEvent<F>) -> RecoveryState<F> {
        match (self.stage, event) {
            (RecoveryStage::OpenCheckpointed, RecoveryEvent::Opened(file)) => self.with_outcome(
                SegmentOutcome::Checkpointed { file },
            ),
            (RecoveryStage::Examine, RecoveryEvent::Examined(Recovery::Recover)) => self.with_stage(
                RecoveryStage::ReadEntry,
            ),
            (RecoveryStage::Examine, RecoveryEvent::Examined(Recovery::Abandon)) => self.with_stage(
                RecoveryStage::OpenAbandoned,
            ),
            (RecoveryStage::OpenAbandoned, RecoveryEvent::Opened(file)) => self.with_outcome(
                SegmentOutcome::Abandoned { file },
            ),
            (RecoveryStage::ReadEntry, RecoveryEvent::EntryRead(entry_id)) => self.with_stage(
                RecoveryStage::RecoverEntry { entry_id },
            ),
            (
                RecoveryStage::ReadEntry,
                RecoveryEvent::SegmentRead { valid_until, last_entry_id },
            ) => self.with_stage(RecoveryStage::OpenRecovered { valid_until, last_entry_id }),
            (RecoveryStage::RecoverEntry { entry_id }, RecoveryEvent::EntryRecovered) =>
                self.with_stage(RecoveryStage::ReadChunk { entry_id }),
            (RecoveryStage::ReadChunk { entry_id }, RecoveryEvent::ChunkFound) => self.with_stage(
                RecoveryStage::SkipChunk { entry_id },
            ),
            (RecoveryStage::SkipChunk { entry_id }, RecoveryEvent::ChunkSkipped) => self.with_stage(
                RecoveryStage::ReadChunk { entry_id },
            ),
            (RecoveryStage::ReadChunk { entry_id }, RecoveryEvent::EndOfEntry) => RecoveryState {
                stage: RecoveryStage::ReadEntry,
                entries: self.entries.push(entry_id),
                ..self
            },
            (RecoveryStage::ReadChunk { entry_id }, RecoveryEvent::AbortedEntry) => RecoveryState {
                stage: RecoveryStage::ReadEntry,
                entries: self.entries.push(entry_id),
                ..self
            },
            (RecoveryStage::OpenRecovered { .. }, RecoveryEvent::Opened(file)) => self.with_outcome(
                SegmentOutcome::Recovered { file, entries: self.entries },
            ),
            _ => self,
        }
    }

    /// How the current file is to be opened for writing, if that comes next:
    /// behind what was recovered from it; from the start if nothing was.
    pub open spec fn opening(self) -> Option<Opening> {
        let entry_id = self.discovered[self.outcomes.len() as int].entry_id;
        match self.stage {
            RecoveryStage::OpenCheckpointed => Some(
                Opening { entry_id, position: 0, last_entry_id: None },
            ),
            RecoveryStage::OpenAbandoned => Some(
                Opening { entry_id, position: 0, last_entry_id: None },
            ),
            RecoveryStage::OpenRecovered { valid_until, last_entry_id } => Some(
                Opening { entry_id, position: valid_until, last_entry_id },
            ),
            _ => None,
        }
    }

    /// What holds of every state that a recovery comes to: the files are dealt
    /// with in order; exactly those whose name says so have been checkpointed;
    /// and the recovery is complete exactly if every file has been dealt with.
    pub open spec fn is_consistent(self) -> bool {
        &&& self.outcomes.len() <= self.discovered.len()
        &&& forall|i: int|
            0 <= i < self.outcomes.len() ==> ((#[trigger] self.outcomes[i]) is Checkpointed
                <==> self.discovered[i].has_checkpointed)
        &&& self.stage is Complete <==> self.outcomes.len() == self.discovered.len()
        &&& self.stage is OpenCheckpointed <==> self.outcomes.len() < self.discovered.len()
            && self.discovered[self.outcomes.len() as int].has_checkpointed
        &&& match self.stage {
            RecoveryStage::OpenCheckpointed => self.entries.len() == 0,
            RecoveryStage::Examine => self.entries.len() == 0,
            RecoveryStage::OpenAbandoned => self.entries.len() == 0,
            RecoveryStage::Complete => self.entries.len() == 0,
            _ => true,
        }
    }
}

proof fn lemma_outcome_added<F>(outcomes: Seq<SegmentOutcome<F>>, outcome: SegmentOutcome<F>)
    ensures
        recovered_in(outcomes.push(outcome)) == if outcome is Recovered {
            recovered_in(outcomes).push(outcome.file())
        } else {
            recovered_in(outcomes)
        },
        reusable_in(outcomes.push(outcome)) == if outcome is Recovered {
            reusable_in(outcomes)
        } else {
            reusable_in(outcomes).push(outcome.file())
        },
        entries_in(outcomes.push(outcome)) == entries_in(outcomes) + outcome.entries(),
{
    reveal(Seq::filter);
    let all = outcomes.push(outcome);
    assert(all.drop_last() =~= outcomes);
    if outcome is Recovered {
        assert(recovered_in(all) =~= recovered_in(outcomes).push(outcome.file()));
    } else {
        assert(reusable_in(all) =~= reusable_in(outcomes).push(outcome.file()));
    }
}

proof fn lemma_nothing_recovered<F>(outcomes: Seq<SegmentOutcome<F>>)
    requires
        recovered_in(outcomes).len() == 0,
    ensures
        entries_in(outcomes) == Seq::<EntryId>::empty(),
    decreases outcomes.len(),
{
    if outcomes.len() > 0 {
        let before = outcomes.drop_last();
        assert(outcomes =~= before.push(outcomes.last()));
        lemma_outcome_added(before, outcomes.last());
        lemma_nothing_recovered(before);
    }
}

/// A log that is being opened.
pub struct LogRecovery<F> {
    discovered: Vec<DiscoveredFile>,
    next: usize,
    stage: RecoveryStage,
    files: Files<F>,
    files_to_checkpoint: Vec<F>,
    outcomes: Ghost<Seq<SegmentOutcome<F>>>,
    entries: Ghost<Seq<EntryId>>,
}

/// A log that has been opened.
#[derive(Debug)]
pub struct RecoveredLog<F, T> {
    /// The log.
    pub log: WriteAheadLog<F, T>,
    /// How to obtain the active file, if no file with entries was found.
    pub activation: Option<Activation<F>>,
    /// The files to send to the checkpointer, in this order.
    pub files_to_checkpoint: Vec<F>,
}

impl<F> View for LogRecovery<F> {
    type V = RecoveryState<F>;

    closed spec fn view(&self) -> RecoveryState<F> {
        RecoveryState {
            discovered: self.discovered@,
            outcomes: self.outcomes@,
            stage: self.stage,
            entries: self.entries@,
        }
    }
}

impl<F> LogRecovery<F> {
    #[verifier::type_invariant]
    spec fn reflects_outcomes(self) -> bool {
        &&& self@.is_consistent()
        &&& self.next == self.outcomes@.len()
        &&& self.files_to_checkpoint@ == recovered_in(self.outcomes@)
        &&& self.files@ == files_after(
            self.outcomes@,
            entries_in(self.outcomes@) + self.entries@,
        )
    }

    /// The first stage of file `n` of `discovered`.
    fn first_stage_of(discovered: &Vec<DiscoveredFile>, n: usize) -> (stage: RecoveryStage)
        ensures
            stage == RecoveryState::<F>::first_stage(discovered@, n as int),
    {
        if n >= discovered.len() {
            RecoveryStage::Complete
        } else if discovered[n].has_checkpointed {
            RecoveryStage::OpenCheckpointed
        } else {
            RecoveryStage::Examine
        }
    }

    /// Begins to recover the log whose directory holds the files called `names`.
    pub fn begin(names: &Vec<String>) -> (recovery: LogRecovery<F>)
        ensures
            crate::discovery::is_stable_sort_of(
                recovery@.discovered,
                crate::discovery::segments_among(names@),
            ),
            recovery@ == RecoveryState::<F>::begun(recovery@.discovered),
            recovery@.is_consistent(),
            recovery@.outcomes.len() == 0,
            recovery@.entries.len() == 0,
            recovery@.stage is Complete <==> recovery@.discovered.len() == 0,
            recovery@.discovered.len() > 0 ==> recovery@.stage
                == if recovery@.discovered[0].has_checkpointed {
                RecoveryStage::OpenCheckpointed
            } else {
                RecoveryStage::Examine
            },
    {
        let discovered: Vec<DiscoveredFile> = discover_segments(names);
        let stage: RecoveryStage = Self::first_stage_of(&discovered, 0);
        proof {
            reveal(Seq::filter);
            assert(recovered_in(Seq::<SegmentOutcome<F>>::empty()) =~= Seq::<F>::empty());
            assert(reusable_in(Seq::<SegmentOutcome<F>>::empty()) =~= Seq::<F>::empty());
        }
        LogRecovery {
            discovered,
            next: 0,
            stage,
            files: Files::default(),
            files_to_checkpoint: Vec::new(),
            outcomes: Ghost(Seq::empty()),
            entries: Ghost(Seq::empty()),
        }
    }

    /// What is to be done next.
    pub fn stage(&self) -> (stage: RecoveryStage)
        ensures
            stage == self@.stage,
    {
        self.stage
    }

    /// The file that it is to be done to; none if the recovery is complete.
    pub fn current(&self) -> (file: Option<&DiscoveredFile>)
        ensures
            file is None <==> self@.stage is Complete,
            file is Some ==> self@.outcomes.len() < self@.discovered.len() && *file->0
                == self@.discovered[self@.outcomes.len() as int],
    {
        proof {
            use_type_invariant(self);
        }
        if self.next < self.discovered.len() {
            Some(&self.discovered[self.next])
        } else {
            None
        }
    }

    /// How the current file is to be opened for writing, if that comes next.
    pub fn opening(&self) -> (opening: Option<Opening>)
        ensures
            opening == self@.opening(),
            opening is Some <==> self@.stage is OpenCheckpointed || self@.stage is OpenAbandoned
                || self@.stage is OpenRecovered,
            opening is Some ==> opening->0.entry_id
                == self@.discovered[self@.outcomes.len() as int].entry_id,
            self@.stage is OpenCheckpointed || self@.stage is OpenAbandoned ==> {
                &&& opening->0.position == 0
                &&& opening->0.last_entry_id is None
            },
            self@.stage is OpenRecovered ==> {
                &&& opening->0.position == self@.stage->valid_until
                &&& opening->0.last_entry_id == self@.stage->last_entry_id
            },
    {
        proof {
            use_type_invariant(self);
        }
        match self.stage {
            RecoveryStage::OpenCheckpointed | RecoveryStage::OpenAbandoned => {
                let entry_id: u64 = self.discovered[self.next].entry_id;
                Some(Opening { entry_id, position: 0, last_entry_id: None })
            },
            RecoveryStage::OpenRecovered { valid_until, last_entry_id } => {
                let entry_id: u64 = self.discovered[self.next].entry_id;
                Some(Opening { entry_id, position: valid_until, last_entry_id })
            },
            _ => None,
        }
    }

    /// Goes on to the stage after `event`.
    pub fn resume(self, event: RecoveryEvent<F>) -> (recovery: LogRecovery<F>)
        ensures
            recovery@ == self@.after(event),
            recovery@.is_consistent(),
            recovery@.discovered == self@.discovered,
            self@.stage is ReadEntry && event is EntryRead ==> recovery@.stage == (
            RecoveryStage::RecoverEntry { entry_id: event->EntryRead_0 }),
            recovery@.entries.len() > self@.entries.len() ==> {
                &&& self@.stage is ReadChunk
                &&& recovery@.entries == self@.entries + seq![self@.stage->ReadChunk_entry_id]
            },
            recovery@.stage is ReadChunk && !(self@.stage is ReadChunk) && !(
            self@.stage is SkipChunk) ==> {
                &&& event is EntryRecovered
                &&& self@.stage == (RecoveryStage::RecoverEntry {
                    entry_id: recovery@.stage->ReadChunk_entry_id,
                })
            },
    {
        proof {
            use_type_invariant(&self);
        }
        let mut next: usize = self.next;
        let mut stage: RecoveryStage = self.stage;
        let mut files: Files<F> = self.files;
        let mut files_to_checkpoint: Vec<F> = self.files_to_checkpoint;
        let discovered: Vec<DiscoveredFile> = self.discovered;
        let ghost mut outcomes: Seq<SegmentOutcome<F>> = self.outcomes@;
        let ghost mut entries: Seq<EntryId> = self.entries@;
        assert(stage is Complete || next < discovered.len());
        match (stage, event) {
            (RecoveryStage::OpenCheckpointed, RecoveryEvent::Opened(file)) => {
                proof {
                    let outcome = SegmentOutcome::Checkpointed { file };
                    lemma_outcome_added(outcomes, outcome);
                    outcomes = outcomes.push(outcome);
                }
                files.recycle(file);
                next = next + 1;
                stage = Self::first_stage_of(&discovered, next);
            },
            (RecoveryStage::Examine, RecoveryEvent::Examined(decision)) => {
                stage = match decision {
                    Recovery::Recover => RecoveryStage::ReadEntry,
                    Recovery::Abandon => RecoveryStage::OpenAbandoned,
                };
            },
            (RecoveryStage::OpenAbandoned, RecoveryEvent::Opened(file)) => {
                proof {
                    let outcome = SegmentOutcome::Abandoned { file };
                    lemma_outcome_added(outcomes, outcome);
                    outcomes = outcomes.push(outcome);
                }
                files.recycle(file);
                next = next + 1;
                stage = Self::first_stage_of(&discovered, next);
            },
            (RecoveryStage::ReadEntry, RecoveryEvent::EntryRead(entry_id)) => {
                stage = RecoveryStage::RecoverEntry { entry_id };
            },
            (
                RecoveryStage::ReadEntry,
                RecoveryEvent::SegmentRead { valid_until, last_entry_id },
            ) => {
                stage = RecoveryStage::OpenRecovered { valid_until, last_entry_id };
            },
            (RecoveryStage::RecoverEntry { entry_id }, RecoveryEvent::EntryRecovered) => {
                stage = RecoveryStage::ReadChunk { entry_id };
            },
            (RecoveryStage::ReadChunk { entry_id }, RecoveryEvent::ChunkFound) => {
                stage = RecoveryStage::SkipChunk { entry_id };
            },
            (RecoveryStage::SkipChunk { entry_id }, RecoveryEvent::ChunkSkipped) => {
                stage = RecoveryStage::ReadChunk { entry_id };
            },
            (
                RecoveryStage::ReadChunk { entry_id },
                RecoveryEvent::EndOfEntry | RecoveryEvent::AbortedEntry,
            ) => {
                proof {
                    entries = entries.push(entry_id);
                    assert((entries_in(outcomes) + entries).last() == entry_id);
                }
                files.last_entry_id = entry_id;
                stage = RecoveryStage::ReadEntry;
            },
            (RecoveryStage::OpenRecovered { .. }, RecoveryEvent::Opened(file)) => {
                proof {
                    let outcome = SegmentOutcome::Recovered { file, entries };
                    lemma_outcome_added(outcomes, outcome);
                    outcomes = outcomes.push(outcome);
                    assert(entries_in(outcomes) + Seq::<EntryId>::empty() =~= entries_in(outcomes));
                    entries = Seq::empty();
                }
                files_to_checkpoint.push(file);
                next = next + 1;
                stage = Self::first_stage_of(&discovered, next);
            },
            _ => {},
        }
        LogRecovery {
            discovered,
            next,
            stage,
            files,
            files_to_checkpoint,
            outcomes: Ghost(outcomes),
            entries: Ghost(entries),
        }
    }

    /// Ends a complete recovery.
    ///
    /// The last file that entries were recovered from becomes the active one,
    /// and the others are checkpointed, the last of them first. If there is no
    /// such file, an active one has to be put in place.
    pub fn finish<T>(self, config: Configuration) -> (recovered: RecoveredLog<F, T>)
        requires
            self@.stage is Complete,
        ensures
            self@.is_consistent(),
            recovered.log.config == config,
            recovered.log.checkpoint_thread == None::<T>,
            recovered_in(self@.outcomes).len() > 0 ==> {
                &&& recovered.log.files@ == files_after(
                    self@.outcomes,
                    entries_in(self@.outcomes),
                ).with_active(recovered_in(self@.outcomes).last())
                &&& recovered.activation is None
                &&& recovered.files_to_checkpoint@ == recovered_in(
                    self@.outcomes,
                ).drop_last().reverse()
            },
            recovered_in(self@.outcomes).len() == 0 ==> {
                &&& recovered.log.files@ == files_after(
                    self@.outcomes,
                    Seq::empty(),
                ).with_activation_begun()
                &&& recovered.activation is Some
                &&& recovered.activation->0.is_next_in(files_after(self@.outcomes, Seq::empty()))
                &&& recovered.files_to_checkpoint@ == Seq::<F>::empty()
            },
            ({
                let continued = self@.outcomes.filter(
                    |outcome: SegmentOutcome<F>| outcome is Recovered,
                ).map_values(|outcome: SegmentOutcome<F>| outcome->Recovered_file);
                &&& recovered.activation is None <==> continued.len() > 0
                &&& recovered.log.files.active is Some <==> continued.len() > 0
                &&& continued.len() > 0 ==> {
                    &&& recovered.log.files.active == Some(continued.last())
                    &&& recovered.files_to_checkpoint@.reverse() == continued.drop_last()
                    &&& recovered.log.files.inactive@ == reusable_in(self@.outcomes)
                }
                &&& continued.len() == 0 ==> {
                    &&& recovered.files_to_checkpoint@.len() == 0
                    &&& recovered.activation->0 is Reuse <==> reusable_in(self@.outcomes).len() > 0
                    &&& recovered.activation->0 is Reuse ==> reusable_in(self@.outcomes) == seq![
                        recovered.activation->0->file,
                    ] + recovered.log.files.inactive@
                }
            }),
            recovered.log.files.last_entry_id.0 == if entries_in(self@.outcomes).len() > 0 {
                entries_in(self@.outcomes).last().0
            } else {
                0
            },
            recovered.log.files.directory_synced_at is None,
            !recovered.log.files.directory_is_syncing,
    {
        proof {
            use_type_invariant(&self);
            assert(entries_in(self.outcomes@) + self.entries@ =~= entries_in(self.outcomes@));
            if recovered_in(self.outcomes@).len() == 0 {
                lemma_nothing_recovered(self.outcomes@);
            }
            let is_recovered = |outcome: SegmentOutcome<F>| outcome is Recovered;
            assert(recovered_in(self.outcomes@) =~= self.outcomes@.filter(is_recovered).map_values(
                |outcome: SegmentOutcome<F>| outcome->Recovered_file,
            )) by {
                broadcast use vstd::seq_lib::group_filter_ensures;

            }
        }
        let ghost recovered = self.files_to_checkpoint@;
        let mut files: Files<F> = self.files;
        let mut files_to_checkpoint: Vec<F> = self.files_to_checkpoint;
        let activation: Option<Activation<F>> = match files_to_checkpoint.pop() {
            Some(latest_file) => {
                files.set_active(latest_file);
                None
            },
            None => Some(files.activate_new_file()),
        };
        let ghost others = files_to_checkpoint@;
        let mut reversed: Vec<F> = Vec::new();
        loop
            invariant
                files_to_checkpoint@.len() + reversed@.len() == others.len(),
                files_to_checkpoint@ == others.subrange(0, files_to_checkpoint@.len() as int),
                reversed@ == others.subrange(
                    files_to_checkpoint@.len() as int,
                    others.len() as int,
                ).reverse(),
            ensures
                files_to_checkpoint@.len() == 0,
            decreases files_to_checkpoint@.len(),
        {
            match files_to_checkpoint.pop() {
                Some(file) => {
                    reversed.push(file);
                    proof {
                        assert(reversed@ =~= others.subrange(
                            files_to_checkpoint@.len() as int,
                            others.len() as int,
                        ).reverse());
                    }
                },
                None => {
                    break;
                },
            }
        }
        proof {
            assert(reversed@ =~= others.reverse());
            if recovered.len() > 0 {
                assert(others =~= recovered.drop_last());
            }
            assert(reversed@.reverse() =~= others);
        }
        RecoveredLog {
            log: WriteAheadLog::new(files, config),
            activation,
            files_to_checkpoint: reversed,
        }
    }
}

/// Every segment file that was dealt with is either to be checkpointed or to be
/// reused, and no other file is.
pub proof fn law_every_file_is_kept<F>(outcomes: Seq<SegmentOutcome<F>>)
    ensures
        recovered_in(outcomes).to_multiset().add(reusable_in(outcomes).to_multiset())
            == outcomes.map_values(|outcome: SegmentOutcome<F>| outcome.file()).to_multiset(),
    decreases outcomes.len(),
{
    broadcast use vstd::multiset::group_multiset_axioms;

    let file_of = |outcome: SegmentOutcome<F>| outcome.file();
    if outcomes.len() == 0 {
        reveal(Seq::filter);
        assert(recovered_in(outcomes) =~= Seq::<F>::empty());
        assert(reusable_in(outcomes) =~= Seq::<F>::empty());
        assert(outcomes.map_values(file_of) =~= Seq::<F>::empty());
        assert(Seq::<F>::empty().to_multiset().add(Seq::<F>::empty().to_multiset())
            =~= Seq::<F>::empty().to_multiset()) by {
            Seq::<F>::empty().to_multiset_ensures();
        }
    } else {
        let before = outcomes.drop_last();
        let last = outcomes.last();
        law_every_file_is_kept(before);
        assert(outcomes =~= before.push(last));
        lemma_outcome_added(before, last);
        assert(outcomes.map_values(file_of) =~= before.map_values(file_of).push(last.file()));
        recovered_in(before).to_multiset_ensures();
        reusable_in(before).to_multiset_ensures();
        before.map_values(file_of).to_multiset_ensures();
        assert(recovered_in(outcomes).to_multiset().add(reusable_in(outcomes).to_multiset())
            =~= outcomes.map_values(file_of).to_multiset());
    }
}

/// If the entries in the recovered segments have increasing ids, then the next
/// entry has a larger id than all of them.
pub proof fn law_new_entries_follow_recovered_ones<F>(outcomes: Seq<SegmentOutcome<F>>, i: int)
    requires
        forall|a: int, b: int|
            0 <= a < b < entries_in(outcomes).len() ==> (#[trigger] entries_in(outcomes)[a]).0 < (
            #[trigger] entries_in(outcomes)[b]).0,
        newest_of(entries_in(outcomes)).0 < u64::MAX,
        0 <= i < entries_in(outcomes).len(),
    ensures
        entries_in(outcomes)[i].0 < files_after(outcomes, entries_in(outcomes)).next_id(),
{
    let entries = entries_in(outcomes);
    if i < entries.len() - 1 {
        assert(entries[i].0 < entries[entries.len() - 1].0);
    }
}

/// A segment file that was in use under `name` and was given its checkpointed
/// name is not replayed when the log is opened again: it keeps its id, no entries
/// are recovered from it, and it can be reused.
pub proof fn law_checkpointed_segments_are_not_replayed<F>(
    state: RecoveryState<F>,
    i: int,
    name: Seq<char>,
)
    requires
        state.is_consistent(),
        0 <= i < state.outcomes.len(),
        crate::discovery::matches_its_name(state.discovered[i]),
        crate::names::segment_name_in(name) is Some,
        !crate::names::segment_name_in(name)->0.has_checkpointed,
        state.discovered[i].name@ == crate::names::checkpointed_file_name_of(name),
    ensures
        state.discovered[i].entry_id == crate::names::segment_name_in(name)->0.entry_id,
        state.outcomes[i] is Checkpointed,
        state.outcomes[i].entries() == Seq::<EntryId>::empty(),
        reusable_in(state.outcomes).contains(state.outcomes[i].file()),
{
    crate::names::law_checkpointed_name_reads_back(name);
    assert(state.outcomes[i] is Checkpointed <==> state.discovered[i].has_checkpointed);
    let reusable = |outcome: SegmentOutcome<F>| !(outcome is Recovered);
    let kept = state.outcomes.filter(reusable);
    state.outcomes.lemma_filter_contains(reusable, i);
    let k = choose|k: int| 0 <= k < kept.len() && kept[k] == state.outcomes[i];
    assert(reusable_in(state.outcomes)[k] == state.outcomes[i].file());
}

/// What comes first for a segment: one that has been checkpointed is opened to be
/// reused, any other one is examined. Where there is no segment left the recovery
/// is complete.
pub proof fn law_checkpointed_segments_are_not_examined<F>(discovered: Seq<DiscoveredFile>, n: int)
    requires
        0 <= n,
    ensures
        n >= discovered.len() <==> RecoveryState::<F>::first_stage(discovered, n) is Complete,
        n < discovered.len() && discovered[n].has_checkpointed <==> RecoveryState::<F>::first_stage(
            discovered,
            n,
        ) is OpenCheckpointed,
        n < discovered.len() && !discovered[n].has_checkpointed <==> RecoveryState::<
            F,
        >::first_stage(discovered, n) is Examine,
        RecoveryState::<F>::begun(discovered).discovered == discovered,
        RecoveryState::<F>::begun(discovered).outcomes.len() == 0,
        RecoveryState::<F>::begun(discovered).entries.len() == 0,
        RecoveryState::<F>::begun(discovered).stage == RecoveryState::<F>::first_stage(
            discovered,
            0,
        ),
{
}

/// The manager decides whether a segment is read or abandoned.
pub proof fn law_the_manager_decides_about_segments<F>(state: RecoveryState<F>)
    requires
        state.stage is Examine,
    ensures
        state.after(RecoveryEvent::Examined(Recovery::Recover)) == (RecoveryState {
            stage: RecoveryStage::ReadEntry,
            ..state
        }),
        state.after(RecoveryEvent::Examined(Recovery::Abandon)) == (RecoveryState {
            stage: RecoveryStage::OpenAbandoned,
            ..state
        }),
{
}

/// Every entry that is read is given to the manager to recover, whatever its id
/// and whatever was recovered before. What the manager leaves of it is skipped,
/// chunk by chunk, and once it has no more chunks, completed or not, it counts as
/// recovered and the next one is read.
pub proof fn law_every_entry_is_given_to_the_manager<F>(
    state: RecoveryState<F>,
    entry_id: EntryId,
)
    requires
        state.stage is ReadEntry,
    ensures
        ({
            let read = state.after(RecoveryEvent::EntryRead(entry_id));
            let recovered = read.after(RecoveryEvent::EntryRecovered);
            let found = recovered.after(RecoveryEvent::ChunkFound);
            let next = RecoveryState { entries: state.entries + seq![entry_id], ..state };
            &&& read == (RecoveryState { stage: RecoveryStage::RecoverEntry { entry_id }, ..state })
            &&& recovered == (RecoveryState {
                stage: RecoveryStage::ReadChunk { entry_id },
                ..state
            })
            &&& found == (RecoveryState { stage: RecoveryStage::SkipChunk { entry_id }, ..state })
            &&& found.after(RecoveryEvent::ChunkSkipped) == recovered
            &&& recovered.after(RecoveryEvent::EndOfEntry) == next
            &&& recovered.after(RecoveryEvent::AbortedEntry) == next
        }),
{
    let next = state.entries + seq![entry_id];
    assert(state.entries.push(entry_id) =~= next);
}

/// A segment that has been read is opened behind what is valid of it, with the
/// id of its last entry.
pub proof fn law_segments_are_continued_where_they_end<F>(
    state: RecoveryState<F>,
    valid_until: u64,
    last_entry_id: Option<EntryId>,
)
    requires
        state.stage is ReadEntry,
    ensures
        ({
            let next = state.after(RecoveryEvent::SegmentRead { valid_until, last_entry_id });
            &&& next == (RecoveryState {
                stage: RecoveryStage::OpenRecovered { valid_until, last_entry_id },
                ..state
            })
            &&& next.opening() == Some(
                Opening {
                    entry_id: state.discovered[state.outcomes.len() as int].entry_id,
                    position: valid_until,
                    last_entry_id,
                },
            )
        }),
{
}

/// Segments that have been checkpointed or abandoned are opened from the start,
/// with no entries. In no other stage but these, and that of a segment that has
/// been read, is a file to be opened for writing.
pub proof fn law_other_segments_are_opened_empty<F>(state: RecoveryState<F>)
    ensures
        state.stage is OpenCheckpointed || state.stage is OpenAbandoned ==> state.opening() == Some(
            Opening {
                entry_id: state.discovered[state.outcomes.len() as int].entry_id,
                position: 0,
                last_entry_id: None,
            },
        ),
        state.opening() is Some <==> state.stage is OpenCheckpointed || state.stage is OpenAbandoned
            || state.stage is OpenRecovered,
{
}

/// Once a file has been opened for writing, what became of its segment is known,
/// with the entries that were recovered from it, and the next segment follows.
pub proof fn law_opened_segments_are_dealt_with<F>(state: RecoveryState<F>, file: F)
    requires
        state.stage is OpenCheckpointed || state.stage is OpenAbandoned || state.stage
            is OpenRecovered,
    ensures
        ({
            let next = state.after(RecoveryEvent::Opened(file));
            &&& next.discovered == state.discovered
            &&& next.entries.len() == 0
            &&& next.stage == RecoveryState::<F>::first_stage(
                state.discovered,
                state.outcomes.len() as int + 1,
            )
            &&& state.stage is OpenCheckpointed ==> next.outcomes == state.outcomes + seq![
                SegmentOutcome::Checkpointed { file },
            ]
            &&& state.stage is OpenAbandoned ==> next.outcomes == state.outcomes + seq![
                SegmentOutcome::Abandoned { file },
            ]
            &&& state.stage is OpenRecovered ==> next.outcomes == state.outcomes + seq![
                SegmentOutcome::Recovered { file, entries: state.entries },
            ]
        }),
{
    let next = state.after(RecoveryEvent::Opened(file));
    assert(next.outcomes =~= state.outcomes + seq![next.outcomes.last()]);
}

/// A stage is left by an answer to it alone.
pub proof fn law_stages_are_left_by_their_answers_alone<F>(
    state: RecoveryState<F>,
    event: RecoveryEvent<F>,
)
    requires
        state.after(event) != state,
    ensures
        match state.stage {
            RecoveryStage::OpenCheckpointed => event is Opened,
            RecoveryStage::Examine => event is Examined,
            RecoveryStage::ReadEntry => event is EntryRead || event is SegmentRead,
            RecoveryStage::RecoverEntry { .. } => event is EntryRecovered,
            RecoveryStage::ReadChunk { .. } => event is ChunkFound || event is EndOfEntry || event
                is AbortedEntry,
            RecoveryStage::SkipChunk { .. } => event is ChunkSkipped,
            RecoveryStage::OpenRecovered { .. } => event is Opened,
            RecoveryStage::OpenAbandoned => event is Opened,
            RecoveryStage::Complete => false,
        },
{
}

/// A recovery, with the entries that went through it.
pub struct RecoveryHistory<F> {
    /// How far the recovery has come.
    pub state: RecoveryState<F>,
    /// The entries that were read from the segments.
    pub read: Seq<EntryId>,
    /// The entries that the manager was asked to recover.
    pub requested: Seq<EntryId>,
    /// The entries that the manager has recovered.
    pub recovered: Seq<EntryId>,
}

impl<F> RecoveryHistory<F> {
    /// The recovery of the segments `discovered`, before anything was done.
    pub open spec fn begun(discovered: Seq<DiscoveredFile>) -> RecoveryHistory<F> {
        RecoveryHistory {
            state: RecoveryState::begun(discovered),
            read: Seq::empty(),
            requested: Seq::empty(),
            recovered: Seq::empty(),
        }
    }

    /// The recovery after `event`.
    pub open spec fn after(self, event: RecoveryEvent<F>) -> RecoveryHistory<F> {
        let stage = self.state.stage;
        let next = self.state.after(event);
        RecoveryHistory {
            state: next,
            read: if stage is ReadEntry && event is EntryRead {
                self.read.push(event->EntryRead_0)
            } else {
                self.read
            },
            requested: if !(stage is RecoverEntry) && next.stage is RecoverEntry {
                self.requested.push(next.stage->RecoverEntry_entry_id)
            } else {
                self.requested
            },
            recovered: if stage is RecoverEntry && event is EntryRecovered {
                self.recovered.push(stage->RecoverEntry_entry_id)
            } else {
                self.recovered
            },
        }
    }

    /// The recovery after all of `events`.
    pub open spec fn after_all(self, events: Seq<RecoveryEvent<F>>) -> RecoveryHistory<F>
        decreases events.len(),
    {
        if events.len() == 0 {
            self
        } else {
            self.after_all(events.drop_last()).after(events.last())
        }
    }
}

/// At every moment of a recovery, the entries that the manager was asked to
/// recover are exactly those that were read, in the same order. An entry counts
/// as recovered only after the manager has recovered it: all that were read do,
/// but for the one that is being dealt with. Once the recovery is complete, every
/// entry that was read was recovered.
pub proof fn law_every_entry_read_is_recovered<F>(
    discovered: Seq<DiscoveredFile>,
    events: Seq<RecoveryEvent<F>>,
)
    ensures
        ({
            let history = RecoveryHistory::<F>::begun(discovered).after_all(events);
            let counted = entries_in(history.state.outcomes) + history.state.entries;
            &&& history.requested == history.read
            &&& match history.state.stage {
                RecoveryStage::RecoverEntry { entry_id } => history.requested
                    == history.recovered + seq![entry_id] && history.recovered == counted,
                RecoveryStage::ReadChunk { entry_id } => history.requested == history.recovered
                    && history.recovered == counted + seq![entry_id],
                RecoveryStage::SkipChunk { entry_id } => history.requested == history.recovered
                    && history.recovered == counted + seq![entry_id],
                _ => history.requested == history.recovered && history.recovered == counted,
            }
            &&& history.state.stage is Complete ==> entries_in(history.state.outcomes)
                == history.read
        }),
    decreases events.len(),
{
    let history = RecoveryHistory::<F>::begun(discovered).after_all(events);
    let counted = entries_in(history.state.outcomes) + history.state.entries;
    lemma_recovery_is_consistent(discovered, events);
    if events.len() == 0 {
        assert(counted =~= Seq::<EntryId>::empty());
    } else {
        law_every_entry_read_is_recovered(discovered, events.drop_last());
        lemma_recovery_is_consistent(discovered, events.drop_last());
        let before = RecoveryHistory::<F>::begun(discovered).after_all(events.drop_last());
        let before_counted = entries_in(before.state.outcomes) + before.state.entries;
        let stage = before.state.stage;
        if history.state.outcomes.len() > before.state.outcomes.len() {
            lemma_outcome_added(before.state.outcomes, history.state.outcomes.last());
            assert(counted =~= before_counted);
        } else if history.state.entries.len() > before.state.entries.len() {
            assert(counted =~= before_counted.push(stage->ReadChunk_entry_id));
            assert(before.recovered =~= counted);
        } else {
            assert(counted == before_counted);
        }
        match history.state.stage {
            RecoveryStage::RecoverEntry { entry_id } => {
                assert(history.requested =~= history.recovered + seq![entry_id]);
            },
            RecoveryStage::ReadChunk { entry_id } => {
                assert(history.recovered =~= counted + seq![entry_id]);
                assert(history.requested =~= history.recovered);
            },
            RecoveryStage::SkipChunk { entry_id } => {
                assert(history.recovered =~= counted + seq![entry_id]);
            },
            _ => {},
        }
    }
    if history.state.stage is Complete {
        assert(counted =~= entries_in(history.state.outcomes));
    }
}

proof fn lemma_recovery_is_consistent<F>(
    discovered: Seq<DiscoveredFile>,
    events: Seq<RecoveryEvent<F>>,
)
    ensures
        RecoveryHistory::<F>::begun(discovered).after_all(events).state.discovered == discovered,
        RecoveryHistory::<F>::begun(discovered).after_all(events).state.is_consistent(),
    decreases events.len(),
{
    if events.len() > 0 {
        lemma_recovery_is_consistent(discovered, events.drop_last());
    }
}

/// At every moment of a recovery, the first segments have been dealt with, each
/// once and in their order, and those that had been checkpointed are known as
/// such, and no others. The recovery is complete exactly once all have been dealt
/// with. Files are opened as checkpointed ones exactly if their names say so.
pub proof fn law_segments_are_dealt_with_in_order<F>(
    discovered: Seq<DiscoveredFile>,
    events: Seq<RecoveryEvent<F>>,
    i: int,
)
    ensures
        ({
            let state = RecoveryHistory::<F>::begun(discovered).after_all(events).state;
            &&& state.discovered == discovered
            &&& state.outcomes.len() <= discovered.len()
            &&& state.stage is Complete <==> state.outcomes.len() == discovered.len()
            &&& 0 <= i < state.outcomes.len() ==> (state.outcomes[i] is Checkpointed
                <==> discovered[i].has_checkpointed)
            &&& !(state.stage is Complete) ==> (state.stage is OpenCheckpointed
                <==> discovered[state.outcomes.len() as int].has_checkpointed)
        }),
{
    lemma_recovery_is_consistent(discovered, events);
}

/// What a segment adds once it has been dealt with: a recovered one is kept
/// behind the other recovered ones, and its entries follow theirs; any other one
/// can be reused, behind the other such ones, and adds no entries.
pub proof fn law_segments_are_kept_in_order<F>(
    outcomes: Seq<SegmentOutcome<F>>,
    file: F,
    entries: Seq<EntryId>,
)
    ensures
        ({
            let recovered = outcomes.push(SegmentOutcome::Recovered { file, entries });
            let checkpointed = outcomes.push(SegmentOutcome::Checkpointed { file });
            let abandoned = outcomes.push(SegmentOutcome::Abandoned { file });
            &&& recovered_in(recovered) == recovered_in(outcomes) + seq![file]
            &&& reusable_in(recovered) == reusable_in(outcomes)
            &&& entries_in(recovered) == entries_in(outcomes) + entries
            &&& recovered_in(checkpointed) == recovered_in(outcomes)
            &&& reusable_in(checkpointed) == reusable_in(outcomes) + seq![file]
            &&& entries_in(checkpointed) == entries_in(outcomes)
            &&& recovered_in(abandoned) == recovered_in(outcomes)
            &&& reusable_in(abandoned) == reusable_in(outcomes) + seq![file]
            &&& entries_in(abandoned) == entries_in(outcomes)
        }),
        recovered_in(Seq::<SegmentOutcome<F>>::empty()) == Seq::<F>::empty(),
        reusable_in(Seq::<SegmentOutcome<F>>::empty()) == Seq::<F>::empty(),
        entries_in(Seq::<SegmentOutcome<F>>::empty()) == Seq::<EntryId>::empty(),
{
    lemma_outcome_added(outcomes, SegmentOutcome::Recovered { file, entries });
    lemma_outcome_added(outcomes, SegmentOutcome::Checkpointed { file });
    lemma_outcome_added(outcomes, SegmentOutcome::Abandoned { file });
    assert(entries_in(outcomes) + Seq::<EntryId>::empty() =~= entries_in(outcomes));
    reveal(Seq::filter);
    assert(recovered_in(Seq::<SegmentOutcome<F>>::empty()) =~= Seq::<F>::empty());
    assert(reusable_in(Seq::<SegmentOutcome<F>>::empty()) =~= Seq::<F>::empty());
}

/// The files of a recovered log are those that can be reused, none is active yet,
/// and the newest entry is the one that was recovered last. The directory has not
/// been synchronized.
pub proof fn law_recovered_logs_go_on_after_the_last_entry<F>(
    outcomes: Seq<SegmentOutcome<F>>,
    entries: Seq<EntryId>,
    last: EntryId,
)
    ensures
        files_after(outcomes, entries.push(last)).last_entry_id == last,
        files_after(outcomes, Seq::empty()).last_entry_id.0 == 0,
        files_after(outcomes, entries).inactive == reusable_in(outcomes),
        files_after(outcomes, entries).active is None,
        files_after(outcomes, entries).directory_synced_at is None,
        !files_after(outcomes, entries).directory_is_syncing,
{
}

} // verus!
