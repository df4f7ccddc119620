//! The segment files of an open log.
//!
//! `F` is the caller's handle of a segment file. What has to be done to a file
//! is returned as a value; the caller does it and reports back.
use std::collections::VecDeque;
use vstd::multiset::Multiset;
use vstd::prelude::*;

use crate::entry::{is_synced_since, EntryId, Timestamp};
use crate::names::segment_file_name;

verus! {

/// How to obtain the file that becomes the active segment.
#[derive(Debug)]
pub enum Activation<F> {
    /// Rename the inactive segment `file` to `name`.
    Reuse { file: F, name: String },
    /// Create the segment file `name`, with no entries, for the entries from
    /// `entry_id` on.
    Create { entry_id: u64, name: String },
}

/// What to do next so that the directory's metadata reaches the disk.
#[derive(Clone, Copy, Debug, PartialEq, Eq, Structural)]
pub enum DirectorySync {
    /// Nothing: the directory has been synchronized recently enough.
    Done,
    /// Wait for the synchronization that is under way, and ask again.
    Wait,
    /// Synchronize the directory and report when that was started.
    Sync,
}

/// The segment files, with the state of their directory.
///
/// The file that an entry is being written to, and the files that wait for
/// their checkpoint, are in other hands.
#[derive(Debug)]
pub struct Files<F> {
    /// The file that the next entry goes to.
    pub active: Option<F>,
    /// The files that can be reused, longest unused first.
    pub inactive: VecDeque<F>,
    /// The id of the newest entry.
    pub last_entry_id: EntryId,
    /// When the newest completed synchronization of the directory was started.
    pub directory_synced_at: Option<Timestamp>,
    /// Whether the directory is being synchronized.
    pub directory_is_syncing: bool,
}

/// The state of [`Files`].
#[verifier::ext_equal]
pub struct FilesState<F> {
    pub active: Option<F>,
    pub inactive: Seq<F>,
    pub last_entry_id: EntryId,
    pub directory_synced_at: Option<Timestamp>,
    pub directory_is_syncing: bool,
}

impl<F> View for Files<F> {
    type V = FilesState<F>;

    open spec fn view(&self) -> FilesState<F> {
        FilesState {
            active: self.active,
            inactive: self.inactive@,
            last_entry_id: self.last_entry_id,
            directory_synced_at: self.directory_synced_at,
            directory_is_syncing: self.directory_is_syncing,
        }
    }
}

impl<F> FilesState<F> {
    /// No files, no entries, and a directory that was never synchronized.
    pub open spec fn empty() -> FilesState<F> {
        FilesState {
            active: None,
            inactive: Seq::empty(),
            last_entry_id: EntryId(0),
            directory_synced_at: None,
            directory_is_syncing: false,
        }
    }

    /// The id of the next entry.
    pub open spec fn next_id(self) -> u64 {
        (self.last_entry_id.0 + 1) as u64
    }

    /// The entry that can be begun: its id and its file.
    pub open spec fn next_entry(self) -> Option<(EntryId, F)> {
        match self.active {
            Some(file) => Some((EntryId(self.next_id()), file)),
            None => None,
        }
    }

    /// The state once the next entry has been begun; the same one if there is
    /// no active file.
    pub open spec fn with_entry_begun(self) -> FilesState<F> {
        if self.active is Some {
            FilesState { active: None, last_entry_id: EntryId(self.next_id()), ..self }
        } else {
            self
        }
    }

    /// The state once the file to activate has been chosen.
    pub open spec fn with_activation_begun(self) -> FilesState<F> {
        if self.inactive.len() > 0 {
            FilesState { inactive: self.inactive.subrange(1, self.inactive.len() as int), ..self }
        } else {
            self
        }
    }

    /// The state in which `file` is the active one.
    pub open spec fn with_active(self, file: F) -> FilesState<F> {
        FilesState { active: Some(file), ..self }
    }

    /// The state once `file` can be reused, after those that could be before.
    pub open spec fn with_recycled(self, file: F) -> FilesState<F> {
        FilesState { inactive: self.inactive.push(file), ..self }
    }

    /// Whether a synchronization of the directory was started at `at` or later
    /// and has been completed.
    pub open spec fn directory_synced_since(self, at: Timestamp) -> bool {
        crate::entry::synced_since(self.directory_synced_at, at)
    }

    /// What to do for a directory synchronized at `sync_on_or_after` or later.
    pub open spec fn directory_sync_for(self, sync_on_or_after: Timestamp) -> DirectorySync {
        if self.directory_synced_since(sync_on_or_after) {
            DirectorySync::Done
        } else if self.directory_is_syncing {
            DirectorySync::Wait
        } else {
            DirectorySync::Sync
        }
    }

    /// The state once a caller has been told what to do for a directory
    /// synchronized at `sync_on_or_after` or later.
    pub open spec fn with_directory_sync_for(self, sync_on_or_after: Timestamp) -> FilesState<F> {
        if self.directory_sync_for(sync_on_or_after) == DirectorySync::Sync {
            FilesState { directory_is_syncing: true, ..self }
        } else {
            self
        }
    }

    /// The state once a synchronization that was started at `at` is complete.
    pub open spec fn with_directory_synced(self, at: Timestamp) -> FilesState<F> {
        FilesState { directory_is_syncing: false, directory_synced_at: Some(at), ..self }
    }
}

impl<F> Activation<F> {
    /// Whether this is how the next file is obtained in `state`: the file that
    /// has been inactive for longest is renamed; without one a file is created.
    /// Either way the name is that of a segment starting with the next entry.
    pub open spec fn is_next_in(self, state: FilesState<F>) -> bool {
        match self {
            Activation::Reuse { file, name } => {
                &&& state.inactive.len() > 0
                &&& file == state.inactive[0]
                &&& name@ == crate::names::segment_file_name_of(state.next_id())
            },
            Activation::Create { entry_id, name } => {
                &&& state.inactive.len() == 0
                &&& entry_id == state.next_id()
                &&& name@ == crate::names::segment_file_name_of(state.next_id())
            },
        }
    }
}

impl<F> Default for Files<F> {
    fn default() -> (files: Files<F>)
        ensures
            files@ == FilesState::<F>::empty(),
            files.active is None,
            files.inactive@.len() == 0,
            files.last_entry_id.0 == 0,
            files.directory_synced_at is None,
            !files.directory_is_syncing,
    {
        Files {
            active: None,
            inactive: VecDeque::new(),
            last_entry_id: EntryId(0),
            directory_synced_at: None,
            directory_is_syncing: false,
        }
    }
}

impl<F> Files<F> {
    /// Begins an entry: allocates its id and gives up the active file to its
    /// writer. Without an active file there is nothing to do but wait for one.
    pub fn begin_entry(&mut self) -> (entry: Option<(EntryId, F)>)
        requires
            old(self)@.active is Some ==> old(self)@.last_entry_id.0 < u64::MAX,
        ensures
            entry == old(self)@.next_entry(),
            final(self)@ == old(self)@.with_entry_begun(),
            entry is Some <==> old(self).active is Some,
            entry is Some ==> {
                &&& Some((entry->0).1) == old(self).active
                &&& ((entry->0).0).0 == old(self).last_entry_id.0 + 1
                &&& final(self).last_entry_id == (entry->0).0
                &&& final(self).active is None
            },
            entry is None ==> {
                &&& final(self).last_entry_id == old(self).last_entry_id
                &&& final(self).active is None
            },
            final(self).inactive == old(self).inactive,
            final(self).directory_synced_at == old(self).directory_synced_at,
            final(self).directory_is_syncing == old(self).directory_is_syncing,
    {
        match self.active.take() {
            Some(file) => {
                self.last_entry_id = EntryId(self.last_entry_id.0 + 1);
                Some((self.last_entry_id, file))
            },
            None => None,
        }
    }

    /// Chooses the file that becomes the active one. An inactive file that is
    /// to be renamed leaves the inactive ones at once, and does not come back
    /// if it cannot be renamed.
    pub fn activate_new_file(&mut self) -> (activation: Activation<F>)
        requires
            old(self)@.last_entry_id.0 < u64::MAX,
        ensures
            activation.is_next_in(old(self)@),
            final(self)@ == old(self)@.with_activation_begun(),
            activation is Reuse <==> old(self).inactive@.len() > 0,
            activation is Reuse ==> {
                &&& activation->file == old(self).inactive@[0]
                &&& activation->Reuse_name@ == seq!['w', 'a', 'l', '-'] + crate::names::decimal(
                    (old(self).last_entry_id.0 + 1) as nat,
                )
                &&& final(self).inactive@ == old(self).inactive@.skip(1)
            },
            activation is Create ==> {
                &&& activation->entry_id == old(self).last_entry_id.0 + 1
                &&& activation->Create_name@ == seq!['w', 'a', 'l', '-'] + crate::names::decimal(
                    (old(self).last_entry_id.0 + 1) as nat,
                )
                &&& final(self).inactive@ == old(self).inactive@
            },
            final(self).active == old(self).active,
            final(self).last_entry_id == old(self).last_entry_id,
            final(self).directory_synced_at == old(self).directory_synced_at,
            final(self).directory_is_syncing == old(self).directory_is_syncing,
    {
        let next_id: u64 = self.last_entry_id.0 + 1;
        let name: String = segment_file_name(next_id);
        match self.inactive.pop_front() {
            Some(file) => Activation::Reuse { file, name },
            None => Activation::Create { entry_id: next_id, name },
        }
    }

    /// Makes `file` the active one: a new file once it is in place, or one that
    /// an entry was written to.
    pub fn set_active(&mut self, file: F)
        ensures
            final(self)@ == old(self)@.with_active(file),
            final(self).active == Some(file),
            final(self).inactive == old(self).inactive,
            final(self).last_entry_id == old(self).last_entry_id,
            final(self).directory_synced_at == old(self).directory_synced_at,
            final(self).directory_is_syncing == old(self).directory_is_syncing,
    {
        self.active = Some(file);
    }

    /// Adds `file` to those that can be reused.
    pub fn recycle(&mut self, file: F)
        ensures
            final(self)@ == old(self)@.with_recycled(file),
            final(self).inactive@ == old(self).inactive@ + seq![file],
            final(self).active == old(self).active,
            final(self).last_entry_id == old(self).last_entry_id,
            final(self).directory_synced_at == old(self).directory_synced_at,
            final(self).directory_is_syncing == old(self).directory_is_syncing,
    {
        self.inactive.push_back(file);
    }

    /// Says what to do for a directory that was synchronized at
    /// `sync_on_or_after` or later. A caller that is told to synchronize it is
    /// the only one until it reports to [`Files::directory_synced`]. If it fails
    /// to, it reports nothing, and nobody else is ever told to.
    pub fn sync_directory(&mut self, sync_on_or_after: Timestamp) -> (sync: DirectorySync)
        ensures
            sync == old(self)@.directory_sync_for(sync_on_or_after),
            final(self)@ == old(self)@.with_directory_sync_for(sync_on_or_after),
            sync is Done <==> old(self).directory_synced_at is Some && (old(
                self,
            ).directory_synced_at->0).0 >= sync_on_or_after.0,
            sync is Wait ==> old(self).directory_is_syncing,
            sync is Sync ==> !old(self).directory_is_syncing,
            final(self).directory_is_syncing == (old(self).directory_is_syncing || sync is Sync),
            final(self).directory_synced_at == old(self).directory_synced_at,
            final(self).active == old(self).active,
            final(self).inactive == old(self).inactive,
            final(self).last_entry_id == old(self).last_entry_id,
    {
        if is_synced_since(self.directory_synced_at, sync_on_or_after) {
            DirectorySync::Done
        } else if self.directory_is_syncing {
            DirectorySync::Wait
        } else {
            self.directory_is_syncing = true;
            DirectorySync::Sync
        }
    }

    /// Takes note that a synchronization of the directory that was started at
    /// `synced_at` is complete.
    pub fn directory_synced(&mut self, synced_at: Timestamp)
        ensures
            final(self)@ == old(self)@.with_directory_synced(synced_at),
            final(self).directory_synced_at == Some(synced_at),
            !final(self).directory_is_syncing,
            final(self).active == old(self).active,
            final(self).inactive == old(self).inactive,
            final(self).last_entry_id == old(self).last_entry_id,
    {
        self.directory_is_syncing = false;
        self.directory_synced_at = Some(synced_at);
    }
}

/// A change of the state of [`Files`]: one of its operations.
pub enum FilesChange<F> {
    BeginEntry,
    ActivateNewFile,
    SetActive { file: F },
    Recycle { file: F },
    SyncDirectory { sync_on_or_after: Timestamp },
    DirectorySynced { synced_at: Timestamp },
}

impl<F> FilesState<F> {
    /// The state after `change`.
    pub open spec fn after(self, change: FilesChange<F>) -> FilesState<F> {
        match change {
            FilesChange::BeginEntry => self.with_entry_begun(),
            FilesChange::ActivateNewFile => self.with_activation_begun(),
            FilesChange::SetActive { file } => self.with_active(file),
            FilesChange::Recycle { file } => self.with_recycled(file),
            FilesChange::SyncDirectory { sync_on_or_after } => self.with_directory_sync_for(
                sync_on_or_after,
            ),
            FilesChange::DirectorySynced { synced_at } => self.with_directory_synced(synced_at),
        }
    }

    /// The state after all of `changes`.
    pub open spec fn after_all(self, changes: Seq<FilesChange<F>>) -> FilesState<F>
        decreases changes.len(),
    {
        if changes.len() == 0 {
            self
        } else {
            self.after_all(changes.drop_last()).after(changes.last())
        }
    }

    /// Whether there is an id left for each entry that is begun in `changes`.
    pub open spec fn has_ids_for(self, changes: Seq<FilesChange<F>>) -> bool
        decreases changes.len(),
    {
        changes.len() > 0 ==> {
            let before = self.after_all(changes.drop_last());
            &&& self.has_ids_for(changes.drop_last())
            &&& changes.last() is BeginEntry && before.active is Some ==> before.last_entry_id.0
                < u64::MAX
        }
    }

    /// Whether the clock that the completed synchronizations in `changes` were
    /// timed with did not go back: each was started no earlier than the one
    /// recorded before it.
    pub open spec fn in_clock_order(self, changes: Seq<FilesChange<F>>) -> bool
        decreases changes.len(),
    {
        changes.len() > 0 ==> {
            let before = self.after_all(changes.drop_last());
            &&& self.in_clock_order(changes.drop_last())
            &&& changes.last() matches FilesChange::DirectorySynced { synced_at }
                ==> before.directory_synced_at matches Some(recorded) ==> recorded.0 <= synced_at.0
        }
    }

    /// The files that are in this state's hands.
    pub open spec fn held_files(self) -> Multiset<F> {
        match self.active {
            Some(file) => self.inactive.to_multiset().insert(file),
            None => self.inactive.to_multiset(),
        }
    }
}

/// The id of the newest entry never decreases, and grows by no more than one
/// with each change.
pub proof fn law_entry_ids_never_decrease<F>(state: FilesState<F>, changes: Seq<FilesChange<F>>)
    requires
        state.has_ids_for(changes),
    ensures
        state.last_entry_id.0 <= state.after_all(changes).last_entry_id.0
            <= state.last_entry_id.0 + changes.len(),
    decreases changes.len(),
{
    if changes.len() > 0 {
        law_entry_ids_never_decrease(state, changes.drop_last());
    }
}

/// An entry that is begun after another one has a larger id, whatever has
/// happened in between: no id is allocated twice, not even that of an entry that
/// was rolled back.
pub proof fn law_entry_ids_are_unique<F>(state: FilesState<F>, changes: Seq<FilesChange<F>>)
    requires
        state.next_entry() is Some,
        state.last_entry_id.0 < u64::MAX,
        state.with_entry_begun().has_ids_for(changes),
        state.with_entry_begun().after_all(changes).next_entry() is Some,
        state.with_entry_begun().after_all(changes).last_entry_id.0 < u64::MAX,
    ensures
        state.next_id() < state.with_entry_begun().after_all(changes).next_id(),
{
    law_entry_ids_never_decrease(state.with_entry_begun(), changes);
}

/// A segment that is put in place after an entry was begun has another name than
/// one that was put in place before, whatever else has happened in between.
pub proof fn law_names_of_new_segments_are_new<F>(
    state: FilesState<F>,
    changes: Seq<FilesChange<F>>,
)
    requires
        state.next_entry() is Some,
        state.last_entry_id.0 < u64::MAX,
        state.with_entry_begun().has_ids_for(changes),
        state.with_entry_begun().after_all(changes).last_entry_id.0 < u64::MAX,
    ensures
        crate::names::segment_file_name_of(state.next_id())
            != crate::names::segment_file_name_of(
            state.with_entry_begun().after_all(changes).next_id(),
        ),
{
    let later = state.with_entry_begun().after_all(changes);
    law_entry_ids_never_decrease(state.with_entry_begun(), changes);
    crate::names::law_segment_names_are_distinct(state.next_id(), later.next_id());
}

/// An entry that is rolled back leaves the files as they were; only its id is
/// used up.
pub proof fn law_rolled_back_entry_uses_up_its_id<F>(state: FilesState<F>, id: EntryId, file: F)
    requires
        state.next_entry() == Some((id, file)),
    ensures
        state.with_entry_begun().with_active(file) == (FilesState { last_entry_id: id, ..state }),
{
}

/// While a writer has the active file no other entry can be begun, until a file
/// is made active again.
pub proof fn law_one_writer_at_a_time<F>(state: FilesState<F>, changes: Seq<FilesChange<F>>)
    requires
        state.next_entry() is Some,
        forall|i: int| 0 <= i < changes.len() ==> !((#[trigger] changes[i]) is SetActive),
    ensures
        state.with_entry_begun().after_all(changes).next_entry() is None,
    decreases changes.len(),
{
    if changes.len() > 0 {
        let before = changes.drop_last();
        assert forall|i: int| 0 <= i < before.len() implies !((#[trigger] before[i]) is SetActive) by {
            assert(before[i] == changes[i]);
        }
        law_one_writer_at_a_time(state, before);
        assert(!(changes[changes.len() - 1] is SetActive));
    }
}

/// From the moment a caller is told to synchronize the directory until that is
/// reported to be complete, nobody else is told to: all others are satisfied by
/// an earlier synchronization, or wait.
pub proof fn law_one_directory_sync_at_a_time<F>(
    state: FilesState<F>,
    sync_on_or_after: Timestamp,
    changes: Seq<FilesChange<F>>,
    other: Timestamp,
)
    requires
        state.directory_sync_for(sync_on_or_after) == DirectorySync::Sync,
        forall|i: int| 0 <= i < changes.len() ==> !((#[trigger] changes[i]) is DirectorySynced),
    ensures
        state.with_directory_sync_for(sync_on_or_after).after_all(changes).directory_is_syncing,
        state.with_directory_sync_for(sync_on_or_after).after_all(changes).directory_synced_at
            == state.directory_synced_at,
        state.with_directory_sync_for(sync_on_or_after).after_all(changes).directory_sync_for(other)
            == if state.directory_synced_since(other) {
            DirectorySync::Done
        } else {
            DirectorySync::Wait
        },
    decreases changes.len(),
{
    if changes.len() > 0 {
        let before = changes.drop_last();
        assert forall|i: int| 0 <= i < before.len() implies !(
        (#[trigger] before[i]) is DirectorySynced) by {
            assert(before[i] == changes[i]);
        }
        law_one_directory_sync_at_a_time(state, sync_on_or_after, before, other);
        assert(!(changes[changes.len() - 1] is DirectorySynced));
    }
}

/// A completed synchronization of the directory satisfies, from then on, all who
/// ask for one as of its start or earlier, as long as the reported times do not
/// go back.
pub proof fn law_directory_sync_satisfies<F>(
    state: FilesState<F>,
    synced_at: Timestamp,
    changes: Seq<FilesChange<F>>,
    sync_on_or_after: Timestamp,
)
    requires
        sync_on_or_after.0 <= synced_at.0,
        forall|i: int|
            0 <= i < changes.len() ==> ((#[trigger] changes[i]) matches FilesChange::DirectorySynced {
                synced_at: later,
            } ==> synced_at.0 <= later.0),
    ensures
        state.with_directory_synced(synced_at).after_all(changes).directory_sync_for(
            sync_on_or_after,
        ) == DirectorySync::Done,
    decreases changes.len(),
{
    if changes.len() > 0 {
        let before = changes.drop_last();
        assert forall|i: int| 0 <= i < before.len() implies ((
        #[trigger] before[i]) matches FilesChange::DirectorySynced { synced_at: later }
            ==> synced_at.0 <= later.0) by {
            assert(before[i] == changes[i]);
        }
        law_directory_sync_satisfies(state, synced_at, before, sync_on_or_after);
        assert(changes[changes.len() - 1] == changes.last());
    }
}

/// A recorded synchronization of the directory is never forgotten, and its time
/// goes back only if the clock does.
pub proof fn law_directory_sync_time_never_goes_back<F>(
    state: FilesState<F>,
    changes: Seq<FilesChange<F>>,
)
    ensures
        state.directory_synced_at is Some ==> state.after_all(changes).directory_synced_at is Some,
        state.directory_synced_at matches Some(recorded) ==> state.in_clock_order(changes)
            ==> state.after_all(changes).directory_synced_since(recorded),
    decreases changes.len(),
{
    if changes.len() > 0 {
        law_directory_sync_time_never_goes_back(state, changes.drop_last());
    }
}

/// No file is lost or doubled. Beginning an entry hands out the active file and
/// activating a file hands out an inactive one, if there is one; a file that is
/// made active where there was none, or recycled, is added; synchronizing the
/// directory moves no file.
pub proof fn law_files_are_conserved<F>(state: FilesState<F>, file: F, at: Timestamp)
    ensures
        state.next_entry() is Some ==> state.held_files()
            == state.with_entry_begun().held_files().insert(state.active->0),
        state.next_entry() is None ==> state.held_files() == state.with_entry_begun().held_files(),
        state.inactive.len() > 0 ==> state.held_files()
            == state.with_activation_begun().held_files().insert(state.inactive[0]),
        state.inactive.len() == 0 ==> state.held_files()
            == state.with_activation_begun().held_files(),
        state.active is None ==> state.with_active(file).held_files() == state.held_files().insert(
            file,
        ),
        state.with_recycled(file).held_files() == state.held_files().insert(file),
        state.with_directory_sync_for(at).held_files() == state.held_files(),
        state.with_directory_synced(at).held_files() == state.held_files(),
{
    broadcast use vstd::multiset::group_multiset_axioms;

    state.inactive.to_multiset_ensures();
    assert(state.with_recycled(file).held_files() =~= state.held_files().insert(file));
    if state.inactive.len() > 0 {
        assert(state.inactive.subrange(1, state.inactive.len() as int) =~= state.inactive.remove(0));
        assert(state.held_files() =~= state.with_activation_begun().held_files().insert(
            state.inactive[0],
        ));
    }
}

/// The state of the files is what their fields hold.
pub proof fn law_state_is_that_of_the_fields<F>(files: Files<F>)
    ensures
        files@.active == files.active,
        files@.inactive == files.inactive@,
        files@.last_entry_id == files.last_entry_id,
        files@.directory_synced_at == files.directory_synced_at,
        files@.directory_is_syncing == files.directory_is_syncing,
{
}

/// An entry can be begun exactly if there is an active file, whatever else the
/// state is. It gets that file, and the id after that of the newest entry; the
/// file is not active any more, and nothing else changes. Without an active file
/// nothing changes at all.
pub proof fn law_entries_begin_exactly_with_an_active_file<F>(state: FilesState<F>)
    requires
        state.last_entry_id.0 < u64::MAX,
    ensures
        state.next_entry() is Some <==> state.active is Some,
        state.next_entry() is Some ==> {
            &&& Some((state.next_entry()->0).1) == state.active
            &&& ((state.next_entry()->0).0).0 == state.last_entry_id.0 + 1
            &&& state.with_entry_begun().last_entry_id == (state.next_entry()->0).0
        },
        state.active is None ==> state.with_entry_begun().last_entry_id == state.last_entry_id,
        state.with_entry_begun().active is None,
        state.with_entry_begun().inactive == state.inactive,
        state.with_entry_begun().directory_synced_at == state.directory_synced_at,
        state.with_entry_begun().directory_is_syncing == state.directory_is_syncing,
{
}

/// Right after a file is made active, whatever the state was, the next entry can
/// be begun, in that file.
pub proof fn law_an_active_file_takes_the_next_entry<F>(state: FilesState<F>, file: F)
    requires
        state.last_entry_id.0 < u64::MAX,
    ensures
        state.with_active(file).next_entry() is Some,
        (state.with_active(file).next_entry()->0).1 == file,
        ((state.with_active(file).next_entry()->0).0).0 == state.last_entry_id.0 + 1,
        state.with_active(file).with_entry_begun().active is None,
        state.with_active(file).inactive == state.inactive,
        state.with_active(file).last_entry_id == state.last_entry_id,
        state.with_active(file).directory_synced_at == state.directory_synced_at,
        state.with_active(file).directory_is_syncing == state.directory_is_syncing,
{
}

/// The file that has been inactive for longest is activated next, and one is
/// created exactly if none is inactive. Either way the file is named for the
/// entry after the newest one, and no other part of the state changes.
pub proof fn law_the_longest_inactive_file_is_activated<F>(
    state: FilesState<F>,
    activation: Activation<F>,
)
    requires
        state.last_entry_id.0 < u64::MAX,
        activation.is_next_in(state),
    ensures
        activation is Create <==> state.inactive.len() == 0,
        activation is Reuse ==> state.inactive == seq![activation->file]
            + state.with_activation_begun().inactive,
        activation is Reuse ==> activation->Reuse_name@ == seq!['w', 'a', 'l', '-']
            + crate::names::decimal((state.last_entry_id.0 + 1) as nat),
        activation is Create ==> state.with_activation_begun().inactive == state.inactive,
        activation is Create ==> activation->entry_id == state.last_entry_id.0 + 1,
        activation is Create ==> activation->Create_name@ == seq!['w', 'a', 'l', '-']
            + crate::names::decimal((state.last_entry_id.0 + 1) as nat),
        state.with_activation_begun().active == state.active,
        state.with_activation_begun().last_entry_id == state.last_entry_id,
        state.with_activation_begun().directory_synced_at == state.directory_synced_at,
        state.with_activation_begun().directory_is_syncing == state.directory_is_syncing,
{
}

/// Files are activated in the order in which they can be reused: any number of
/// activations takes as many files away, from the front, and leaves the others in
/// their order. As recycled files are added last, those recycled first are
/// activated first.
pub proof fn law_files_are_reused_in_order<F>(state: FilesState<F>, changes: Seq<FilesChange<F>>)
    requires
        changes.len() <= state.inactive.len(),
        forall|i: int| 0 <= i < changes.len() ==> (#[trigger] changes[i]) is ActivateNewFile,
    ensures
        state.after_all(changes).inactive == state.inactive.skip(changes.len() as int),
        changes.len() < state.inactive.len() ==> state.after_all(changes).inactive[0]
            == state.inactive[changes.len() as int],
    decreases changes.len(),
{
    if changes.len() > 0 {
        let before = changes.drop_last();
        assert forall|i: int| 0 <= i < before.len() implies (
        #[trigger] before[i]) is ActivateNewFile by {
            assert(before[i] == changes[i]);
        }
        law_files_are_reused_in_order(state, before);
        assert(changes[changes.len() - 1] is ActivateNewFile);
    }
    assert(state.after_all(changes).inactive =~= state.inactive.skip(changes.len() as int));
}

/// Recycling a file adds it behind those that can be reused, and changes nothing
/// else.
pub proof fn law_recycled_files_are_added_last<F>(state: FilesState<F>, file: F)
    ensures
        state.with_recycled(file).inactive == state.inactive + seq![file],
        state.with_recycled(file).active == state.active,
        state.with_recycled(file).last_entry_id == state.last_entry_id,
        state.with_recycled(file).directory_synced_at == state.directory_synced_at,
        state.with_recycled(file).directory_is_syncing == state.directory_is_syncing,
{
}

/// Who asks for a synchronization of the directory is satisfied exactly if one
/// was started at that time or later. Otherwise the directory is to be
/// synchronized, unless that is under way already, and is under way from then on.
pub proof fn law_directory_is_synchronized_when_needed<F>(state: FilesState<F>, at: Timestamp)
    ensures
        state.directory_sync_for(at) is Done <==> state.directory_synced_at is Some
            && (state.directory_synced_at->0).0 >= at.0,
        state.directory_sync_for(at) is Wait ==> state.directory_is_syncing,
        state.directory_sync_for(at) is Sync ==> !state.directory_is_syncing,
        state.with_directory_sync_for(at).directory_is_syncing <==> state.directory_is_syncing
            || state.directory_sync_for(at) is Sync,
        state.with_directory_sync_for(at).directory_synced_at == state.directory_synced_at,
        state.with_directory_sync_for(at).active == state.active,
        state.with_directory_sync_for(at).inactive == state.inactive,
        state.with_directory_sync_for(at).last_entry_id == state.last_entry_id,
{
}

/// A completed synchronization is recorded with its time, and another one can be
/// started. Nothing else changes.
pub proof fn law_completed_synchronization_is_recorded<F>(state: FilesState<F>, at: Timestamp)
    ensures
        state.with_directory_synced(at).directory_synced_at == Some(at),
        !state.with_directory_synced(at).directory_is_syncing,
        state.with_directory_synced(at).active == state.active,
        state.with_directory_synced(at).inactive == state.inactive,
        state.with_directory_synced(at).last_entry_id == state.last_entry_id,
{
}

/// A log starts with no files and no entries, and its first entry has the id 1.
pub proof fn law_ids_start_at_one<F>(file: F)
    ensures
        FilesState::<F>::empty().active is None,
        FilesState::<F>::empty().inactive.len() == 0,
        FilesState::<F>::empty().directory_synced_at is None,
        !FilesState::<F>::empty().directory_is_syncing,
        FilesState::<F>::empty().last_entry_id.0 == 0,
        ((FilesState::<F>::empty().with_active(file).next_entry()->0).0).0 == 1,
{
}

} // verus!
