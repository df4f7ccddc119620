//! The state of an open write-ahead log.
use vstd::prelude::*;

use crate::checkpoint::Checkpoint;
use crate::entry::{EntryId, LogPosition};
use crate::files::{Activation, Files};
use crate::names::segment_file_name;
use crate::reclaim::{Reclaim, ReclaimEvent, WriteResult};
use crate::recovery::LogRecovery;

verus! {

/// How a log is operated.
#[derive(Clone, Copy, Debug, PartialEq, Eq, Structural)]
pub struct Configuration {
    /// The length from which on a segment file is full and is checkpointed.
    pub checkpoint_after_bytes: u64,
}

/// An open log, with `F` for the handle of a segment file and `T` for that of
/// the thread that checkpoints full files.
///
/// The caller keeps it behind a lock. What has to be done outside of the lock is
/// returned as a value.
#[derive(Debug)]
pub struct WriteAheadLog<F, T> {
    /// The segment files.
    pub files: Files<F>,
    /// How the log is operated.
    pub config: Configuration,
    /// The checkpointing thread, from its start until the log is shut down.
    pub checkpoint_thread: Option<T>,
}

/// A segment file that has grown long enough to be checkpointed.
#[derive(Debug)]
pub struct FullSegment<F> {
    /// The file, which goes to the checkpointer once another one is active.
    pub file: F,
    /// How to obtain the other one.
    pub activation: Activation<F>,
}

/// Where a chunk is to be read from.
#[derive(Debug)]
pub struct ChunkLocation {
    /// The name of the segment file.
    pub name: String,
    /// The offset of the chunk's header.
    pub offset: u64,
}

/// How the checkpointing thread ended.
#[derive(Debug)]
pub enum ThreadExit<E> {
    /// It returned a result.
    Returned(Result<(), E>),
    /// It panicked.
    Panicked,
}

/// Why a shutdown failed.
#[derive(Debug)]
pub enum ShutdownError<E> {
    /// The checkpointing thread panicked.
    BrokenPipe,
    /// The checkpointing thread had ended with an error.
    Checkpointing(E),
}

/// The result of a shutdown whose checkpointing thread ended as `exit` says.
pub open spec fn shutdown_result_of<E>(exit: ThreadExit<E>) -> Result<(), ShutdownError<E>> {
    match exit {
        ThreadExit::Returned(Ok(())) => Ok(()),
        ThreadExit::Returned(Err(error)) => Err(ShutdownError::Checkpointing(error)),
        ThreadExit::Panicked => Err(ShutdownError::BrokenPipe),
    }
}

/// Turns the end of the checkpointing thread into the result of the shutdown.
pub fn shutdown_result<E>(exit: ThreadExit<E>) -> (result: Result<(), ShutdownError<E>>)
    ensures
        result == shutdown_result_of(exit),
        result is Ok <==> exit is Returned && exit->Returned_0 is Ok,
        exit is Panicked <==> result is Err && result->Err_0 is BrokenPipe,
        exit is Returned && exit->Returned_0 is Err ==> result == Err::<(), _>(
            ShutdownError::Checkpointing(exit->Returned_0->Err_0),
        ),
{
    match exit {
        ThreadExit::Returned(Ok(())) => Ok(()),
        ThreadExit::Returned(Err(error)) => Err(ShutdownError::Checkpointing(error)),
        ThreadExit::Panicked => Err(ShutdownError::BrokenPipe),
    }
}

impl<F, T> WriteAheadLog<F, T> {
    /// Begins to open the log whose directory holds the files called `names`.
    pub fn recover(names: &Vec<String>) -> (recovery: LogRecovery<F>)
        ensures
            crate::discovery::is_stable_sort_of(
                recovery@.discovered,
                crate::discovery::segments_among(names@),
            ),
            recovery@ == crate::recovery::RecoveryState::<F>::begun(recovery@.discovered),
            recovery@.is_consistent(),
            recovery@.outcomes.len() == 0,
            recovery@.entries.len() == 0,
            recovery@.stage is Complete <==> recovery@.discovered.len() == 0,
    {
        LogRecovery::begin(names)
    }

    /// A log with the segment files `files`, before its checkpointing thread is
    /// started.
    pub fn new(files: Files<F>, config: Configuration) -> (log: WriteAheadLog<F, T>)
        ensures
            log.files == files,
            log.config == config,
            log.checkpoint_thread == None::<T>,
    {
        WriteAheadLog { files, config, checkpoint_thread: None }
    }

    /// Takes note of the checkpointing thread, which was just started.
    pub fn set_checkpoint_thread(&mut self, thread: T)
        ensures
            final(self).checkpoint_thread == Some(thread),
            final(self).files == old(self).files,
            final(self).config == old(self).config,
    {
        self.checkpoint_thread = Some(thread);
    }

    /// Begins writing an entry to the log.
    ///
    /// A new id is allocated for the entry. It is not reused, even if the entry
    /// is rolled back. The active file goes to the entry's writer alone, until
    /// it is handed to [`WriteAheadLog::reclaim`]. `None` means that another
    /// writer has the file and the caller has to wait.
    pub fn begin_entry(&mut self) -> (entry: Option<(EntryId, F)>)
        requires
            old(self).files@.active is Some ==> old(self).files@.last_entry_id.0 < u64::MAX,
        ensures
            entry == old(self).files@.next_entry(),
            final(self).files@ == old(self).files@.with_entry_begun(),
            entry is Some <==> old(self).files.active is Some,
            entry is Some ==> {
                &&& Some((entry->0).1) == old(self).files.active
                &&& ((entry->0).0).0 == old(self).files.last_entry_id.0 + 1
                &&& final(self).files.last_entry_id == (entry->0).0
            },
            entry is None ==> final(self).files.last_entry_id == old(self).files.last_entry_id,
            final(self).files.active is None,
            final(self).files.inactive == old(self).files.inactive,
            final(self).files.directory_synced_at == old(self).files.directory_synced_at,
            final(self).files.directory_is_syncing == old(self).files.directory_is_syncing,
            final(self).config == old(self).config,
            final(self).checkpoint_thread == old(self).checkpoint_thread,
    {
        self.files.begin_entry()
    }

    /// Whether a file that a writer left with `result` is full.
    pub open spec fn is_full_after(self, result: WriteResult) -> bool {
        result matches WriteResult::Entry { new_length } && self.config.checkpoint_after_bytes
            <= new_length
    }

    /// Takes `file` back from its writer, which ended with `result`.
    ///
    /// A file that is not full becomes the active one again. For a full one a
    /// new active file has to be put in place first.
    pub fn reclaim(&mut self, file: F, result: WriteResult) -> (reclaimed: (
        Reclaim,
        Option<FullSegment<F>>,
    ))
        requires
            old(self).is_full_after(result) ==> old(self).files@.last_entry_id.0 < u64::MAX,
        ensures
            reclaimed.0 == Reclaim::begin(
                result,
                old(self).config.checkpoint_after_bytes,
                old(self).files@.directory_synced_at,
            ),
            old(self).is_full_after(result) ==> {
                &&& final(self).files@ == old(self).files@.with_activation_begun()
                &&& reclaimed.1 is Some
                &&& reclaimed.1->0.file == file
                &&& reclaimed.1->0.activation.is_next_in(old(self).files@)
            },
            !old(self).is_full_after(result) ==> {
                &&& final(self).files@ == old(self).files@.with_active(file)
                &&& reclaimed.1 is None
            },
            result is RolledBack ==> reclaimed.0 is Done && reclaimed.1 is None,
            result is Entry && result->new_length >= old(self).config.checkpoint_after_bytes ==> {
                &&& reclaimed.0 == Reclaim::Activating { new_length: result->new_length }
                &&& reclaimed.1 is Some
                &&& reclaimed.1->0.file == file
                &&& reclaimed.1->0.activation is Reuse <==> old(self).files.inactive@.len() > 0
                &&& reclaimed.1->0.activation is Reuse ==> reclaimed.1->0.activation->file == old(
                    self,
                ).files.inactive@[0]
                &&& final(self).files.active == old(self).files.active
                &&& final(self).files.inactive@ == if old(self).files.inactive@.len() > 0 {
                    old(self).files.inactive@.skip(1)
                } else {
                    old(self).files.inactive@
                }
            },
            result is Entry && result->new_length < old(self).config.checkpoint_after_bytes ==> {
                &&& reclaimed.0 == (Reclaim::Synchronizing {
                    new_length: result->new_length,
                    last_directory_sync: old(self).files.directory_synced_at,
                })
                &&& reclaimed.1 is None
            },
            reclaimed.1 is None ==> {
                &&& final(self).files.active == Some(file)
                &&& final(self).files.inactive@ == old(self).files.inactive@
            },
            final(self).files.last_entry_id == old(self).files.last_entry_id,
            final(self).files.directory_synced_at == old(self).files.directory_synced_at,
            final(self).files.directory_is_syncing == old(self).files.directory_is_syncing,
            final(self).config == old(self).config,
            final(self).checkpoint_thread == old(self).checkpoint_thread,
    {
        match result {
            WriteResult::Entry { new_length } => {
                if self.config.checkpoint_after_bytes <= new_length {
                    let activation = self.files.activate_new_file();
                    (Reclaim::Activating { new_length }, Some(FullSegment { file, activation }))
                } else {
                    self.files.set_active(file);
                    let last_directory_sync = self.files.directory_synced_at;
                    (Reclaim::Synchronizing { new_length, last_directory_sync }, None)
                }
            },
            WriteResult::RolledBack => {
                self.files.set_active(file);
                (Reclaim::Done, None)
            },
        }
    }

    /// Makes `file` the active one in place of a full one that is being
    /// reclaimed.
    pub fn replace_full_segment(&mut self, reclaim: Reclaim, file: F) -> (next: Reclaim)
        requires
            reclaim is Activating,
        ensures
            next == reclaim.after(
                ReclaimEvent::Activated { directory_synced_at: old(self).files@.directory_synced_at },
            ),
            final(self).files@ == old(self).files@.with_active(file),
            next == (Reclaim::Sending {
                new_length: reclaim->Activating_new_length,
                last_directory_sync: old(self).files.directory_synced_at,
            }),
            final(self).files.active == Some(file),
            final(self).files.inactive@ == old(self).files.inactive@,
            final(self).files.last_entry_id == old(self).files.last_entry_id,
            final(self).files.directory_synced_at == old(self).files.directory_synced_at,
            final(self).files.directory_is_syncing == old(self).files.directory_is_syncing,
            final(self).config == old(self).config,
            final(self).checkpoint_thread == old(self).checkpoint_thread,
    {
        self.files.set_active(file);
        reclaim.resume(
            ReclaimEvent::Activated { directory_synced_at: self.files.directory_synced_at },
        )
    }

    /// Ends the reclaiming of a file with success, as soon as the directory has
    /// been synchronized as asked for.
    pub fn finish_reclaim(&self, reclaim: Reclaim) -> (next: Reclaim)
        requires
            reclaim is SyncingDirectory,
            self.files@.directory_synced_since(reclaim->sync_on_or_after),
        ensures
            next == Reclaim::Done,
    {
        reclaim.resume(
            ReclaimEvent::DirectorySynced { directory_synced_at: self.files.directory_synced_at },
        )
    }

    /// Adds the file that has been checkpointed to those that can be reused, as
    /// soon as the directory has been synchronized as asked for. The
    /// checkpointing thread goes on to the next file.
    pub fn finish_checkpoint(&mut self, checkpoint: Checkpoint<F>) -> (next: Checkpoint<F>)
        requires
            checkpoint@ is SyncingDirectory,
            old(self).files@.directory_synced_since(checkpoint@->sync_on_or_after),
        ensures
            next@ == crate::checkpoint::CheckpointState::<F>::Receiving,
            next@ == checkpoint@.finished(),
            next is Receiving,
            checkpoint is SyncingDirectory,
            final(self).files.inactive@ == old(self).files.inactive@ + seq![
                checkpoint->SyncingDirectory_file,
            ],
            final(self).files.active == old(self).files.active,
            final(self).files.last_entry_id == old(self).files.last_entry_id,
            final(self).files.directory_synced_at == old(self).files.directory_synced_at,
            final(self).files.directory_is_syncing == old(self).files.directory_is_syncing,
            final(self).files@ == old(self).files@.with_recycled(
                checkpoint@->SyncingDirectory_file,
            ),
            final(self).config == old(self).config,
            final(self).checkpoint_thread == old(self).checkpoint_thread,
    {
        if let Checkpoint::SyncingDirectory { file, .. } = checkpoint {
            self.files.recycle(file);
        }
        Checkpoint::Receiving
    }

    /// Says where to read the chunk that was written at `position`.
    ///
    /// There is no such file any more once the segment has been checkpointed.
    pub fn read_at(position: LogPosition) -> (location: ChunkLocation)
        ensures
            location.name@ == crate::names::segment_file_name_of(position.file_id),
            location.name@ == seq!['w', 'a', 'l', '-'] + crate::names::decimal(
                position.file_id as nat,
            ),
            location.offset == position.offset,
    {
        ChunkLocation { name: segment_file_name(position.file_id), offset: position.offset }
    }

    /// Hands out the checkpointing thread, which the caller waits for. A log is
    /// shut down once.
    pub fn shutdown(&mut self) -> (thread: T)
        requires
            old(self).checkpoint_thread is Some,
        ensures
            Some(thread) == old(self).checkpoint_thread,
            final(self).checkpoint_thread == None::<T>,
            final(self).files == old(self).files,
            final(self).config == old(self).config,
    {
        self.checkpoint_thread.take().unwrap()
    }
}

/// A file is full exactly if an entry was written to it that makes it as long as
/// the limit, or longer.
pub proof fn law_files_are_full_from_the_limit_on<F, T>(
    log: WriteAheadLog<F, T>,
    new_length: u64,
)
    ensures
        log.is_full_after(WriteResult::Entry { new_length }) <==> new_length
            >= log.config.checkpoint_after_bytes,
        !log.is_full_after(WriteResult::RolledBack),
{
}

/// A shutdown succeeds exactly if the checkpointing thread ended without an
/// error. Its error is reported as it was, and a panic as a broken pipe.
pub proof fn law_shutdown_reports_the_end_of_the_thread<E>(error: E)
    ensures
        shutdown_result_of(ThreadExit::<E>::Returned(Ok(()))) is Ok,
        shutdown_result_of(ThreadExit::Returned(Err(error))) == Err::<(), _>(
            ShutdownError::Checkpointing(error),
        ),
        shutdown_result_of(ThreadExit::<E>::Panicked) == Err::<(), _>(
            ShutdownError::<E>::BrokenPipe,
        ),
{
}

} // verus!
