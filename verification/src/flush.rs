//! The flush of a rowset: the order in which its files reach the disk.
//!
//! The library decides, the caller performs. [`RowsetFlush::next_action`]
//! says what to do next: create one file, exclusively, write it and make
//! it durable; or, once every file is durable, make the directory durable.
//! [`RowsetFlush::record`] takes note of how the action ended. The first
//! action that fails ends the flush: nothing is asked for after it, and the
//! directory is never made durable.

use crate::error::StorageError;
use vstd::prelude::*;

verus! {

/// A file as the contracts see it.
pub struct FileView {
    pub path: Seq<char>,
    pub data: Seq<u8>,
}

/// A file of a rowset: where it goes and what it holds.
#[derive(Clone, Debug, PartialEq, Eq)]
pub struct RowsetFile {
    pub path: String,
    pub data: Vec<u8>,
}

impl View for RowsetFile {
    type V = FileView;

    open spec fn view(&self) -> FileView {
        FileView { path: self.path@, data: self.data@ }
    }
}

/// How far a flush has come.
#[derive(Clone, Copy, Debug, PartialEq, Eq, Structural)]
pub enum FlushStatus {
    /// Actions are still to be performed.
    Running,
    /// Every file and the directory are durable.
    Completed,
    /// An action failed; the rowset is not to be used.
    Failed(StorageError),
}

/// How an action ended.
#[derive(Clone, Copy, Debug, PartialEq, Eq, Structural)]
pub enum IoOutcome {
    /// The action was performed in full.
    Done,
    /// The file to create exists already.
    AlreadyExists,
    /// The device failed to open, write, flush or sync.
    Failed,
}

/// What a flush asks of its caller, as the contracts see it.
pub enum ActionView {
    WriteFile(FileView),
    SyncDirectory(Seq<char>),
    Finished(Result<(), StorageError>),
}

/// What a flush asks of its caller.
#[derive(Debug)]
pub enum FlushAction<'a> {
    /// Create the file, which must not exist, write its bytes, flush them
    /// and sync the file.
    WriteFile(&'a RowsetFile),
    /// Sync the directory of the rowset.
    SyncDirectory(&'a str),
    /// Nothing is left to do; this is how the flush ended.
    Finished(Result<(), StorageError>),
}

impl<'a> View for FlushAction<'a> {
    type V = ActionView;

    open spec fn view(&self) -> ActionView {
        match self {
            FlushAction::WriteFile(file) => ActionView::WriteFile(file@),
            FlushAction::SyncDirectory(path) => ActionView::SyncDirectory(path@),
            FlushAction::Finished(result) => ActionView::Finished(*result),
        }
    }
}

/// The state of a flush, as the contracts see it.
pub struct FlushView {
    pub directory: Seq<char>,
    /// The files in the order in which they are written.
    pub files: Seq<FileView>,
    /// How many of the files are durable.
    pub written: nat,
    pub status: FlushStatus,
}

impl FlushView {
    /// A flush that has not begun.
    pub open spec fn fresh(self) -> bool {
        self.written == 0 && self.status == FlushStatus::Running
    }

    /// What the flush asks for in this state: the next file while files
    /// are left, then the sync of the directory, and nothing once it has
    /// completed or failed.
    pub open spec fn next_action(self) -> ActionView {
        match self.status {
            FlushStatus::Running => if self.written < self.files.len() {
                ActionView::WriteFile(self.files[self.written as int])
            } else {
                ActionView::SyncDirectory(self.directory)
            },
            FlushStatus::Completed => ActionView::Finished(Ok(())),
            FlushStatus::Failed(e) => ActionView::Finished(Err(e)),
        }
    }

    /// The state after the action that was asked for has ended with
    /// `outcome`. A file that exists already is a path collision; every
    /// other failure is an I/O failure. A flush that has ended stays as
    /// it is.
    pub open spec fn record(self, outcome: IoOutcome) -> FlushView {
        match self.status {
            FlushStatus::Running => if self.written < self.files.len() {
                match outcome {
                    IoOutcome::Done => FlushView { written: self.written + 1, ..self },
                    IoOutcome::AlreadyExists => FlushView {
                        status: FlushStatus::Failed(StorageError::PathCollision),
                        ..self
                    },
                    IoOutcome::Failed => FlushView {
                        status: FlushStatus::Failed(StorageError::IoFailure),
                        ..self
                    },
                }
            } else {
                match outcome {
                    IoOutcome::Done => FlushView { status: FlushStatus::Completed, ..self },
                    _ => FlushView { status: FlushStatus::Failed(StorageError::IoFailure), ..self },
                }
            },
            _ => self,
        }
    }

    /// The state after a run of actions that ended with `outcomes`.
    pub open spec fn run(self, outcomes: Seq<IoOutcome>) -> FlushView
        decreases outcomes.len(),
    {
        if outcomes.len() == 0 {
            self
        } else {
            self.run(outcomes.drop_last()).record(outcomes.last())
        }
    }
}

/// The files of a directory, by path, as a model of the disk.
pub type Directory = Map<Seq<char>, Seq<u8>>;

/// What an action does to a directory on a device that does not fail:
/// a file is created unless its path is taken, and then the directory is
/// left as it is; a sync changes no file.
pub open spec fn perform(dir: Directory, action: ActionView) -> (Directory, IoOutcome) {
    match action {
        ActionView::WriteFile(file) => if dir.contains_key(file.path) {
            (dir, IoOutcome::AlreadyExists)
        } else {
            (dir.insert(file.path, file.data), IoOutcome::Done)
        },
        _ => (dir, IoOutcome::Done),
    }
}

/// The directory and the flush after at most `steps` actions were
/// performed on the directory.
pub open spec fn drive(dir: Directory, flush: FlushView, steps: nat) -> (Directory, FlushView)
    decreases steps,
{
    if steps == 0 || flush.status != FlushStatus::Running {
        (dir, flush)
    } else {
        let (next, outcome) = perform(dir, flush.next_action());
        drive(next, flush.record(outcome), (steps - 1) as nat)
    }
}

/// The directory and the flush after the flush was carried out on the
/// directory, from its first action to its end.
pub open spec fn flush_into(dir: Directory, flush: FlushView) -> (Directory, FlushView) {
    drive(dir, flush, flush.files.len() + 1)
}

/// The shape of every run of a flush: while it runs, each action so far
/// has succeeded and as many files are durable; the directory is synced
/// only after every file has been written; and the flush completes only
/// when the sync has succeeded as well.
pub proof fn lemma_run(flush: FlushView, outcomes: Seq<IoOutcome>)
    requires
        flush.fresh(),
    ensures
        ({
            let state = flush.run(outcomes);
            let n = flush.files.len();
            &&& state.files == flush.files
            &&& state.directory == flush.directory
            &&& state.written <= n
            &&& state.status is Running ==> state.written == outcomes.len() && forall|i: int|
                0 <= i < outcomes.len() ==> outcomes[i] == IoOutcome::Done
            &&& state.status is Completed ==> state.written == n && outcomes.len() > n && forall|
                i: int,
            | 0 <= i <= n ==> outcomes[i] == IoOutcome::Done
            &&& state.next_action() is SyncDirectory <==> outcomes.len() == n && forall|i: int|
                0 <= i < n ==> outcomes[i] == IoOutcome::Done
        }),
    decreases outcomes.len(),
{
    if outcomes.len() > 0 {
        let front = outcomes.drop_last();
        lemma_run(flush, front);
        let before = flush.run(front);
        let state = flush.run(outcomes);
        let n = flush.files.len();
        assert forall|i: int| 0 <= i < front.len() implies front[i] == outcomes[i] by {}
        if state.status is Running {
            assert(before.status is Running);
            assert forall|i: int| 0 <= i < outcomes.len() implies outcomes[i]
                == IoOutcome::Done by {
                if i < front.len() {
                    assert(front[i] == IoOutcome::Done);
                }
            }
        }
        if state.status is Completed {
            if before.status is Running {
                assert forall|i: int| 0 <= i <= n implies outcomes[i] == IoOutcome::Done by {
                    if i < front.len() {
                        assert(front[i] == IoOutcome::Done);
                    }
                }
            } else {
                assert forall|i: int| 0 <= i <= n implies outcomes[i] == IoOutcome::Done by {
                    assert(front[i] == IoOutcome::Done);
                }
            }
        }
        if outcomes.len() == n && (forall|i: int| 0 <= i < n ==> outcomes[i] == IoOutcome::Done) {
            lemma_run_all_done(flush, outcomes);
        }
    }
}

/// A run in which every action so far has succeeded is still running, with
/// as many files durable as actions were performed.
pub proof fn lemma_run_all_done(flush: FlushView, outcomes: Seq<IoOutcome>)
    requires
        flush.fresh(),
        outcomes.len() <= flush.files.len(),
        forall|i: int| 0 <= i < outcomes.len() ==> outcomes[i] == IoOutcome::Done,
    ensures
        flush.run(outcomes).status is Running,
        flush.run(outcomes).written == outcomes.len(),
        flush.run(outcomes).files == flush.files,
        flush.run(outcomes).directory == flush.directory,
    decreases outcomes.len(),
{
    if outcomes.len() > 0 {
        let front = outcomes.drop_last();
        assert forall|i: int| 0 <= i < front.len() implies front[i] == IoOutcome::Done by {
            assert(front[i] == outcomes[i]);
        }
        lemma_run_all_done(flush, front);
    }
}

/// Atomicity under failure: when the write of a file fails, the flush
/// ends in failure, and at no time, before or after, does it ask for the
/// sync of the directory or count as completed.
pub proof fn lemma_failed_write_blocks_sync(
    flush: FlushView,
    outcomes: Seq<IoOutcome>,
    failed: int,
    upto: int,
)
    requires
        flush.fresh(),
        0 <= failed < outcomes.len(),
        failed < flush.files.len(),
        outcomes[failed] != IoOutcome::Done,
        0 <= upto <= outcomes.len(),
    ensures
        !(flush.run(outcomes.take(upto)).next_action() is SyncDirectory),
        !(flush.run(outcomes.take(upto)).status is Completed),
        upto > failed ==> flush.run(outcomes.take(upto)).status is Failed,
{
    let seen = outcomes.take(upto);
    lemma_run(flush, seen);
    if upto > failed {
        assert(seen[failed] == outcomes[failed]);
    }
}

/// The first failure decides how the flush ends: with a path collision
/// where a file existed already, with an I/O failure otherwise.
pub proof fn lemma_first_failure_decides(flush: FlushView, outcomes: Seq<IoOutcome>, failed: int)
    requires
        flush.fresh(),
        0 <= failed < outcomes.len(),
        failed <= flush.files.len(),
        outcomes[failed] != IoOutcome::Done,
        forall|i: int| 0 <= i < failed ==> outcomes[i] == IoOutcome::Done,
    ensures
        flush.run(outcomes).status == FlushStatus::Failed(
            if failed < flush.files.len() && outcomes[failed] == IoOutcome::AlreadyExists {
                StorageError::PathCollision
            } else {
                StorageError::IoFailure
            },
        ),
        flush.run(outcomes).written == failed,
    decreases outcomes.len(),
{
    let front = outcomes.drop_last();
    if failed == outcomes.len() - 1 {
        assert forall|i: int| 0 <= i < front.len() implies front[i] == IoOutcome::Done by {
            assert(front[i] == outcomes[i]);
        }
        lemma_run_all_done(flush, front);
    } else {
        assert(front[failed] == outcomes[failed]);
        assert forall|i: int| 0 <= i < failed implies front[i] == IoOutcome::Done by {
            assert(front[i] == outcomes[i]);
        }
        lemma_first_failure_decides(flush, front, failed);
    }
}

/// Carrying out a flush never changes a file that exists, and it leaves
/// the files and the directory of the flush as they are.
pub proof fn lemma_drive_keeps_files(dir: Directory, flush: FlushView, steps: nat)
    ensures
        forall|path: Seq<char>| #[trigger]
            dir.contains_key(path) ==> drive(dir, flush, steps).0.contains_key(path) && drive(
                dir,
                flush,
                steps,
            ).0[path] == dir[path],
        drive(dir, flush, steps).1.files == flush.files,
        flush.status is Failed ==> drive(dir, flush, steps).1.status == flush.status,
    decreases steps,
{
    if steps > 0 && flush.status == FlushStatus::Running {
        let (next, outcome) = perform(dir, flush.next_action());
        lemma_drive_keeps_files(next, flush.record(outcome), (steps - 1) as nat);
        assert forall|path: Seq<char>| #[trigger] dir.contains_key(path) implies drive(
            dir,
            flush,
            steps,
        ).0.contains_key(path) && drive(dir, flush, steps).0[path] == dir[path] by {
            assert(next.contains_key(path));
            assert(next[path] == dir[path]);
        }
    }
}

/// Exclusive creation: a flush whose first file exists already ends with
/// a path collision and leaves the directory exactly as it was.
pub proof fn lemma_existing_file_collides(dir: Directory, flush: FlushView)
    requires
        flush.fresh(),
        flush.files.len() > 0,
        dir.contains_key(flush.files[0].path),
    ensures
        flush_into(dir, flush).0 == dir,
        flush_into(dir, flush).1.status == FlushStatus::Failed(StorageError::PathCollision),
        flush_into(dir, flush).1.written == 0,
{
    reveal_with_fuel(drive, 2);
}

/// Exclusive creation, the second time: when a flush of at least one file
/// has completed on a directory, the same flush carried out again on what
/// the first left behind ends with a path collision and writes nothing.
pub proof fn lemma_second_flush_collides(dir: Directory, flush: FlushView)
    requires
        flush.fresh(),
        flush.files.len() > 0,
        flush_into(dir, flush).1.status is Completed,
    ensures
        flush_into(flush_into(dir, flush).0, flush).0 == flush_into(dir, flush).0,
        flush_into(flush_into(dir, flush).0, flush).1.status == FlushStatus::Failed(
            StorageError::PathCollision,
        ),
{
    let (first, outcome) = perform(dir, flush.next_action());
    let steps = flush.files.len();
    assert(flush_into(dir, flush) == drive(first, flush.record(outcome), steps));
    lemma_drive_keeps_files(first, flush.record(outcome), steps);
    assert(outcome == IoOutcome::Done);
    assert(first.contains_key(flush.files[0].path));
    lemma_existing_file_collides(flush_into(dir, flush).0, flush);
}

/// The flush of a rowset.
#[derive(Debug)]
pub struct RowsetFlush {
    directory: String,
    files: Vec<RowsetFile>,
    written: usize,
    status: FlushStatus,
}

impl View for RowsetFlush {
    type V = FlushView;

    closed spec fn view(&self) -> FlushView {
        FlushView {
            directory: self.directory@,
            files: Seq::new(self.files@.len(), |k: int| self.files@[k]@),
            written: self.written as nat,
            status: self.status,
        }
    }
}

impl RowsetFlush {
    #[verifier::type_invariant]
    spec fn bounded(self) -> bool {
        self.written <= self.files@.len()
    }

    /// The flush that writes `files`, in order, and then syncs `directory`.
    pub fn new(directory: String, files: Vec<RowsetFile>) -> (flush: RowsetFlush)
        ensures
            flush@.fresh(),
            flush@.directory == directory@,
            flush@.files == Seq::new(files@.len(), |k: int| files@[k]@),
    {
        RowsetFlush { directory, files, written: 0, status: FlushStatus::Running }
    }

    /// What is to be done next.
    pub fn next_action(&self) -> (action: FlushAction<'_>)
        ensures
            action@ == self@.next_action(),
    {
        proof {
            use_type_invariant(self);
        }
        match self.status {
            FlushStatus::Running => {
                if self.written < self.files.len() {
                    FlushAction::WriteFile(&self.files[self.written])
                } else {
                    FlushAction::SyncDirectory(self.directory.as_str())
                }
            },
            FlushStatus::Completed => FlushAction::Finished(Ok(())),
            FlushStatus::Failed(e) => FlushAction::Finished(Err(e)),
        }
    }

    /// Takes note of how the action that [`RowsetFlush::next_action`] asked
    /// for has ended.
    pub fn record(&mut self, outcome: IoOutcome)
        ensures
            final(self)@ == old(self)@.record(outcome),
    {
        proof {
            use_type_invariant(&*self);
        }
        match self.status {
            FlushStatus::Running => {
                if self.written < self.files.len() {
                    match outcome {
                        IoOutcome::Done => {
                            self.written = self.written + 1;
                        },
                        IoOutcome::AlreadyExists => {
                            self.status = FlushStatus::Failed(StorageError::PathCollision);
                        },
                        IoOutcome::Failed => {
                            self.status = FlushStatus::Failed(StorageError::IoFailure);
                        },
                    }
                } else {
                    match outcome {
                        IoOutcome::Done => {
                            self.status = FlushStatus::Completed;
                        },
                        _ => {
                            self.status = FlushStatus::Failed(StorageError::IoFailure);
                        },
                    }
                }
            },
            _ => {},
        }
    }

    /// How far the flush has come.
    pub fn status(&self) -> (status: FlushStatus)
        ensures
            status == self@.status,
    {
        self.status
    }

    /// How the flush ended, once it has ended.
    pub fn result(&self) -> (result: Option<Result<(), StorageError>>)
        ensures
            result == match self@.status {
                FlushStatus::Running => None::<Result<(), StorageError>>,
                FlushStatus::Completed => Some(Ok(())),
                FlushStatus::Failed(e) => Some(Err(e)),
            },
    {
        match self.status {
            FlushStatus::Running => None,
            FlushStatus::Completed => Some(Ok(())),
            FlushStatus::Failed(e) => Some(Err(e)),
        }
    }

    /// Number of files that are durable.
    pub fn files_written(&self) -> (written: usize)
        ensures
            written == self@.written,
    {
        self.written
    }

    /// Number of files of the rowset.
    pub fn file_count(&self) -> (count: usize)
        ensures
            count == self@.files.len(),
    {
        self.files.len()
    }

    /// File `k` of the rowset, in the order of writing.
    pub fn file(&self, k: usize) -> (file: &RowsetFile)
        requires
            k < self@.files.len(),
        ensures
            file@ == self@.files[k as int],
    {
        &self.files[k]
    }
}

} // verus!
