//! The batch executor: one pass over an inventory at one target speed.
//!
//! The executor decides; it does not read, write or wait. Each decision is
//! one `step`: the executor is told what happened (an event) and answers
//! with what to do next (an action). The embedding program performs the
//! action and comes back with the next event.
//!
//! For every file, in the order of the inventory: the cancellation signal is
//! checked, the file is inspected, read, transformed and, if its command line
//! changed, written. After each file the progress is published. The first
//! failure ends the batch; so does a stop request seen at a file boundary.

use vstd::prelude::*;
use vstd::string::StringExecFns;
use crate::error::SpindleSpeedUpdaterError;
use crate::inventory::{FileRecord, Inventory, Timestamp};
use crate::speed::{is_valid_speed, MAX_SPEED, MIN_SPEED};
use crate::transform::{has_spindle_command, is_changed, transform, transformed_content};

verus! {

/// How a batch ended. The count is the number of files that were done when
/// it ended.
#[derive(Debug)]
pub enum BatchOutcome {
    /// Every file of the inventory is done.
    Completed(usize),
    /// A stop request was seen at a file boundary.
    Cancelled(usize),
    /// A file could not be inspected, read, transformed or written.
    Failed(usize, SpindleSpeedUpdaterError),
}

impl BatchOutcome {
    /// The number of files that were done when the batch ended.
    pub open spec fn spec_count(&self) -> usize {
        match self {
            BatchOutcome::Completed(count) => *count,
            BatchOutcome::Cancelled(count) => *count,
            BatchOutcome::Failed(count, _) => *count,
        }
    }

    /// The number of files that were done when the batch ended.
    #[verifier::when_used_as_spec(spec_count)]
    pub fn count(&self) -> (count: usize)
        ensures
            count == self.spec_count(),
    {
        match self {
            BatchOutcome::Completed(count) => *count,
            BatchOutcome::Cancelled(count) => *count,
            BatchOutcome::Failed(count, _) => *count,
        }
    }

    /// The failure that a batch reports to whoever started it: the error of
    /// a failed batch. A completed or cancelled batch reports none.
    pub fn into_error(self) -> (error: Option<SpindleSpeedUpdaterError>)
        ensures
            error == match self {
                BatchOutcome::Failed(_, error) => Some(error),
                _ => None,
            },
    {
        match self {
            BatchOutcome::Failed(_, error) => Some(error),
            _ => None,
        }
    }
}

/// What the executor is waiting for.
#[derive(Debug)]
pub enum BatchPhase {
    /// The batch has not started.
    Idle,
    /// The progress is being published.
    Publishing,
    /// At a file boundary: the cancellation signal is being checked.
    AtBoundary,
    /// The current file is being inspected.
    Statting,
    /// The current file is being read.
    Reading,
    /// The current file is being written.
    Writing,
    /// The batch is over.
    Done(BatchOutcome),
}

/// What the embedding program reports to the executor.
#[derive(Debug)]
pub enum BatchEvent {
    /// The batch is to start.
    Started,
    /// The cancellation signal was checked; `true` if a stop was requested.
    CancelChecked(bool),
    /// The current file was inspected: its modification time, or the failure.
    StatFinished(Result<Timestamp, std::io::Error>),
    /// The current file was read: its text, or the failure.
    ReadFinished(Result<String, std::io::Error>),
    /// The current file was written, or writing failed.
    WriteFinished(Result<(), std::io::Error>),
    /// The progress was published.
    Published,
}

/// What the executor asks the embedding program to do.
#[derive(Debug)]
pub enum BatchAction {
    /// Publish `(processed, total)` to the progress tracker.
    Publish { processed: usize, total: usize },
    /// Check the cancellation signal.
    CheckCancel,
    /// Inspect the file at `path` for its modification time.
    Stat { path: String },
    /// Read the file at `path`. If `stale` is set, the file was modified
    /// since the scan, which is worth a notice and nothing more.
    Read { path: String, stale: bool },
    /// Write `content` to the file at `path`.
    Write { path: String, content: String },
    /// Nothing more: the batch is over and its outcome can be taken.
    Finish,
    /// The event did not answer what the executor is waiting for. Nothing
    /// has changed.
    Rejected,
}

/// An event as the contracts see it.
pub enum EventModel {
    Started,
    CancelChecked(bool),
    StatFinished(Result<Timestamp, std::io::Error>),
    ReadFinished(Result<Seq<char>, std::io::Error>),
    WriteFinished(Result<(), std::io::Error>),
    Published,
}

/// An action as the contracts see it.
pub enum ActionModel {
    Publish { processed: nat, total: nat },
    CheckCancel,
    Stat { path: Seq<char> },
    Read { path: Seq<char>, stale: bool },
    Write { path: Seq<char>, content: Seq<char> },
    Finish,
    Rejected,
}

impl View for BatchEvent {
    type V = EventModel;

    open spec fn view(&self) -> EventModel {
        match self {
            BatchEvent::Started => EventModel::Started,
            BatchEvent::CancelChecked(fired) => EventModel::CancelChecked(*fired),
            BatchEvent::StatFinished(result) => EventModel::StatFinished(*result),
            BatchEvent::ReadFinished(Ok(text)) => EventModel::ReadFinished(Ok(text@)),
            BatchEvent::ReadFinished(Err(error)) => EventModel::ReadFinished(Err(*error)),
            BatchEvent::WriteFinished(result) => EventModel::WriteFinished(*result),
            BatchEvent::Published => EventModel::Published,
        }
    }
}

impl View for BatchAction {
    type V = ActionModel;

    open spec fn view(&self) -> ActionModel {
        match self {
            BatchAction::Publish { processed, total } => ActionModel::Publish {
                processed: *processed as nat,
                total: *total as nat,
            },
            BatchAction::CheckCancel => ActionModel::CheckCancel,
            BatchAction::Stat { path } => ActionModel::Stat { path: path@ },
            BatchAction::Read { path, stale } => ActionModel::Read { path: path@, stale: *stale },
            BatchAction::Write { path, content } => ActionModel::Write {
                path: path@,
                content: content@,
            },
            BatchAction::Finish => ActionModel::Finish,
            BatchAction::Rejected => ActionModel::Rejected,
        }
    }
}

/// The state of a batch as the contracts see it.
pub struct BatchModel {
    /// The files of the batch, in the order in which they are worked through.
    pub files: Seq<FileRecord>,
    /// The target speed.
    pub speed: u32,
    /// The number of files that are done; also the place of the current file.
    pub processed: nat,
    /// What the executor is waiting for.
    pub phase: BatchPhase,
}

impl BatchModel {
    /// The number of files of the batch.
    pub open spec fn total(self) -> nat {
        self.files.len()
    }

    /// The file in work.
    pub open spec fn current(self) -> FileRecord {
        self.files[self.processed as int]
    }

    /// Whether the batch is over.
    pub open spec fn is_done(self) -> bool {
        self.phase is Done
    }

    /// Whether the state is one that a batch can be in: the count of done
    /// files is within the total, a file is in work only while files are
    /// left, and an outcome carries the count at which the batch ended.
    pub open spec fn wf(self) -> bool {
        &&& self.files.len() <= usize::MAX
        &&& self.processed <= self.files.len()
        &&& match self.phase {
            BatchPhase::Idle => self.processed == 0,
            BatchPhase::Publishing => true,
            BatchPhase::AtBoundary => self.processed < self.files.len(),
            BatchPhase::Statting => self.processed < self.files.len(),
            BatchPhase::Reading => self.processed < self.files.len(),
            BatchPhase::Writing => self.processed < self.files.len(),
            BatchPhase::Done(BatchOutcome::Completed(count)) => count == self.processed
                && self.processed == self.files.len(),
            BatchPhase::Done(BatchOutcome::Cancelled(count)) => count == self.processed
                && self.processed < self.files.len(),
            BatchPhase::Done(BatchOutcome::Failed(count, _)) => count == self.processed
                && self.processed < self.files.len(),
        }
    }

    /// The same batch waiting for something else.
    pub open spec fn waiting(self, phase: BatchPhase) -> BatchModel {
        BatchModel { phase, ..self }
    }

    /// The batch ended with `outcome`.
    pub open spec fn finished(self, outcome: BatchOutcome) -> (BatchModel, ActionModel) {
        (self.waiting(BatchPhase::Done(outcome)), ActionModel::Finish)
    }

    /// The batch ended because the current file failed with `error`.
    pub open spec fn failed(self, error: SpindleSpeedUpdaterError) -> (BatchModel, ActionModel) {
        self.finished(BatchOutcome::Failed(self.processed as usize, error))
    }

    /// The current file is done: the count goes up by one and is published.
    pub open spec fn advanced(self) -> (BatchModel, ActionModel) {
        (
            BatchModel { processed: self.processed + 1, phase: BatchPhase::Publishing, ..self },
            ActionModel::Publish { processed: self.processed + 1, total: self.total() },
        )
    }

    /// The answer to an event that the executor is not waiting for.
    pub open spec fn refused(self) -> (BatchModel, ActionModel) {
        if self.is_done() {
            (self, ActionModel::Finish)
        } else {
            (self, ActionModel::Rejected)
        }
    }

    /// The state after `event` and the action that answers it.
    pub open spec fn step(self, event: EventModel) -> (BatchModel, ActionModel) {
        match (self.phase, event) {
            (BatchPhase::Idle, EventModel::Started) => (
                self.waiting(BatchPhase::Publishing),
                ActionModel::Publish { processed: 0, total: self.total() },
            ),
            (BatchPhase::Publishing, EventModel::Published) => if self.processed == self.total() {
                self.finished(BatchOutcome::Completed(self.processed as usize))
            } else {
                (self.waiting(BatchPhase::AtBoundary), ActionModel::CheckCancel)
            },
            (BatchPhase::AtBoundary, EventModel::CancelChecked(fired)) => if fired {
                self.finished(BatchOutcome::Cancelled(self.processed as usize))
            } else {
                (
                    self.waiting(BatchPhase::Statting),
                    ActionModel::Stat { path: self.current().path@ },
                )
            },
            (BatchPhase::Statting, EventModel::StatFinished(Ok(modified))) => (
                self.waiting(BatchPhase::Reading),
                ActionModel::Read {
                    path: self.current().path@,
                    stale: modified != self.current().last_modified,
                },
            ),
            (BatchPhase::Statting, EventModel::StatFinished(Err(error))) => self.failed(
                SpindleSpeedUpdaterError::Io(error),
            ),
            (BatchPhase::Reading, EventModel::ReadFinished(Ok(text))) => if !has_spindle_command(
                text,
            ) {
                self.failed(SpindleSpeedUpdaterError::NoSpindleCommand)
            } else if is_changed(text, self.speed) {
                (
                    self.waiting(BatchPhase::Writing),
                    ActionModel::Write {
                        path: self.current().path@,
                        content: transformed_content(text, self.speed),
                    },
                )
            } else {
                self.advanced()
            },
            (BatchPhase::Reading, EventModel::ReadFinished(Err(error))) => self.failed(
                SpindleSpeedUpdaterError::Io(error),
            ),
            (BatchPhase::Writing, EventModel::WriteFinished(Ok(_))) => self.advanced(),
            (BatchPhase::Writing, EventModel::WriteFinished(Err(error))) => self.failed(
                SpindleSpeedUpdaterError::Io(error),
            ),
            _ => self.refused(),
        }
    }

    /// The state after `event`.
    pub open spec fn next(self, event: EventModel) -> BatchModel {
        self.step(event).0
    }

    /// The action that answers `event`.
    pub open spec fn action(self, event: EventModel) -> ActionModel {
        self.step(event).1
    }
}

/// The state after each of `events` in turn.
pub open spec fn after_events(batch: BatchModel, events: Seq<EventModel>) -> BatchModel
    decreases events.len(),
{
    if events.len() == 0 {
        batch
    } else {
        after_events(batch, events.drop_last()).next(events.last())
    }
}

/// One step keeps a batch well formed, keeps its files and its speed, and
/// never lowers the count of done files. A publication carries the count
/// and the total of the state that it leads to.
pub proof fn lemma_step(batch: BatchModel, event: EventModel)
    requires
        batch.wf(),
    ensures
        batch.next(event).wf(),
        batch.next(event).files == batch.files,
        batch.next(event).speed == batch.speed,
        batch.processed <= batch.next(event).processed <= batch.total(),
        batch.action(event) matches ActionModel::Publish { processed, total } ==> processed
            == batch.next(event).processed && total == batch.total(),
{
}

/// A batch that is over stays as it is, whatever is reported to it.
pub proof fn lemma_done_is_final(batch: BatchModel, event: EventModel)
    requires
        batch.is_done(),
    ensures
        batch.next(event) == batch,
        batch.action(event) == ActionModel::Finish,
{
}

/// A file is written only after it was read and found to hold a command
/// line that differs from the command for the target speed; what is written
/// is its transformed text.
pub proof fn lemma_write_only_changed(batch: BatchModel, event: EventModel)
    requires
        batch.action(event) is Write,
    ensures
        batch.phase is Reading,
        event matches EventModel::ReadFinished(Ok(text)) && has_spindle_command(text) && is_changed(
            text,
            batch.speed,
        ) && batch.action(event) == (ActionModel::Write {
            path: batch.current().path@,
            content: transformed_content(text, batch.speed),
        }),
{
}

/// A file that holds no spindle-speed command fails the batch with the
/// count of files done before it, and is not written.
pub proof fn lemma_no_command_fails(batch: BatchModel, text: Seq<char>)
    requires
        batch.phase is Reading,
        !has_spindle_command(text),
    ensures
        batch.step(EventModel::ReadFinished(Ok(text))) == batch.failed(
            SpindleSpeedUpdaterError::NoSpindleCommand,
        ),
        batch.action(EventModel::ReadFinished(Ok(text))) == ActionModel::Finish,
{
}

/// Whatever is reported to a batch, in whatever order: the count of done
/// files stays within the total, and of two states of which one comes
/// later, the later one has the count at least as high.
pub proof fn lemma_progress_never_falls(
    batch: BatchModel,
    events: Seq<EventModel>,
    earlier: int,
    later: int,
)
    requires
        batch.wf(),
        0 <= earlier <= later <= events.len(),
    ensures
        after_events(batch, events.take(later)).wf(),
        after_events(batch, events.take(later)).total() == batch.total(),
        after_events(batch, events.take(earlier)).processed <= after_events(
            batch,
            events.take(later),
        ).processed <= batch.total(),
    decreases later,
{
    if later == 0 {
        assert(events.take(0) =~= Seq::<EventModel>::empty());
    } else {
        let shorter = events.take(later - 1);
        assert(events.take(later).drop_last() =~= shorter);
        if earlier == later {
            lemma_progress_never_falls(batch, events, earlier - 1, later - 1);
        } else {
            lemma_progress_never_falls(batch, events, earlier, later - 1);
        }
        lemma_step(after_events(batch, shorter), events.take(later).last());
    }
}

/// The batch over `files` at `speed` before it has started.
pub open spec fn idle_batch(files: Seq<FileRecord>, speed: u32) -> BatchModel {
    BatchModel { files, speed, processed: 0, phase: BatchPhase::Idle }
}

/// The executor of one batch.
#[derive(Debug)]
pub struct BatchExecutor {
    inventory: Inventory,
    speed: u32,
    processed: usize,
    phase: BatchPhase,
}

impl View for BatchExecutor {
    type V = BatchModel;

    closed spec fn view(&self) -> BatchModel {
        BatchModel {
            files: self.inventory@,
            speed: self.speed,
            processed: self.processed as nat,
            phase: self.phase,
        }
    }
}

impl BatchExecutor {
    /// An executor for one batch over `inventory` at `speed`. The inventory
    /// belongs to the batch from here on.
    pub fn new(inventory: Inventory, speed: u32) -> (executor: Self)
        ensures
            executor@ == idle_batch(inventory@, speed),
            executor@.wf(),
    {
        let total = inventory.len();
        assert(inventory@.len() == total);
        BatchExecutor { inventory, speed, processed: 0, phase: BatchPhase::Idle }
    }

    /// The number of files of the batch.
    pub fn total(&self) -> (total: usize)
        ensures
            total == self@.total(),
    {
        self.inventory.len()
    }

    /// The number of files that are done.
    pub fn processed(&self) -> (processed: usize)
        ensures
            processed == self@.processed,
    {
        self.processed
    }

    /// The target speed.
    pub fn speed(&self) -> (speed: u32)
        ensures
            speed == self@.speed,
    {
        self.speed
    }

    /// Whether the batch is over.
    pub fn is_done(&self) -> (done: bool)
        ensures
            done == self@.is_done(),
    {
        match self.phase {
            BatchPhase::Done(_) => true,
            _ => false,
        }
    }

    /// The outcome of the batch, once it is over.
    pub fn outcome(&self) -> (outcome: Option<&BatchOutcome>)
        ensures
            match outcome {
                Some(outcome) => self@.phase == BatchPhase::Done(*outcome),
                None => !self@.is_done(),
            },
    {
        match &self.phase {
            BatchPhase::Done(outcome) => Some(outcome),
            _ => None,
        }
    }

    /// Gives up the executor for the outcome of its batch, once it is over.
    pub fn into_outcome(self) -> (outcome: Option<BatchOutcome>)
        ensures
            match outcome {
                Some(outcome) => self@.phase == BatchPhase::Done(outcome),
                None => !self@.is_done(),
            },
    {
        match self.phase {
            BatchPhase::Done(outcome) => Some(outcome),
            _ => None,
        }
    }

    /// Ends the batch with `outcome`.
    fn finish(&mut self, outcome: BatchOutcome) -> (action: BatchAction)
        ensures
            (final(self)@, action@) == old(self)@.finished(outcome),
    {
        self.phase = BatchPhase::Done(outcome);
        BatchAction::Finish
    }

    /// Ends the batch because the current file failed with `error`.
    fn fail(&mut self, error: SpindleSpeedUpdaterError) -> (action: BatchAction)
        ensures
            (final(self)@, action@) == old(self)@.failed(error),
    {
        let count = self.processed;
        self.finish(BatchOutcome::Failed(count, error))
    }

    /// Counts the current file as done and asks for the publication.
    fn advance(&mut self) -> (action: BatchAction)
        requires
            old(self)@.wf(),
            old(self)@.processed < old(self)@.total(),
        ensures
            (final(self)@, action@) == old(self)@.advanced(),
    {
        self.processed = self.processed + 1;
        self.phase = BatchPhase::Publishing;
        BatchAction::Publish { processed: self.processed, total: self.inventory.len() }
    }

    /// Answers an event that the executor is not waiting for.
    fn refuse(&self) -> (action: BatchAction)
        ensures
            (self@, action@) == self@.refused(),
    {
        if self.is_done() {
            BatchAction::Finish
        } else {
            BatchAction::Rejected
        }
    }

    /// Takes one event and decides what is to be done next.
    pub fn step(&mut self, event: BatchEvent) -> (action: BatchAction)
        requires
            old(self)@.wf(),
        ensures
            final(self)@ == old(self)@.next(event@),
            action@ == old(self)@.action(event@),
            final(self)@.wf(),
    {
        match event {
            BatchEvent::Started => match self.phase {
                BatchPhase::Idle => {
                    self.phase = BatchPhase::Publishing;
                    BatchAction::Publish { processed: 0, total: self.inventory.len() }
                },
                _ => self.refuse(),
            },
            BatchEvent::Published => match self.phase {
                BatchPhase::Publishing => {
                    if self.processed == self.inventory.len() {
                        let count = self.processed;
                        self.finish(BatchOutcome::Completed(count))
                    } else {
                        self.phase = BatchPhase::AtBoundary;
                        BatchAction::CheckCancel
                    }
                },
                _ => self.refuse(),
            },
            BatchEvent::CancelChecked(fired) => match self.phase {
                BatchPhase::AtBoundary => {
                    if fired {
                        let count = self.processed;
                        self.finish(BatchOutcome::Cancelled(count))
                    } else {
                        let path = self.inventory.record(self.processed).path.clone();
                        self.phase = BatchPhase::Statting;
                        BatchAction::Stat { path }
                    }
                },
                _ => self.refuse(),
            },
            BatchEvent::StatFinished(result) => match self.phase {
                BatchPhase::Statting => match result {
                    Ok(modified) => {
                        let record = self.inventory.record(self.processed);
                        let stale = record.is_stale(modified);
                        let path = record.path.clone();
                        self.phase = BatchPhase::Reading;
                        BatchAction::Read { path, stale }
                    },
                    Err(error) => self.fail(SpindleSpeedUpdaterError::Io(error)),
                },
                _ => self.refuse(),
            },
            BatchEvent::ReadFinished(result) => match self.phase {
                BatchPhase::Reading => match result {
                    Ok(text) => match transform(text.as_str(), self.speed) {
                        Ok(transformed) => {
                            if transformed.changed {
                                let path = self.inventory.record(self.processed).path.clone();
                                self.phase = BatchPhase::Writing;
                                BatchAction::Write { path, content: transformed.content }
                            } else {
                                self.advance()
                            }
                        },
                        Err(error) => self.fail(error),
                    },
                    Err(error) => self.fail(SpindleSpeedUpdaterError::Io(error)),
                },
                _ => self.refuse(),
            },
            BatchEvent::WriteFinished(result) => match self.phase {
                BatchPhase::Writing => match result {
                    Ok(_) => self.advance(),
                    Err(error) => self.fail(SpindleSpeedUpdaterError::Io(error)),
                },
                _ => self.refuse(),
            },
        }
    }
}

/// What `start_update_process` answers: the batch before its start, or the
/// text of the refusal.
pub open spec fn started(validated_speed: Option<u32>, files: Seq<FileRecord>) -> Result<
    BatchModel,
    Seq<char>,
> {
    match validated_speed {
        None => Err("No validated spindle speed"@),
        Some(speed) => if is_valid_speed(speed) {
            Ok(idle_batch(files, speed))
        } else {
            Err("Spindle speed must be between 1 and 24000 RPM"@)
        },
    }
}

/// Prepares a batch over a copy of `inventory`. A batch needs a target speed
/// that was validated: without one, or with one outside the accepted range,
/// no batch is made and no file is touched.
pub fn start_update_process(validated_speed: Option<u32>, inventory: &Inventory) -> (res: Result<
    BatchExecutor,
    SpindleSpeedUpdaterError,
>)
    ensures
        match started(validated_speed, inventory@) {
            Ok(batch) => res matches Ok(executor) && executor@ == batch && executor@.wf(),
            Err(text) => res matches Err(SpindleSpeedUpdaterError::InvalidSpindleSpeed(refusal))
                && refusal@ == text,
        },
{
    match validated_speed {
        None => Err(
            SpindleSpeedUpdaterError::InvalidSpindleSpeed(
                String::from_str("No validated spindle speed"),
            ),
        ),
        Some(speed) => {
            if MIN_SPEED <= speed && speed <= MAX_SPEED {
                Ok(BatchExecutor::new(inventory.clone(), speed))
            } else {
                Err(
                    SpindleSpeedUpdaterError::InvalidSpindleSpeed(
                        String::from_str("Spindle speed must be between 1 and 24000 RPM"),
                    ),
                )
            }
        },
    }
}

} // verus!
