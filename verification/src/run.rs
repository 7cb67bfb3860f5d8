//! A whole batch, from its start to its outcome.
//!
//! The executor only ever sees one event at a time. What a batch does as a
//! whole is stated here against a model of its surroundings: a disk that
//! holds the text of each file, the files on which an operation fails, and a
//! stop request that is raised once a given number of files is done. The
//! surroundings perform each action of the executor and report back, step by
//! step, as the embedding program does.

use vstd::prelude::*;
use crate::batch::{idle_batch, ActionModel, BatchModel, BatchOutcome, BatchPhase, EventModel};
use crate::error::SpindleSpeedUpdaterError;
use crate::inventory::{distinct_paths, FileRecord, Timestamp};
use crate::transform::{has_spindle_command, is_changed, transformed_content};

verus! {

/// The surroundings of a batch, as far as the batch depends on them.
pub struct World {
    /// The text of each file, by its path.
    pub disk: Map<Seq<char>, Seq<char>>,
    /// The modification time of each file, by its path.
    pub modified: Map<Seq<char>, Timestamp>,
    /// The files that cannot be inspected, each with the failure.
    pub stat_faults: Map<Seq<char>, std::io::Error>,
    /// The files that cannot be read, each with the failure.
    pub read_faults: Map<Seq<char>, std::io::Error>,
    /// The files that cannot be written, each with the failure.
    pub write_faults: Map<Seq<char>, std::io::Error>,
    /// The number of files after whose completion a stop is requested, if
    /// one is requested at all.
    pub stop_after: Option<nat>,
    /// The number of files last published as done.
    pub published: nat,
}

impl World {
    /// The failure that working on the file at `path` ends in, if it ends in
    /// one: the file cannot be inspected or read, holds no spindle-speed
    /// command, or has to be written and cannot be.
    pub open spec fn failure_of(self, path: Seq<char>, speed: u32) -> Option<
        SpindleSpeedUpdaterError,
    > {
        if self.stat_faults.contains_key(path) {
            Some(SpindleSpeedUpdaterError::Io(self.stat_faults[path]))
        } else if self.read_faults.contains_key(path) {
            Some(SpindleSpeedUpdaterError::Io(self.read_faults[path]))
        } else if !has_spindle_command(self.disk[path]) {
            Some(SpindleSpeedUpdaterError::NoSpindleCommand)
        } else if is_changed(self.disk[path], speed) && self.write_faults.contains_key(path) {
            Some(SpindleSpeedUpdaterError::Io(self.write_faults[path]))
        } else {
            None
        }
    }

    /// Whether a check of the cancellation signal finds a stop request.
    pub open spec fn stop_requested(self) -> bool {
        self.stop_after matches Some(count) && count <= self.published
    }

    /// What the surroundings report after they performed `action`, and what
    /// they are like then. `Finish` and `Rejected` ask for nothing; a run
    /// ends with them, and what stands here for them is never used.
    pub open spec fn perform(self, action: ActionModel) -> (EventModel, World) {
        match action {
            ActionModel::Publish { processed, total } => (
                EventModel::Published,
                World { published: processed, ..self },
            ),
            ActionModel::CheckCancel => (EventModel::CancelChecked(self.stop_requested()), self),
            ActionModel::Stat { path } => if self.stat_faults.contains_key(path) {
                (EventModel::StatFinished(Err(self.stat_faults[path])), self)
            } else {
                (EventModel::StatFinished(Ok(self.modified[path])), self)
            },
            ActionModel::Read { path, stale } => if self.read_faults.contains_key(path) {
                (EventModel::ReadFinished(Err(self.read_faults[path])), self)
            } else {
                (EventModel::ReadFinished(Ok(self.disk[path])), self)
            },
            ActionModel::Write { path, content } => if self.write_faults.contains_key(path) {
                (EventModel::WriteFinished(Err(self.write_faults[path])), self)
            } else {
                (
                    EventModel::WriteFinished(Ok(())),
                    World { disk: self.disk.insert(path, content), ..self },
                )
            },
            ActionModel::Finish => (EventModel::Started, self),
            ActionModel::Rejected => (EventModel::Started, self),
        }
    }
}

/// The batch and its surroundings after at most `steps` actions were
/// performed, the first of them `pending`. Nothing happens any more once the
/// executor has answered that the batch is over.
pub open spec fn run(batch: BatchModel, pending: ActionModel, world: World, steps: nat) -> (
    BatchModel,
    World,
)
    decreases steps,
{
    if steps == 0 || pending is Finish || pending is Rejected {
        (batch, world)
    } else {
        let (event, world_after) = world.perform(pending);
        let (batch_after, action) = batch.step(event);
        run(batch_after, action, world_after, (steps - 1) as nat)
    }
}

/// A batch over `files` at `speed` that is started in `world` and carried on
/// for at most `steps` actions.
pub open spec fn run_batch(files: Seq<FileRecord>, speed: u32, world: World, steps: nat) -> (
    BatchModel,
    World,
) {
    let (batch, action) = idle_batch(files, speed).step(EventModel::Started);
    run(batch, action, world, steps)
}

/// The disk after the first `count` of `files` were worked through: each of
/// them whose command line differs from the command for `speed` holds its
/// transformed text, and nothing else has changed.
pub open spec fn disk_after(
    files: Seq<FileRecord>,
    speed: u32,
    disk: Map<Seq<char>, Seq<char>>,
    count: nat,
) -> Map<Seq<char>, Seq<char>>
    decreases count,
{
    if count == 0 {
        disk
    } else {
        let before = disk_after(files, speed, disk, (count - 1) as nat);
        let path = files[count - 1].path@;
        if is_changed(disk[path], speed) {
            before.insert(path, transformed_content(disk[path], speed))
        } else {
            before
        }
    }
}

/// The text that a file holds once a batch at `speed` is through with it.
pub open spec fn text_after(text: Seq<char>, speed: u32) -> Seq<char> {
    if is_changed(text, speed) {
        transformed_content(text, speed)
    } else {
        text
    }
}

/// Working through the first `count` files leaves every other path alone.
pub proof fn lemma_disk_after_elsewhere(
    files: Seq<FileRecord>,
    speed: u32,
    disk: Map<Seq<char>, Seq<char>>,
    count: nat,
    path: Seq<char>,
)
    requires
        count <= files.len(),
        forall|j: int| 0 <= j < count ==> (#[trigger] files[j]).path@ != path,
    ensures
        disk_after(files, speed, disk, count)[path] == disk[path],
        disk_after(files, speed, disk, count).dom().contains(path) == disk.dom().contains(path),
    decreases count,
{
    if count > 0 {
        lemma_disk_after_elsewhere(files, speed, disk, (count - 1) as nat, path);
        assert(files[count - 1].path@ != path);
    }
}

/// Working through the first `count` files leaves each of them with the
/// text that the transform gives it.
pub proof fn lemma_disk_after_done(
    files: Seq<FileRecord>,
    speed: u32,
    disk: Map<Seq<char>, Seq<char>>,
    count: nat,
    index: int,
)
    requires
        count <= files.len(),
        distinct_paths(files),
        0 <= index < count,
    ensures
        disk_after(files, speed, disk, count)[files[index].path@] == text_after(
            disk[files[index].path@],
            speed,
        ),
    decreases count,
{
    let path = files[index].path@;
    if index == count - 1 {
        assert forall|j: int| 0 <= j < count - 1 implies (#[trigger] files[j]).path@ != path by {
            assert(files[j].path@ != files[index].path@);
        }
        lemma_disk_after_elsewhere(files, speed, disk, (count - 1) as nat, path);
    } else {
        lemma_disk_after_done(files, speed, disk, (count - 1) as nat, index);
        assert(files[index].path@ != files[count - 1].path@);
    }
}

/// How a batch ends when it has worked through the files before `end`
/// without failure or stop request: completed if no file is left, cancelled
/// if a stop is requested at the boundary before the file at `end`, failed
/// with the failure of that file otherwise.
pub open spec fn ending(files: Seq<FileRecord>, speed: u32, world: World, end: nat) -> BatchOutcome {
    if end >= files.len() {
        BatchOutcome::Completed(end as usize)
    } else if world.stop_after matches Some(count) && count <= end {
        BatchOutcome::Cancelled(end as usize)
    } else {
        BatchOutcome::Failed(end as usize, world.failure_of(files[end as int].path@, speed)->Some_0)
    }
}

/// Whether a batch that has worked through the files before `from` gets as
/// far as the file at `end` and no further: no stop is requested before
/// `end`, no file from `from` up to `end` fails, and at `end` the files are
/// used up, a stop is requested or the file fails.
pub open spec fn runs_until(
    files: Seq<FileRecord>,
    speed: u32,
    world: World,
    from: nat,
    end: nat,
) -> bool {
    &&& from <= end <= files.len()
    &&& forall|j: int| from <= j < end ==> world.failure_of((#[trigger] files[j]).path@, speed) is None
    &&& world.stop_after matches Some(count) ==> count >= end
    &&& end < files.len() ==> (world.stop_after == Some(end) || world.failure_of(
        files[end as int].path@,
        speed,
    ) is Some)
}

/// The batch right after the file before `count` is done: its progress
/// waits to be published.
pub open spec fn publishing(files: Seq<FileRecord>, speed: u32, count: nat) -> BatchModel {
    BatchModel { files, speed, processed: count, phase: BatchPhase::Publishing }
}

/// From the publication of `from` done files on, the batch works through
/// the files up to `end` and ends there as `ending` says, with the disk as
/// `disk_after` says.
proof fn lemma_run_from(
    files: Seq<FileRecord>,
    speed: u32,
    start: World,
    world: World,
    from: nat,
    end: nat,
    steps: nat,
)
    requires
        files.len() <= usize::MAX,
        distinct_paths(files),
        runs_until(files, speed, start, from, end),
        world == (World { disk: disk_after(files, speed, start.disk, from), ..world }),
        start == (World { disk: start.disk, published: start.published, ..world }),
        steps >= 5 * (end - from) + 5,
    ensures
        run(
            publishing(files, speed, from),
            ActionModel::Publish { processed: from, total: files.len() },
            world,
            steps,
        ) == (
            publishing(files, speed, end).waiting(
                BatchPhase::Done(ending(files, speed, start, end)),
            ),
            World { disk: disk_after(files, speed, start.disk, end), published: end, ..start },
        ),
    decreases end - from,
{
    reveal_with_fuel(run, 7);
    let total = files.len();
    let last = World { disk: disk_after(files, speed, start.disk, end), published: end, ..start };
    let batch0 = publishing(files, speed, from);
    let action0 = ActionModel::Publish { processed: from, total };
    let (event0, world1) = world.perform(action0);
    let (batch1, action1) = batch0.step(event0);
    assert(world1 == World { published: from, ..world });
    assert(run(batch0, action0, world, steps) == run(batch1, action1, world1, (steps - 1) as nat));
    if from == total {
        assert(action1 is Finish);
        assert(world1 =~= last);
    } else {
        let (event1, world2) = world1.perform(action1);
        let (batch2, action2) = batch1.step(event1);
        assert(world2 == world1);
        assert(run(batch1, action1, world1, (steps - 1) as nat) == run(
            batch2,
            action2,
            world2,
            (steps - 2) as nat,
        ));
        if world1.stop_requested() {
            assert(from == end);
            assert(action2 is Finish);
            assert(world2 =~= last);
        } else {
            let path = files[from as int].path@;
            assert forall|j: int| 0 <= j < from implies (#[trigger] files[j]).path@ != path by {
                assert(files[j].path@ != files[from as int].path@);
            }
            lemma_disk_after_elsewhere(files, speed, start.disk, from, path);
            let text = start.disk[path];
            assert(world2.disk[path] == text);
            let failure = start.failure_of(path, speed);
            if failure is Some {
                assert(from == end) by {
                    if from < end {
                        assert(start.failure_of(files[from as int].path@, speed) is None);
                    }
                }
            } else {
                assert(from < end);
            }
            let (event2, world3) = world2.perform(action2);
            let (batch3, action3) = batch2.step(event2);
            assert(world3 == world2);
            assert(run(batch2, action2, world2, (steps - 2) as nat) == run(
                batch3,
                action3,
                world3,
                (steps - 3) as nat,
            ));
            if start.stat_faults.contains_key(path) {
                assert(action3 is Finish);
                assert(world3 =~= last);
            } else {
                let (event3, world4) = world3.perform(action3);
                let (batch4, action4) = batch3.step(event3);
                assert(world4 == world3);
                assert(run(batch3, action3, world3, (steps - 3) as nat) == run(
                    batch4,
                    action4,
                    world4,
                    (steps - 4) as nat,
                ));
                if start.read_faults.contains_key(path) {
                    assert(action4 is Finish);
                    assert(world4 =~= last);
                } else if !has_spindle_command(text) {
                    assert(event3 == EventModel::ReadFinished(Ok(text)));
                    assert(action4 is Finish);
                    assert(world4 =~= last);
                } else {
                    assert(event3 == EventModel::ReadFinished(Ok(text)));
                    let next = (from + 1) as nat;
                    if is_changed(text, speed) {
                        let (event4, world5) = world4.perform(action4);
                        let (batch5, action5) = batch4.step(event4);
                        assert(run(batch4, action4, world4, (steps - 4) as nat) == run(
                            batch5,
                            action5,
                            world5,
                            (steps - 5) as nat,
                        ));
                        if start.write_faults.contains_key(path) {
                            assert(action5 is Finish);
                            assert(world5 =~= last);
                        } else {
                            assert(world5.disk == disk_after(files, speed, start.disk, next));
                            assert(batch5 == publishing(files, speed, next));
                            lemma_run_from(
                                files,
                                speed,
                                start,
                                world5,
                                next,
                                end,
                                (steps - 5) as nat,
                            );
                        }
                    } else {
                        assert(world4.disk == disk_after(files, speed, start.disk, next));
                        assert(batch4 == publishing(files, speed, next));
                        lemma_run_from(files, speed, start, world4, next, end, (steps - 4) as nat);
                    }
                }
            }
        }
    }
}

/// What a batch comes to. If the batch gets as far as the file at `end`, then
/// after enough steps it is over with the outcome that `ending` names, the
/// files before `end` hold their transformed text, and every other file is
/// as it was.
pub proof fn lemma_batch_outcome(
    files: Seq<FileRecord>,
    speed: u32,
    world: World,
    end: nat,
    steps: nat,
)
    requires
        files.len() <= usize::MAX,
        distinct_paths(files),
        runs_until(files, speed, world, 0, end),
        steps >= 5 * end + 5,
    ensures
        run_batch(files, speed, world, steps).0.phase == BatchPhase::Done(
            ending(files, speed, world, end),
        ),
        run_batch(files, speed, world, steps).0.processed == end,
        run_batch(files, speed, world, steps).1.disk == disk_after(files, speed, world.disk, end),
        forall|i: int|
            0 <= i < end ==> run_batch(files, speed, world, steps).1.disk[(
            #[trigger] files[i]).path@] == text_after(world.disk[files[i].path@], speed),
        forall|i: int|
            end <= i < files.len() ==> run_batch(files, speed, world, steps).1.disk[(
            #[trigger] files[i]).path@] == world.disk[files[i].path@],
{
    lemma_run_from(files, speed, world, world, 0, end, steps);
    let after = disk_after(files, speed, world.disk, end);
    assert forall|i: int| 0 <= i < end implies after[(#[trigger] files[i]).path@] == text_after(
        world.disk[files[i].path@],
        speed,
    ) by {
        lemma_disk_after_done(files, speed, world.disk, end, i);
    }
    assert forall|i: int| end <= i < files.len() implies after[(#[trigger] files[i]).path@]
        == world.disk[files[i].path@] by {
        let path = files[i].path@;
        assert forall|j: int| 0 <= j < end implies (#[trigger] files[j]).path@ != path by {
            assert(files[j].path@ != files[i].path@);
        }
        lemma_disk_after_elsewhere(files, speed, world.disk, end, path);
    }
}

/// A stop request that is raised once exactly `count` files are done, while
/// files are left, ends the batch as cancelled with that count: the files
/// done by then hold their transformed text, and every later file is as it
/// was.
pub proof fn lemma_cancelled_after(
    files: Seq<FileRecord>,
    speed: u32,
    world: World,
    count: nat,
    steps: nat,
)
    requires
        files.len() <= usize::MAX,
        distinct_paths(files),
        count < files.len(),
        world.stop_after == Some(count),
        forall|i: int| 0 <= i < count ==> world.failure_of((#[trigger] files[i]).path@, speed) is None,
        steps >= 5 * count + 5,
    ensures
        run_batch(files, speed, world, steps).0.phase == BatchPhase::Done(
            BatchOutcome::Cancelled(count as usize),
        ),
        forall|i: int|
            0 <= i < count ==> run_batch(files, speed, world, steps).1.disk[(
            #[trigger] files[i]).path@] == text_after(world.disk[files[i].path@], speed),
        forall|i: int|
            count <= i < files.len() ==> run_batch(files, speed, world, steps).1.disk[(
            #[trigger] files[i]).path@] == world.disk[files[i].path@],
{
    lemma_batch_outcome(files, speed, world, count, steps);
}

/// A batch none of whose files fails, and that is not asked to stop while
/// files are left, completes with the number of its files, each of which
/// then holds its transformed text. A stop that is requested only when
/// every file is done comes too late to be seen.
pub proof fn lemma_completed(files: Seq<FileRecord>, speed: u32, world: World, steps: nat)
    requires
        files.len() <= usize::MAX,
        distinct_paths(files),
        world.stop_after matches Some(count) ==> count >= files.len(),
        forall|i: int|
            0 <= i < files.len() ==> world.failure_of((#[trigger] files[i]).path@, speed) is None,
        steps >= 5 * files.len() + 5,
    ensures
        run_batch(files, speed, world, steps).0.phase == BatchPhase::Done(
            BatchOutcome::Completed(files.len() as usize),
        ),
        forall|i: int|
            0 <= i < files.len() ==> run_batch(files, speed, world, steps).1.disk[(
            #[trigger] files[i]).path@] == text_after(world.disk[files[i].path@], speed),
{
    lemma_batch_outcome(files, speed, world, files.len(), steps);
}

/// The first file that fails ends the batch with its failure, unless a stop
/// is seen before: the outcome carries the number of files done before it,
/// those files hold their transformed text, and the failing file and every
/// later one are as they were.
pub proof fn lemma_failed_at(
    files: Seq<FileRecord>,
    speed: u32,
    world: World,
    index: nat,
    error: SpindleSpeedUpdaterError,
    steps: nat,
)
    requires
        files.len() <= usize::MAX,
        distinct_paths(files),
        index < files.len(),
        world.stop_after matches Some(count) ==> count > index,
        forall|i: int| 0 <= i < index ==> world.failure_of((#[trigger] files[i]).path@, speed) is None,
        world.failure_of(files[index as int].path@, speed) == Some(error),
        steps >= 5 * index + 5,
    ensures
        run_batch(files, speed, world, steps).0.phase == BatchPhase::Done(
            BatchOutcome::Failed(index as usize, error),
        ),
        forall|i: int|
            0 <= i < index ==> run_batch(files, speed, world, steps).1.disk[(
            #[trigger] files[i]).path@] == text_after(world.disk[files[i].path@], speed),
        forall|i: int|
            index <= i < files.len() ==> run_batch(files, speed, world, steps).1.disk[(
            #[trigger] files[i]).path@] == world.disk[files[i].path@],
{
    lemma_batch_outcome(files, speed, world, index, steps);
}

/// A file without a spindle-speed command, if it can be inspected and read
/// and is the first to fail, ends the batch with `NoSpindleCommand` and stays
/// on the disk as it was.
pub proof fn lemma_missing_command_fails(
    files: Seq<FileRecord>,
    speed: u32,
    world: World,
    index: nat,
    steps: nat,
)
    requires
        files.len() <= usize::MAX,
        distinct_paths(files),
        index < files.len(),
        world.stop_after matches Some(count) ==> count > index,
        forall|i: int| 0 <= i < index ==> world.failure_of((#[trigger] files[i]).path@, speed) is None,
        !world.stat_faults.contains_key(files[index as int].path@),
        !world.read_faults.contains_key(files[index as int].path@),
        !has_spindle_command(world.disk[files[index as int].path@]),
        steps >= 5 * index + 5,
    ensures
        run_batch(files, speed, world, steps).0.phase == BatchPhase::Done(
            BatchOutcome::Failed(index as usize, SpindleSpeedUpdaterError::NoSpindleCommand),
        ),
        run_batch(files, speed, world, steps).1.disk[files[index as int].path@]
            == world.disk[files[index as int].path@],
{
    lemma_failed_at(files, speed, world, index, SpindleSpeedUpdaterError::NoSpindleCommand, steps);
}

} // verus!
