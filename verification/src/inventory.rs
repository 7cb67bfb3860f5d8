//! The inventory of files that a batch works through.
//!
//! An inventory maps each path to one record. It is built afresh by every
//! scan from what the directory walk reported: regular files whose extension
//! is exactly `tap` are taken, everything else is passed over, and a single
//! failure while walking discards the whole scan.

use vstd::prelude::*;
use vstd::std_specs::iter::IteratorSpec;
use vstd::string::StringExecFns;
use crate::error::SpindleSpeedUpdaterError;
use crate::text::chars_of;

verus! {

/// A point in time: seconds and nanoseconds since the Unix epoch.
#[derive(Clone, Copy, Debug, PartialEq, Eq, Structural)]
pub struct Timestamp {
    pub seconds: i64,
    pub nanoseconds: u32,
}

/// What one scan recorded of a file.
#[derive(Debug)]
pub struct FileRecord {
    /// The absolute path of the file.
    pub path: String,
    /// When the file was last modified, as seen by the scan.
    pub last_modified: Timestamp,
}

impl Clone for FileRecord {
    fn clone(&self) -> (copy: Self)
        ensures
            copy == *self,
    {
        FileRecord { path: self.path.clone(), last_modified: self.last_modified }
    }
}

impl FileRecord {
    /// Whether the file has been modified since it was recorded: the time
    /// seen now differs from the recorded one. A stale record is a reason
    /// for a notice, never for skipping the file.
    pub fn is_stale(&self, current: Timestamp) -> (stale: bool)
        ensures
            stale == (current != self.last_modified),
    {
        current != self.last_modified
    }
}

/// One entry of a directory walk.
#[derive(Debug)]
pub struct ScannedEntry {
    /// The absolute path of the entry.
    pub path: String,
    /// The last component of the path.
    pub file_name: String,
    /// Whether the entry is a regular file.
    pub is_file: bool,
    /// When the entry was last modified.
    pub last_modified: Timestamp,
}

/// Whether a file of this name has the extension `tap`: the name ends in
/// `.tap` and something stands before that dot.
pub open spec fn is_tap_name(name: Seq<char>) -> bool {
    name.len() > 4 && name.subrange(name.len() - 4, name.len() as int) == seq!['.', 't', 'a', 'p']
}

/// Whether a scan takes `entry` into the inventory.
pub open spec fn is_selected(entry: ScannedEntry) -> bool {
    entry.is_file && is_tap_name(entry.file_name@)
}

/// The record that a scan keeps of `entry`.
pub open spec fn record_of(entry: ScannedEntry) -> FileRecord {
    FileRecord { path: entry.path, last_modified: entry.last_modified }
}

/// The index of the first of `records` with the path `path`, or their number
/// if none has it.
pub open spec fn find_path(records: Seq<FileRecord>, path: Seq<char>) -> nat
    decreases records.len(),
{
    if records.len() == 0 || records[0].path@ == path {
        0
    } else {
        1 + find_path(records.drop_first(), path)
    }
}

/// Whether no two of `records` have the same path.
pub open spec fn distinct_paths(records: Seq<FileRecord>) -> bool {
    forall|i: int, j: int|
        0 <= i < j < records.len() ==> (#[trigger] records[i]).path@ != (#[trigger] records[j]).path@
}

/// `records` after `record` was put in: in the place of the record with the
/// same path if there is one, else at the end.
pub open spec fn with_record(records: Seq<FileRecord>, record: FileRecord) -> Seq<FileRecord> {
    let index = find_path(records, record.path@);
    if index < records.len() {
        records.update(index as int, record)
    } else {
        records.push(record)
    }
}

/// The index of the first failure among `entries`, or their number if the
/// walk reported none.
pub open spec fn first_failure(entries: Seq<Result<ScannedEntry, std::io::Error>>) -> nat
    decreases entries.len(),
{
    if entries.len() == 0 || entries[0] is Err {
        0
    } else {
        1 + first_failure(entries.drop_first())
    }
}

/// The records of the selected entries among `entries`, each path once: a
/// later entry takes the place of an earlier one with the same path.
pub open spec fn indexed(entries: Seq<Result<ScannedEntry, std::io::Error>>) -> Seq<FileRecord>
    decreases entries.len(),
{
    if entries.len() == 0 {
        Seq::empty()
    } else {
        let before = indexed(entries.drop_last());
        match entries.last() {
            Ok(entry) => if is_selected(entry) {
                with_record(before, record_of(entry))
            } else {
                before
            },
            Err(_) => before,
        }
    }
}

/// `find_path` is at most the number of records, no record before it has the
/// path, and the record at it has the path unless there is none.
pub proof fn lemma_find_path(records: Seq<FileRecord>, path: Seq<char>)
    ensures
        find_path(records, path) <= records.len(),
        forall|j: int| 0 <= j < find_path(records, path) ==> (#[trigger] records[j]).path@ != path,
        find_path(records, path) < records.len() ==> records[find_path(records, path) as int].path@
            == path,
    decreases records.len(),
{
    if records.len() == 0 || records[0].path@ == path {
    } else {
        let rest = records.drop_first();
        lemma_find_path(rest, path);
        assert forall|j: int| 0 <= j < find_path(records, path) implies (
        #[trigger] records[j]).path@ != path by {
            if j > 0 {
                assert(records[j] == rest[j - 1]);
            }
        }
    }
}

/// An index with the three properties of `lemma_find_path` is what
/// `find_path` gives.
pub proof fn lemma_find_path_is(records: Seq<FileRecord>, path: Seq<char>, k: int)
    requires
        0 <= k <= records.len(),
        forall|j: int| 0 <= j < k ==> (#[trigger] records[j]).path@ != path,
        k < records.len() ==> records[k].path@ == path,
    ensures
        find_path(records, path) == k as nat,
    decreases records.len(),
{
    if records.len() == 0 {
    } else if records[0].path@ == path {
        if k > 0 {
            assert(records[0].path@ != path);
        }
    } else {
        let rest = records.drop_first();
        assert forall|j: int| 0 <= j < k - 1 implies (#[trigger] rest[j]).path@ != path by {
            assert(rest[j] == records[j + 1]);
        }
        lemma_find_path_is(rest, path, k - 1);
    }
}

/// Whether one of `records` has the path `path`.
pub open spec fn has_path(records: Seq<FileRecord>, path: Seq<char>) -> bool {
    find_path(records, path) < records.len()
}

/// The record that `records` hold for `path`.
pub open spec fn lookup(records: Seq<FileRecord>, path: Seq<char>) -> Option<FileRecord> {
    if has_path(records, path) {
        Some(records[find_path(records, path) as int])
    } else {
        None
    }
}

/// Whether `entry` is a selected entry with the record `record`.
pub open spec fn yields(entry: Result<ScannedEntry, std::io::Error>, record: FileRecord) -> bool {
    entry matches Ok(scanned) && is_selected(scanned) && record_of(scanned) == record
}

/// Whether `entry` is a selected entry with the path `path`.
pub open spec fn selected_at(entry: Result<ScannedEntry, std::io::Error>, path: Seq<char>) -> bool {
    entry matches Ok(scanned) && is_selected(scanned) && scanned.path@ == path
}

/// Whether `record` is the record of a selected entry among `entries`.
pub open spec fn comes_from(
    entries: Seq<Result<ScannedEntry, std::io::Error>>,
    record: FileRecord,
) -> bool {
    exists|j: int| 0 <= j < entries.len() && yields(#[trigger] entries[j], record)
}

/// Records with distinct paths are a map from paths to records: putting a
/// record in sets what is held for its path and leaves every other path as
/// it was.
pub proof fn lemma_with_record_is_map_insert(
    records: Seq<FileRecord>,
    record: FileRecord,
    path: Seq<char>,
)
    requires
        distinct_paths(records),
    ensures
        lookup(with_record(records, record), path) == if path == record.path@ {
            Some(record)
        } else {
            lookup(records, path)
        },
{
    lemma_find_path(records, record.path@);
    lemma_find_path(records, path);
    let after = with_record(records, record);
    let place = find_path(records, record.path@) as int;
    let found = find_path(records, path) as int;
    if path == record.path@ {
        assert forall|j: int| 0 <= j < place implies (#[trigger] after[j]).path@ != path by {
            assert(after[j] == records[j]);
        }
        lemma_find_path_is(after, path, place);
    } else if found < records.len() {
        assert forall|j: int| 0 <= j < found implies (#[trigger] after[j]).path@ != path by {
            if j == place {
            } else {
                assert(after[j] == records[j]);
            }
        }
        assert(after[found] == records[found]);
        lemma_find_path_is(after, path, found);
    } else {
        assert forall|j: int| 0 <= j < after.len() implies (#[trigger] after[j]).path@ != path by {
            if j == place {
            } else {
                assert(after[j] == records[j]);
            }
        }
        lemma_find_path_is(after, path, after.len() as int);
    }
}

/// What a scan indexes: no path twice, nothing but selected entries, and
/// every selected entry's path.
pub proof fn lemma_indexed(entries: Seq<Result<ScannedEntry, std::io::Error>>)
    ensures
        distinct_paths(indexed(entries)),
        forall|i: int|
            0 <= i < indexed(entries).len() ==> comes_from(entries, #[trigger] indexed(entries)[i]),
        forall|j: int, path: Seq<char>|
            0 <= j < entries.len() && selected_at(#[trigger] entries[j], path) ==> #[trigger] has_path(
                indexed(entries),
                path,
            ),
    decreases entries.len(),
{
    if entries.len() == 0 {
    } else {
        let shorter = entries.drop_last();
        let before = indexed(shorter);
        let after = indexed(entries);
        let last = entries.len() - 1;
        lemma_indexed(shorter);
        assert forall|j: int| 0 <= j < last implies entries[j] == shorter[j] by {}
        if entries.last() matches Ok(scanned) && is_selected(scanned) {
            let scanned = entries.last()->Ok_0;
            let record = record_of(scanned);
            lemma_with_record_distinct(before, record);
            lemma_find_path(before, record.path@);
            let place = find_path(before, record.path@) as int;
            assert forall|i: int| 0 <= i < after.len() implies comes_from(
                entries,
                #[trigger] after[i],
            ) by {
                if i == place {
                    assert(yields(entries[last], after[i]));
                } else {
                    assert(after[i] == before[i]);
                    assert(comes_from(shorter, before[i]));
                    let j = choose|j: int|
                        0 <= j < shorter.len() && yields(#[trigger] shorter[j], before[i]);
                    assert(entries[j] == shorter[j]);
                    assert(yields(entries[j], after[i]));
                }
            }
            assert forall|j: int, path: Seq<char>|
                0 <= j < entries.len() && selected_at(
                    #[trigger] entries[j],
                    path,
                ) implies #[trigger] has_path(after, path) by {
                lemma_with_record_is_map_insert(before, record, path);
                if j < last {
                    assert(entries[j] == shorter[j]);
                    assert(selected_at(shorter[j], path));
                    assert(has_path(before, path));
                }
            }
        } else {
            assert(after == before);
            assert forall|i: int| 0 <= i < after.len() implies comes_from(
                entries,
                #[trigger] after[i],
            ) by {
                assert(comes_from(shorter, before[i]));
                let j = choose|j: int|
                    0 <= j < shorter.len() && yields(#[trigger] shorter[j], before[i]);
                assert(entries[j] == shorter[j]);
                assert(yields(entries[j], after[i]));
            }
            assert forall|j: int, path: Seq<char>|
                0 <= j < entries.len() && selected_at(
                    #[trigger] entries[j],
                    path,
                ) implies #[trigger] has_path(after, path) by {
                assert(j < last);
                assert(entries[j] == shorter[j]);
                assert(selected_at(shorter[j], path));
            }
        }
    }
}

/// A walk without a failure so far stays so with a good entry, and has its
/// first failure at a bad one.
pub proof fn lemma_first_failure_push(
    entries: Seq<Result<ScannedEntry, std::io::Error>>,
    entry: Result<ScannedEntry, std::io::Error>,
)
    requires
        first_failure(entries) == entries.len(),
    ensures
        first_failure(entries.push(entry)) == if entry is Ok {
            entries.len() + 1
        } else {
            entries.len()
        },
    decreases entries.len(),
{
    let longer = entries.push(entry);
    if entries.len() == 0 {
        assert(longer[0] == entry);
        assert(longer.drop_first() =~= entries);
    } else {
        assert(longer[0] == entries[0]);
        assert(longer.drop_first() =~= entries.drop_first().push(entry));
        lemma_first_failure_push(entries.drop_first(), entry);
    }
}

/// If the entries before a bad entry are all good, the bad entry is the
/// first failure of the whole walk.
pub proof fn lemma_first_failure_prefix(
    entries: Seq<Result<ScannedEntry, std::io::Error>>,
    k: int,
)
    requires
        0 <= k < entries.len(),
        first_failure(entries.take(k)) == k,
        entries[k] is Err,
    ensures
        first_failure(entries) == k,
    decreases k,
{
    if k == 0 {
    } else {
        let prefix = entries.take(k);
        assert(prefix[0] == entries[0]);
        assert(prefix.drop_first() =~= entries.drop_first().take(k - 1));
        lemma_first_failure_prefix(entries.drop_first(), k - 1);
    }
}

/// Putting a record in keeps the paths distinct.
pub proof fn lemma_with_record_distinct(records: Seq<FileRecord>, record: FileRecord)
    requires
        distinct_paths(records),
    ensures
        distinct_paths(with_record(records, record)),
{
    lemma_find_path(records, record.path@);
    let index = find_path(records, record.path@) as int;
    let after = with_record(records, record);
    assert forall|i: int, j: int| 0 <= i < j < after.len() implies (#[trigger] after[i]).path@ != (
    #[trigger] after[j]).path@ by {
        if index < records.len() {
            assert(after[i].path@ == records[i].path@);
            assert(after[j].path@ == records[j].path@);
        } else {
            if j < records.len() {
                assert(after[i] == records[i]);
                assert(after[j] == records[j]);
            } else {
                assert(after[i] == records[i]);
            }
        }
    }
}

/// The files of one scan, each path once, in the order in which the batch
/// goes through them.
#[derive(Debug)]
pub struct Inventory {
    records: Vec<FileRecord>,
}

impl View for Inventory {
    type V = Seq<FileRecord>;

    /// The records, in the order of iteration.
    closed spec fn view(&self) -> Seq<FileRecord> {
        self.records@
    }
}

impl Clone for Inventory {
    /// A copy that shares nothing with `self`, so that a later scan cannot
    /// disturb a batch that took the copy.
    fn clone(&self) -> (copy: Self)
        ensures
            copy@ == self@,
    {
        let mut records: Vec<FileRecord> = Vec::new();
        let mut i: usize = 0;
        while i < self.records.len()
            invariant
                i <= self.records.len(),
                records@ == self.records@.take(i as int),
            decreases self.records.len() - i,
        {
            records.push(self.records[i].clone());
            assert(records@ =~= self.records@.take(i + 1));
            i += 1;
        }
        assert(records@ =~= self.records@);
        Inventory { records }
    }
}

impl Inventory {
    /// Whether the inventory is well formed: no two of its records have the
    /// same path.
    pub open spec fn wf(&self) -> bool {
        distinct_paths(self@)
    }

    /// An inventory without files.
    pub fn new() -> (inventory: Self)
        ensures
            inventory@ == Seq::<FileRecord>::empty(),
            inventory.wf(),
    {
        Inventory { records: Vec::new() }
    }

    /// The number of files.
    pub fn len(&self) -> (n: usize)
        ensures
            n == self@.len(),
    {
        self.records.len()
    }

    /// Whether the inventory holds no file.
    pub fn is_empty(&self) -> (empty: bool)
        ensures
            empty == (self@.len() == 0),
    {
        self.records.len() == 0
    }

    /// The record at `index` in the order of iteration, if there is one.
    pub fn get(&self, index: usize) -> (record: Option<&FileRecord>)
        ensures
            index < self@.len() ==> record == Some(&self@[index as int]),
            index >= self@.len() ==> record is None,
    {
        if index < self.records.len() {
            Some(&self.records[index])
        } else {
            None
        }
    }

    /// The record at `index` in the order of iteration.
    pub fn record(&self, index: usize) -> (record: &FileRecord)
        requires
            index < self@.len(),
        ensures
            *record == self@[index as int],
    {
        &self.records[index]
    }

    /// The place of the record with the path `path`, if there is one.
    pub fn position(&self, path: &str) -> (index: Option<usize>)
        ensures
            match index {
                Some(i) => i < self@.len() && i == find_path(self@, path@),
                None => find_path(self@, path@) == self@.len(),
            },
    {
        let wanted = String::from_str(path);
        let mut i: usize = 0;
        while i < self.records.len()
            invariant
                i <= self.records.len(),
                wanted@ == path@,
                forall|j: int| 0 <= j < i ==> (#[trigger] self.records@[j]).path@ != path@,
            decreases self.records.len() - i,
        {
            if self.records[i].path == wanted {
                proof {
                    lemma_find_path_is(self.records@, path@, i as int);
                }
                return Some(i);
            }
            i += 1;
        }
        proof {
            lemma_find_path_is(self.records@, path@, i as int);
        }
        None
    }

    /// Puts `record` in. If the inventory already has a record with this
    /// path, the new one takes its place and the old one is returned.
    pub fn insert(&mut self, record: FileRecord) -> (replaced: Option<FileRecord>)
        requires
            old(self).wf(),
        ensures
            final(self).wf(),
            final(self)@ == with_record(old(self)@, record),
            match replaced {
                Some(previous) => find_path(old(self)@, record.path@) < old(self)@.len()
                    && previous == old(self)@[find_path(old(self)@, record.path@) as int],
                None => find_path(old(self)@, record.path@) == old(self)@.len(),
            },
    {
        proof {
            lemma_with_record_distinct(self.records@, record);
        }
        let found = self.position(record.path.as_str());
        match found {
            Some(index) => {
                self.records.push(record);
                let previous = self.records.swap_remove(index);
                assert(self.records@ =~= with_record(old(self).records@, record));
                Some(previous)
            },
            None => {
                self.records.push(record);
                None
            },
        }
    }
}

/// Whether a file of this name has the extension `tap`.
pub fn is_tap_file_name(name: &str) -> (b: bool)
    ensures
        b == is_tap_name(name@),
{
    let chars = chars_of(name);
    let n = chars.len();
    if n <= 4 {
        return false;
    }
    let matches = chars[n - 4] == '.' && chars[n - 3] == 't' && chars[n - 2] == 'a' && chars[n - 1]
        == 'p';
    proof {
        let tail = name@.subrange(n - 4, n as int);
        let wanted = seq!['.', 't', 'a', 'p'];
        if matches {
            assert(tail =~= wanted);
        } else {
            assert(tail[0] == chars@[n - 4]);
            assert(tail[1] == chars@[n - 3]);
            assert(tail[2] == chars@[n - 2]);
            assert(tail[3] == chars@[n - 1]);
            assert(tail != wanted);
        }
    }
    matches
}

/// Whether a scan takes `entry` into the inventory: it is a regular file
/// with the extension `tap`.
pub fn selects(entry: &ScannedEntry) -> (b: bool)
    ensures
        b == is_selected(*entry),
{
    entry.is_file && is_tap_file_name(entry.file_name.as_str())
}

/// Builds the inventory of one scan from what the directory walk reported.
///
/// If the walk failed anywhere, the scan fails with the first failure and
/// nothing is indexed. Otherwise the inventory holds the selected entries.
pub fn index_entries(entries: Vec<Result<ScannedEntry, std::io::Error>>) -> (res: Result<
    Inventory,
    SpindleSpeedUpdaterError,
>)
    ensures
        match res {
            Ok(inventory) => first_failure(entries@) == entries@.len() && inventory.wf()
                && inventory@ == indexed(entries@),
            Err(error) => first_failure(entries@) < entries@.len() && entries@[first_failure(
                entries@,
            ) as int] == Err::<ScannedEntry, std::io::Error>(error->Io_0) && error is Io,
        },
{
    let mut inventory = Inventory::new();
    let ghost all = entries@;
    for entry in it: entries
        invariant
            it.seq() == all,
            inventory.wf(),
            inventory@ == indexed(all.take(it.index() as int)),
            first_failure(all.take(it.index() as int)) == it.index(),
    {
        let ghost done = all.take(it.index() as int);
        let ghost next = all.take(it.index() + 1);
        proof {
            assert(next.drop_last() =~= done);
            assert(next.last() == all[it.index() as int]);
        }
        match entry {
            Ok(scanned) => {
                if selects(&scanned) {
                    let record = FileRecord {
                        path: scanned.path,
                        last_modified: scanned.last_modified,
                    };
                    inventory.insert(record);
                }
                proof {
                    lemma_first_failure_push(done, all[it.index() as int]);
                    assert(done.push(all[it.index() as int]) =~= next);
                }
            },
            Err(error) => {
                proof {
                    lemma_first_failure_prefix(all, it.index() as int);
                }
                return Err(SpindleSpeedUpdaterError::Io(error));
            },
        }
    }
    proof {
        assert(all.take(all.len() as int) =~= all);
    }
    Ok(inventory)
}

} // verus!
