//! A file system held in memory, and the traversal of one.

use vstd::prelude::*;
use crate::entry::{DirectoryEntry, EntryView};
use crate::model::{traversal_outcome, FileSystem};
use crate::pattern::SearchCriteria;
use crate::report::{FatalError, IoError, Outcome, TraversalReport};
use crate::walker::{content_view, listing_view, Action, Event, Walker};

verus! {

/// What listing the directory at `path` gives.
#[derive(Debug, PartialEq, Eq)]
pub struct DirectoryRecord {
    pub path: String,
    pub listing: Result<Vec<DirectoryEntry>, IoError>,
}

/// What reading the file at `path` gives.
#[derive(Debug, PartialEq, Eq)]
pub struct FileRecord {
    pub path: String,
    pub content: Result<String, IoError>,
}

/// A file system written down: it answers for the paths it has a record
/// of, with the first record of a path, and knows no other path.
#[derive(Debug, PartialEq, Eq)]
pub struct Snapshot {
    pub directories: Vec<DirectoryRecord>,
    pub files: Vec<FileRecord>,
}

/// The listing that the first record of `path` holds; not found, where
/// there is none.
pub open spec fn recorded_listing(records: Seq<DirectoryRecord>, path: Seq<char>) -> Result<
    Seq<EntryView>,
    IoError,
>
    decreases records.len(),
{
    if records.len() == 0 {
        Err(IoError::NotFound)
    } else if records[0].path@ == path {
        listing_view(records[0].listing)
    } else {
        recorded_listing(records.drop_first(), path)
    }
}

/// The text that the first record of `path` holds; not found, where there
/// is none.
pub open spec fn recorded_content(records: Seq<FileRecord>, path: Seq<char>) -> Result<
    Seq<char>,
    IoError,
>
    decreases records.len(),
{
    if records.len() == 0 {
        Err(IoError::NotFound)
    } else if records[0].path@ == path {
        content_view(records[0].content)
    } else {
        recorded_content(records.drop_first(), path)
    }
}

impl View for Snapshot {
    type V = FileSystem;

    open spec fn view(&self) -> FileSystem {
        FileSystem {
            listing: |path: Seq<char>| recorded_listing(self.directories@, path),
            content: |path: Seq<char>| recorded_content(self.files@, path),
        }
    }
}

/// A copy of a listing.
fn copy_entries(entries: &Vec<DirectoryEntry>) -> (copy: Vec<DirectoryEntry>)
    ensures
        copy.deep_view() == entries.deep_view(),
{
    let mut copy: Vec<DirectoryEntry> = Vec::new();
    let mut i: usize = 0;
    while i < entries.len()
        invariant
            i <= entries.len(),
            copy.deep_view() == entries.deep_view().take(i as int),
        decreases entries.len() - i,
    {
        let ghost before = copy.deep_view();
        let entry = DirectoryEntry {
            path: entries[i].path.clone(),
            is_directory: entries[i].is_directory,
        };
        copy.push(entry);
        assert(copy.deep_view() == before.push(entries@[i as int]@));
        i = i + 1;
    }
    copy
}

impl Snapshot {
    /// Lists the directory at `path`.
    pub fn list(&self, path: &str) -> (listing: Result<Vec<DirectoryEntry>, IoError>)
        ensures
            listing_view(listing) == (self@.listing)(path@),
    {
        let key = path.to_owned();
        let mut i: usize = 0;
        assert(self.directories@.skip(0) == self.directories@);
        while i < self.directories.len()
            invariant
                i <= self.directories.len(),
                key@ == path@,
                recorded_listing(self.directories@, path@) == recorded_listing(
                    self.directories@.skip(i as int),
                    path@,
                ),
            decreases self.directories.len() - i,
        {
            let record = &self.directories[i];
            if record.path == key {
                return match &record.listing {
                    Ok(entries) => Ok(copy_entries(entries)),
                    Err(error) => Err(*error),
                };
            }
            assert(self.directories@.skip(i as int).drop_first() == self.directories@.skip(
                i + 1,
            ));
            i = i + 1;
        }
        Err(IoError::NotFound)
    }

    /// Reads the file at `path`.
    pub fn read(&self, path: &str) -> (content: Result<String, IoError>)
        ensures
            content_view(content) == (self@.content)(path@),
    {
        let key = path.to_owned();
        let mut i: usize = 0;
        assert(self.files@.skip(0) == self.files@);
        while i < self.files.len()
            invariant
                i <= self.files.len(),
                key@ == path@,
                recorded_content(self.files@, path@) == recorded_content(
                    self.files@.skip(i as int),
                    path@,
                ),
            decreases self.files.len() - i,
        {
            let record = &self.files[i];
            if record.path == key {
                return match &record.content {
                    Ok(text) => Ok(text.clone()),
                    Err(error) => Err(*error),
                };
            }
            assert(self.files@.skip(i as int).drop_first() == self.files@.skip(i + 1));
            i = i + 1;
        }
        Err(IoError::NotFound)
    }
}

/// The end of a traversal as a value of the model.
pub open spec fn end_view(end: Result<TraversalReport, FatalError>) -> Result<Outcome, FatalError> {
    match end {
        Ok(report) => Ok(report@),
        Err(error) => Err(error),
    }
}

/// Two traversals of one unchanged file system, with the same criteria, from
/// the same root and to the same depth, end alike.
pub proof fn lemma_traversal_is_repeatable(
    fs: FileSystem,
    criteria: SearchCriteria,
    root: Seq<char>,
    max_depth: nat,
    first: Result<TraversalReport, FatalError>,
    second: Result<TraversalReport, FatalError>,
)
    requires
        end_view(first) == traversal_outcome(fs, criteria, root, max_depth),
        end_view(second) == traversal_outcome(fs, criteria, root, max_depth),
    ensures
        end_view(first) == end_view(second),
        first is Ok ==> second is Ok && first->Ok_0.result.any_filename_matched
            == second->Ok_0.result.any_filename_matched && first->Ok_0.result.line_matches.deep_view()
            == second->Ok_0.result.line_matches.deep_view() && first->Ok_0.warnings.deep_view()
            == second->Ok_0.warnings.deep_view(),
{
}

/// Walks the tree below `root` in `snapshot` and reports the files whose base
/// name matches the filename pattern and, where a content pattern is set, their
/// matching lines. Directories are entered down to `max_depth` levels below
/// the root. Only a root that cannot be listed is fatal; any other entry that
/// cannot be listed or read is passed over with a warning.
///
/// The report is a function of the snapshot, the criteria, the root and the
/// depth: walking an unchanged tree again reports the same.
pub fn traverse(snapshot: &Snapshot, criteria: SearchCriteria, root: &str, max_depth: usize) -> (end:
    Result<TraversalReport, FatalError>)
    ensures
        end_view(end) == traversal_outcome(snapshot@, criteria, root@, max_depth as nat),
{
    let mut walker = Walker::new(criteria, root.to_owned(), max_depth);
    let mut action = walker.next_action();
    loop
        invariant
            walker.wf(),
            action@ == walker.requested(),
            walker.projected(snapshot@) == traversal_outcome(
                snapshot@,
                criteria,
                root@,
                max_depth as nat,
            ),
        decreases walker.work_left(snapshot@),
    {
        let event = match action {
            Action::ListDirectory(path) => Event::Listed(snapshot.list(path.as_str())),
            Action::ReadFile(path) => Event::Read(snapshot.read(path.as_str())),
            Action::Finish => {
                let ghost finished = walker;
                match walker.into_result() {
                    Some(end) => {
                        assert(finished.phase is Finished || finished.phase is Failed);
                        return end;
                    },
                    None => {
                        assert(false);
                        return Err(FatalError::RootUnreadable);
                    },
                }
            },
        };
        assert(walker.answered_by(snapshot@, event));
        let next = walker.step(event);
        walker = next.0;
        action = next.1;
    }
}

} // verus!
