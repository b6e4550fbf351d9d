use file_find::entry::DirectoryEntry;
use file_find::pattern::SearchCriteria;
use file_find::report::{
    EntryFailure, FatalError, IoError, LineMatch, RecoverableEntryError, TraversalReport,
};
use file_find::snapshot::{traverse, DirectoryRecord, FileRecord, Snapshot};
use file_find::walker::{Action, Event, Phase, Walker};

fn file(path: &str) -> DirectoryEntry {
    DirectoryEntry { path: path.to_string(), is_directory: false }
}

fn dir(path: &str) -> DirectoryEntry {
    DirectoryEntry { path: path.to_string(), is_directory: true }
}

fn listed(path: &str, entries: Vec<DirectoryEntry>) -> DirectoryRecord {
    DirectoryRecord { path: path.to_string(), listing: Ok(entries) }
}

fn text(path: &str, content: &str) -> FileRecord {
    FileRecord { path: path.to_string(), content: Ok(content.to_string()) }
}

fn criteria(filename: &str, content: Option<&str>) -> SearchCriteria {
    SearchCriteria::compile(filename, content).unwrap()
}

fn walk(snapshot: &Snapshot, filename: &str, content: Option<&str>) -> TraversalReport {
    traverse(snapshot, criteria(filename, content), ".", 16).unwrap()
}

fn two_text_files() -> Snapshot {
    Snapshot {
        directories: vec![
            listed(".", vec![dir("./sub"), file("./a.txt")]),
            listed("./sub", vec![file("./sub/b.txt")]),
        ],
        files: vec![text("./a.txt", "alpha\n"), text("./sub/b.txt", "beta\n")],
    }
}

#[test]
fn text_files_are_found_without_a_content_pattern() {
    let report = walk(&two_text_files(), r".*\.txt$", None);
    assert!(report.result.any_filename_matched);
    assert_eq!(report.result.line_matches, vec![]);
    assert_eq!(report.warnings, vec![]);
}

#[test]
fn one_matching_line_is_reported() {
    let snapshot = Snapshot {
        directories: vec![listed(".", vec![file("./notes.txt")])],
        files: vec![text("./notes.txt", "hello world\nfoo bar\n")],
    };
    let report = walk(&snapshot, r"notes\.txt", Some("foo"));
    assert!(report.result.any_filename_matched);
    assert_eq!(
        report.result.line_matches,
        vec![LineMatch {
            file_path: "./notes.txt".to_string(),
            line_number: 2,
            line_text: "foo bar".to_string(),
        }]
    );
    assert_eq!(report.warnings, vec![]);
}

#[test]
fn empty_directory_finds_nothing() {
    let snapshot = Snapshot { directories: vec![listed(".", vec![])], files: vec![] };
    let report = walk(&snapshot, ".*", Some(".*"));
    assert!(!report.result.any_filename_matched);
    assert_eq!(report.result.line_matches, vec![]);
    assert_eq!(report.warnings, vec![]);
}

#[test]
fn unreadable_file_is_a_warning() {
    let snapshot = Snapshot {
        directories: vec![listed(".", vec![file("./locked.log"), file("./open.log")])],
        files: vec![
            FileRecord { path: "./locked.log".to_string(), content: Err(IoError::PermissionDenied) },
            text("./open.log", "error: disk full\nok\nerror: retry\n"),
        ],
    };
    let report = walk(&snapshot, r"\.log$", Some("^error"));
    assert!(report.result.any_filename_matched);
    assert_eq!(
        report.result.line_matches,
        vec![
            LineMatch {
                file_path: "./open.log".to_string(),
                line_number: 1,
                line_text: "error: disk full".to_string(),
            },
            LineMatch {
                file_path: "./open.log".to_string(),
                line_number: 3,
                line_text: "error: retry".to_string(),
            },
        ]
    );
    assert_eq!(
        report.warnings,
        vec![RecoverableEntryError {
            path: "./locked.log".to_string(),
            failure: EntryFailure::ReadFailed(IoError::PermissionDenied),
        }]
    );
}

#[test]
fn unreadable_root_is_fatal() {
    let snapshot = Snapshot {
        directories: vec![DirectoryRecord {
            path: ".".to_string(),
            listing: Err(IoError::PermissionDenied),
        }],
        files: vec![],
    };
    let end = traverse(&snapshot, criteria(".*", None), ".", 16);
    assert_eq!(end, Err(FatalError::RootUnreadable));
}

#[test]
fn unknown_root_is_fatal() {
    let snapshot = Snapshot { directories: vec![], files: vec![] };
    let end = traverse(&snapshot, criteria(".*", None), "nowhere", 16);
    assert_eq!(end, Err(FatalError::RootUnreadable));
}

#[test]
fn unlistable_subdirectory_is_a_warning() {
    let snapshot = Snapshot {
        directories: vec![
            listed(".", vec![dir("./gone"), file("./kept.txt")]),
            DirectoryRecord { path: "./gone".to_string(), listing: Err(IoError::NotFound) },
        ],
        files: vec![],
    };
    let report = walk(&snapshot, r"\.txt$", None);
    assert!(report.result.any_filename_matched);
    assert_eq!(
        report.warnings,
        vec![RecoverableEntryError {
            path: "./gone".to_string(),
            failure: EntryFailure::ListFailed(IoError::NotFound),
        }]
    );
}

#[test]
fn filename_match_without_matching_line_still_counts() {
    let report = walk(&two_text_files(), r"^a\.txt$", Some("zeta"));
    assert!(report.result.any_filename_matched);
    assert_eq!(report.result.line_matches, vec![]);
}

#[test]
fn no_filename_match_means_not_found() {
    let report = walk(&two_text_files(), r"\.rs$", Some("alpha"));
    assert!(!report.result.any_filename_matched);
    assert_eq!(report.result.line_matches, vec![]);
}

#[test]
fn pattern_is_tried_on_the_base_name_only() {
    let report = walk(&two_text_files(), "sub", None);
    assert!(!report.result.any_filename_matched);
    let report = walk(&two_text_files(), "^b", None);
    assert!(report.result.any_filename_matched);
}

#[test]
fn siblings_are_visited_in_path_order() {
    let snapshot = Snapshot {
        directories: vec![
            listed(".", vec![file("./z.txt"), dir("./m"), file("./a.txt")]),
            listed("./m", vec![file("./m/y.txt"), file("./m/b.txt")]),
        ],
        files: vec![
            text("./z.txt", "hit z\n"),
            text("./a.txt", "hit a\n"),
            text("./m/y.txt", "hit y\n"),
            text("./m/b.txt", "hit b\n"),
        ],
    };
    let report = walk(&snapshot, r"\.txt$", Some("hit"));
    let paths: Vec<&str> =
        report.result.line_matches.iter().map(|m| m.file_path.as_str()).collect();
    assert_eq!(paths, vec!["./a.txt", "./m/b.txt", "./m/y.txt", "./z.txt"]);
}

#[test]
fn line_numbers_start_at_one_and_increase() {
    let snapshot = Snapshot {
        directories: vec![listed(".", vec![file("./log")])],
        files: vec![text("./log", "x1\ny\nx2\r\n\nx3")],
    };
    let report = walk(&snapshot, "log", Some("x"));
    let numbered: Vec<(u32, &str)> = report
        .result
        .line_matches
        .iter()
        .map(|m| (m.line_number, m.line_text.as_str()))
        .collect();
    assert_eq!(numbered, vec![(1, "x1"), (3, "x2"), (5, "x3")]);
}

#[test]
fn walking_twice_reports_the_same() {
    let snapshot = two_text_files();
    let first = walk(&snapshot, r"\.txt$", Some("a"));
    let second = walk(&snapshot, r"\.txt$", Some("a"));
    assert_eq!(first, second);
    assert_eq!(first.result.line_matches.len(), 2);
}

#[test]
fn empty_file_is_a_warning_and_still_counts() {
    let snapshot = Snapshot {
        directories: vec![listed(".", vec![file("./empty.txt")])],
        files: vec![text("./empty.txt", "")],
    };
    let report = walk(&snapshot, "empty", Some(".*"));
    assert!(report.result.any_filename_matched);
    assert_eq!(report.result.line_matches, vec![]);
    assert_eq!(
        report.warnings,
        vec![RecoverableEntryError {
            path: "./empty.txt".to_string(),
            failure: EntryFailure::EmptyFile,
        }]
    );
}

#[test]
fn text_that_is_no_text_is_a_warning() {
    let snapshot = Snapshot {
        directories: vec![listed(".", vec![file("./image.bin")])],
        files: vec![FileRecord {
            path: "./image.bin".to_string(),
            content: Err(IoError::InvalidData),
        }],
    };
    let report = walk(&snapshot, "bin$", Some("x"));
    assert!(report.result.any_filename_matched);
    assert_eq!(
        report.warnings,
        vec![RecoverableEntryError {
            path: "./image.bin".to_string(),
            failure: EntryFailure::ReadFailed(IoError::InvalidData),
        }]
    );
}

#[test]
fn directory_that_contains_itself_ends_at_the_depth_bound() {
    let snapshot = Snapshot {
        directories: vec![listed("loop", vec![dir("loop"), file("loop/f.txt")])],
        files: vec![],
    };
    let report = traverse(&snapshot, criteria("f", None), "loop", 3).unwrap();
    assert!(report.result.any_filename_matched);
    assert_eq!(
        report.warnings,
        vec![RecoverableEntryError { path: "loop".to_string(), failure: EntryFailure::TooDeep }]
    );
}

#[test]
fn depth_zero_enters_no_subdirectory() {
    let end = traverse(&two_text_files(), criteria("^b", None), ".", 0).unwrap();
    assert!(!end.result.any_filename_matched);
    assert_eq!(
        end.warnings,
        vec![RecoverableEntryError { path: "./sub".to_string(), failure: EntryFailure::TooDeep }]
    );
    let end = traverse(&two_text_files(), criteria("^b", None), ".", 1).unwrap();
    assert!(end.result.any_filename_matched);
    assert_eq!(end.warnings, vec![]);
}

fn drive(snapshot: &Snapshot, criteria: SearchCriteria) -> (Walker, Vec<String>, Vec<String>) {
    let mut walker = Walker::new(criteria, ".".to_string(), 16);
    let mut action = walker.next_action();
    let mut listings = Vec::new();
    let mut reads = Vec::new();
    loop {
        let event = match action {
            Action::ListDirectory(path) => {
                let listing = snapshot.list(&path);
                listings.push(path);
                Event::Listed(listing)
            }
            Action::ReadFile(path) => {
                let content = snapshot.read(&path);
                reads.push(path);
                Event::Read(content)
            }
            Action::Finish => return (walker, listings, reads),
        };
        let next = walker.step(event);
        walker = next.0;
        action = next.1;
    }
}

#[test]
fn content_is_read_of_matching_files_only() {
    let (walker, listings, reads) = drive(&two_text_files(), criteria("^a", Some("alpha")));
    assert_eq!(listings, vec![".", "./sub"]);
    assert_eq!(reads, vec!["./a.txt"]);
    let report = walker.into_result().unwrap().unwrap();
    assert_eq!(report.result.line_matches.len(), 1);
}

#[test]
fn content_is_not_read_without_a_content_pattern() {
    let (walker, _, reads) = drive(&two_text_files(), criteria(r"\.txt$", None));
    assert_eq!(reads, Vec::<String>::new());
    let report = walker.into_result().unwrap().unwrap();
    assert!(report.result.any_filename_matched);
}

#[test]
fn walker_starts_by_asking_for_the_root() {
    let walker = Walker::new(criteria(".*", None), "top".to_string(), 4);
    assert_eq!(walker.next_action(), Action::ListDirectory("top".to_string()));
    assert_eq!(
        walker.phase,
        Phase::AwaitingListing { path: "top".to_string(), depth: 4, root: true }
    );
    assert_eq!(walker.into_result(), None);
}

#[test]
fn event_that_was_not_asked_for_changes_nothing() {
    let walker = Walker::new(criteria(".*", Some("x")), ".".to_string(), 4);
    let (walker, action) = walker.step(Event::Read(Ok("x".to_string())));
    assert_eq!(action, Action::ListDirectory(".".to_string()));
    let (walker, action) = walker.step(Event::Listed(Ok(vec![file("./f")])));
    assert_eq!(action, Action::ReadFile("./f".to_string()));
    let (walker, action) = walker.step(Event::Listed(Ok(vec![file("./g")])));
    assert_eq!(action, Action::ReadFile("./f".to_string()));
    assert_eq!(walker.stack, vec![]);
    let (walker, action) = walker.step(Event::Read(Ok("x\n".to_string())));
    assert_eq!(action, Action::Finish);
    let (walker, action) = walker.step(Event::Read(Ok("x\n".to_string())));
    assert_eq!(action, Action::Finish);
    let report = walker.into_result().unwrap().unwrap();
    assert_eq!(report.result.line_matches.len(), 1);
}

#[test]
fn failed_walker_stays_failed() {
    let walker = Walker::new(criteria(".*", None), ".".to_string(), 4);
    let (walker, action) = walker.step(Event::Listed(Err(IoError::Other)));
    assert_eq!(action, Action::Finish);
    let (walker, action) = walker.step(Event::Listed(Ok(vec![])));
    assert_eq!(action, Action::Finish);
    assert_eq!(walker.into_result(), Some(Err(FatalError::RootUnreadable)));
}

#[test]
fn snapshot_answers_with_the_first_record_of_a_path() {
    let snapshot = Snapshot {
        directories: vec![listed("d", vec![file("d/one")]), listed("d", vec![file("d/two")])],
        files: vec![text("f", "first"), text("f", "second")],
    };
    assert_eq!(snapshot.list("d"), Ok(vec![file("d/one")]));
    assert_eq!(snapshot.read("f"), Ok("first".to_string()));
    assert_eq!(snapshot.list("f"), Err(IoError::NotFound));
    assert_eq!(snapshot.read("d"), Err(IoError::NotFound));
}
