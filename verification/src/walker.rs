//! The traversal as a machine. It never touches the disk: it names the
//! directory to list or the file to read next, and is handed what the caller
//! found there.

use vstd::prelude::*;
use crate::entry::{sort_entries, sorted_entries, DirectoryEntry, EntryView};
use crate::model::{
    entries_outcome, entry_outcome, file_outcome, lemma_pushed_cost, lemma_pushed_outcome,
    listing_cost, listing_outcome, pushed, stack_cost, stack_outcome, traversal_outcome,
    FileSystem, PendingView,
};
use crate::pattern::SearchCriteria;
use crate::report::{
    lemma_followed_by_is_a_monoid, EntryFailure, FatalError, IoError, LineMatchView, Outcome,
    RecoverableEntryError, TraversalReport, TraversalResult, WarningView,
};
use crate::scan::{read_outcome, scan_text};

verus! {

/// An entry that waits on the stack to be visited.
#[derive(Debug, Clone, PartialEq, Eq)]
pub struct PendingEntry {
    pub entry: DirectoryEntry,
    /// How many levels of directories may still be entered from here.
    pub depth: usize,
}

impl View for PendingEntry {
    type V = PendingView;

    open spec fn view(&self) -> PendingView {
        PendingView { entry: self.entry@, depth: self.depth as nat }
    }
}

impl DeepView for PendingEntry {
    type V = PendingView;

    open spec fn deep_view(&self) -> PendingView {
        self@
    }
}

/// What the machine waits for.
#[derive(Debug, Clone, PartialEq, Eq)]
pub enum Phase {
    /// The listing of the directory at `path`, whose entries may be entered
    /// `depth` levels deep. `root` marks the directory the traversal starts at.
    AwaitingListing { path: String, depth: usize, root: bool },
    /// The text of the file at `path`, whose name matched.
    AwaitingContent { path: String },
    /// Nothing: every entry was visited.
    Finished,
    /// Nothing: the root could not be listed.
    Failed,
}

/// What the caller is asked to do next.
#[derive(Debug, Clone, PartialEq, Eq)]
pub enum Action {
    ListDirectory(String),
    ReadFile(String),
    Finish,
}

/// An [`Action`] as a value of the model.
pub enum ActionView {
    ListDirectory(Seq<char>),
    ReadFile(Seq<char>),
    Finish,
}

impl View for Action {
    type V = ActionView;

    open spec fn view(&self) -> ActionView {
        match self {
            Action::ListDirectory(path) => ActionView::ListDirectory(path@),
            Action::ReadFile(path) => ActionView::ReadFile(path@),
            Action::Finish => ActionView::Finish,
        }
    }
}

/// What the caller found when it did as asked.
#[derive(Debug, PartialEq, Eq)]
pub enum Event {
    Listed(Result<Vec<DirectoryEntry>, IoError>),
    Read(Result<String, IoError>),
}

/// A listing as a value of the model.
pub open spec fn listing_view(listing: Result<Vec<DirectoryEntry>, IoError>) -> Result<
    Seq<EntryView>,
    IoError,
> {
    match listing {
        Ok(entries) => Ok(entries.deep_view()),
        Err(error) => Err(error),
    }
}

/// A file's text as a value of the model.
pub open spec fn content_view(content: Result<String, IoError>) -> Result<Seq<char>, IoError> {
    match content {
        Ok(text) => Ok(text@),
        Err(error) => Err(error),
    }
}

/// A traversal in progress.
#[derive(Debug)]
pub struct Walker {
    pub criteria: SearchCriteria,
    /// The entries still to visit; the last one is next.
    pub stack: Vec<PendingEntry>,
    pub phase: Phase,
    /// What was found so far.
    pub report: TraversalReport,
}

/// What has been found followed by what the stack will still contribute.
pub open spec fn ahead(
    fs: FileSystem,
    criteria: SearchCriteria,
    so_far: Outcome,
    stack: Seq<PendingView>,
) -> Outcome {
    so_far.followed_by(stack_outcome(fs, criteria, stack))
}

impl Walker {
    /// A file's text is only ever awaited where a content pattern is set and
    /// the file's base name matched the filename pattern; and a finished
    /// traversal has nothing left to visit.
    pub open spec fn wf(&self) -> bool {
        &&& self.phase matches Phase::AwaitingContent { path } ==> self.criteria.selects_path(
            path@,
        ) && self.criteria.content_pattern is Some
        &&& self.phase is Finished ==> self.stack@.len() == 0
    }

    /// What the caller is asked to do in this state.
    pub open spec fn requested(&self) -> ActionView {
        match self.phase {
            Phase::AwaitingListing { path, .. } => ActionView::ListDirectory(path@),
            Phase::AwaitingContent { path } => ActionView::ReadFile(path@),
            Phase::Finished => ActionView::Finish,
            Phase::Failed => ActionView::Finish,
        }
    }

    /// Whether `event` is of the kind this state waits for.
    pub open spec fn expects(&self, event: Event) -> bool {
        match (self.phase, event) {
            (Phase::AwaitingListing { .. }, Event::Listed(_)) => true,
            (Phase::AwaitingContent { .. }, Event::Read(_)) => true,
            _ => false,
        }
    }

    /// Whether `event` is what the file system `fs` answers to the request
    /// of this state.
    pub open spec fn answered_by(&self, fs: FileSystem, event: Event) -> bool {
        match (self.phase, event) {
            (Phase::AwaitingListing { path, .. }, Event::Listed(listing)) => (fs.listing)(path@)
                == listing_view(listing),
            (Phase::AwaitingContent { path }, Event::Read(content)) => (fs.content)(path@)
                == content_view(content),
            _ => false,
        }
    }

    /// What the awaited entry contributes on the file system `fs`.
    pub open spec fn phase_outcome(&self, fs: FileSystem) -> Outcome {
        match self.phase {
            Phase::AwaitingListing { path, depth, .. } => listing_outcome(
                fs,
                self.criteria,
                path@,
                (fs.listing)(path@),
                depth as nat,
            ),
            Phase::AwaitingContent { path } => match self.criteria.content_pattern {
                Some(pattern) => read_outcome(path@, (fs.content)(path@), pattern),
                None => Outcome::found(),
            },
            Phase::Finished => Outcome::empty(),
            Phase::Failed => Outcome::empty(),
        }
    }

    /// Whether the traversal fails, or will fail on the file system `fs`,
    /// because its root cannot be listed.
    pub open spec fn fails_on(&self, fs: FileSystem) -> bool {
        match self.phase {
            Phase::Failed => true,
            Phase::AwaitingListing { path, root, .. } => root && (fs.listing)(path@) is Err,
            _ => false,
        }
    }

    /// What this traversal comes to on the file system `fs`: what it has
    /// found, then what the awaited entry contributes, then what the entries
    /// on the stack do.
    pub open spec fn projected(&self, fs: FileSystem) -> Result<Outcome, FatalError> {
        if self.fails_on(fs) {
            Err(FatalError::RootUnreadable)
        } else {
            Ok(
                self.report@.followed_by(self.phase_outcome(fs)).followed_by(
                    stack_outcome(fs, self.criteria, self.stack.deep_view()),
                ),
            )
        }
    }

    /// How many entries are still to be touched on the file system `fs`.
    pub open spec fn work_left(&self, fs: FileSystem) -> nat {
        match self.phase {
            Phase::AwaitingListing { path, depth, .. } => 1 + listing_cost(
                fs,
                (fs.listing)(path@),
                depth as nat,
            ) + stack_cost(fs, self.stack.deep_view()),
            Phase::AwaitingContent { .. } => 1 + stack_cost(fs, self.stack.deep_view()),
            Phase::Finished => 0,
            Phase::Failed => 0,
        }
    }

    /// Starts a traversal at the directory `root`. Directories are entered
    /// down to `max_depth` levels below it; that bound is what ends a walk
    /// through directories that contain themselves.
    pub fn new(criteria: SearchCriteria, root: String, max_depth: usize) -> (walker: Walker)
        ensures
            walker.wf(),
            walker.criteria == criteria,
            walker.phase == (Phase::AwaitingListing { path: root, depth: max_depth, root: true }),
            walker.stack@.len() == 0,
            walker.report@ == Outcome::empty(),
            forall|fs: FileSystem| #[trigger]
                walker.projected(fs) == traversal_outcome(fs, criteria, root@, max_depth as nat),
    {
        let walker = Walker {
            criteria,
            stack: Vec::new(),
            phase: Phase::AwaitingListing { path: root, depth: max_depth, root: true },
            report: TraversalReport { result: TraversalResult::new(), warnings: Vec::new() },
        };
        proof {
            assert(walker.report@ == Outcome::empty());
            assert(walker.stack.deep_view() == Seq::<PendingView>::empty());
            assert forall|fs: FileSystem| #[trigger]
                walker.projected(fs) == traversal_outcome(
                    fs,
                    criteria,
                    root@,
                    max_depth as nat,
                ) by {
                let inner = walker.phase_outcome(fs);
                lemma_followed_by_is_a_monoid(inner, inner, inner);
            }
        }
        walker
    }

    /// A file is asked to be read only where a content pattern is set and
    /// the file's base name matches the filename pattern.
    pub proof fn lemma_reads_selected_files_only(self, path: Seq<char>)
        requires
            self.wf(),
            self.requested() == ActionView::ReadFile(path),
        ensures
            self.criteria.selects_path(path),
            self.criteria.content_pattern is Some,
    {
    }

    /// Two traversals that have come to their end, and that come to the
    /// same on the file system `fs`, hold the same report or failed alike.
    pub proof fn lemma_ended_walks_agree(self, other: Walker, fs: FileSystem)
        requires
            self.wf(),
            other.wf(),
            self.phase is Finished || self.phase is Failed,
            other.phase is Finished || other.phase is Failed,
            self.projected(fs) == other.projected(fs),
        ensures
            self.phase is Failed <==> other.phase is Failed,
            self.phase is Finished ==> self.report@ == other.report@,
    {
        let mine = self.report@;
        let theirs = other.report@;
        lemma_followed_by_is_a_monoid(mine, mine, mine);
        lemma_followed_by_is_a_monoid(theirs, theirs, theirs);
        assert(self.phase is Finished ==> self.stack.deep_view() == Seq::<PendingView>::empty());
        assert(other.phase is Finished ==> other.stack.deep_view() == Seq::<PendingView>::empty());
    }

    /// The request of this state.
    pub fn next_action(&self) -> (action: Action)
        ensures
            action@ == self.requested(),
    {
        match &self.phase {
            Phase::AwaitingListing { path, .. } => Action::ListDirectory(path.clone()),
            Phase::AwaitingContent { path } => Action::ReadFile(path.clone()),
            Phase::Finished => Action::Finish,
            Phase::Failed => Action::Finish,
        }
    }

    /// Takes in what the caller found and says what to do next.
    ///
    /// An event of the kind that was not asked for changes nothing, and the
    /// request is made again. Otherwise, on every file system that answers
    /// the request with this event, the traversal comes to what it came to
    /// before, with fewer entries left to touch.
    pub fn step(self, event: Event) -> (next: (Walker, Action))
        requires
            self.wf(),
        ensures
            next.0.wf(),
            next.0.criteria == self.criteria,
            next.1@ == next.0.requested(),
            !self.expects(event) ==> next.0 == self,
            forall|fs: FileSystem| #[trigger]
                self.answered_by(fs, event) ==> next.0.projected(fs) == self.projected(fs)
                    && next.0.work_left(fs) < self.work_left(fs),
    {
        let ghost start = self;
        let Walker { criteria, stack, phase, report } = self;
        match phase {
            Phase::AwaitingListing { path, depth, root } => match event {
                Event::Listed(Ok(entries)) => {
                    let ghost listed = entries.deep_view();
                    let sorted = sort_entries(entries);
                    let grown = push_entries(stack, sorted, depth);
                    let next = advance(criteria, grown, report);
                    proof {
                        assert forall|fs: FileSystem| #[trigger]
                            start.answered_by(fs, event) implies next.0.projected(fs)
                            == start.projected(fs) && next.0.work_left(fs) < start.work_left(
                            fs,
                        ) by {
                            let below = stack_outcome(fs, criteria, stack.deep_view());
                            let inner = entries_outcome(
                                fs,
                                criteria,
                                sorted_entries(listed),
                                depth as nat,
                            );
                            lemma_pushed_outcome(
                                fs,
                                criteria,
                                stack.deep_view(),
                                sorted_entries(listed),
                                depth as nat,
                            );
                            lemma_pushed_cost(
                                fs,
                                stack.deep_view(),
                                sorted_entries(listed),
                                depth as nat,
                            );
                            lemma_followed_by_is_a_monoid(report@, inner, below);
                            assert(start.phase_outcome(fs) == inner);
                            assert(next.0.projected(fs) == Ok::<Outcome, FatalError>(
                                ahead(fs, criteria, report@, grown.deep_view()),
                            ));
                            assert(next.0.work_left(fs) <= stack_cost(fs, grown.deep_view()));
                        }
                    }
                    next
                },
                Event::Listed(Err(error)) => {
                    if root {
                        let walker = Walker { criteria, stack, phase: Phase::Failed, report };
                        (walker, Action::Finish)
                    } else {
                        let mut report = report;
                        let ghost before = report@;
                        let ghost warning = Outcome::passed_over(
                            path@,
                            EntryFailure::ListFailed(error),
                        );
                        report.warnings.push(
                            RecoverableEntryError { path, failure: EntryFailure::ListFailed(error) },
                        );
                        assert(report@ == before.followed_by(warning)) by {
                            assert(report@.warnings == before.warnings + warning.warnings);
                            assert(report@.lines == before.lines + warning.lines);
                        }
                        let next = advance(criteria, stack, report);
                        proof {
                            assert forall|fs: FileSystem| #[trigger]
                                start.answered_by(fs, event) implies next.0.projected(fs)
                                == start.projected(fs) && next.0.work_left(fs)
                                < start.work_left(fs) by {
                                assert(start.phase_outcome(fs) == warning);
                                assert(next.0.projected(fs) == Ok::<Outcome, FatalError>(
                                    ahead(fs, criteria, report@, stack.deep_view()),
                                ));
                                assert(next.0.work_left(fs) <= stack_cost(fs, stack.deep_view()));
                            }
                        }
                        next
                    }
                },
                Event::Read(_) => {
                    let walker = Walker {
                        criteria,
                        stack,
                        phase: Phase::AwaitingListing { path, depth, root },
                        report,
                    };
                    let action = walker.next_action();
                    (walker, action)
                },
            },
            Phase::AwaitingContent { path } => match event {
                Event::Read(content) => {
                    let ghost read = content_view(content);
                    let ghost before = report@;
                    let report = record_content(&criteria, path, content, report);
                    let next = advance(criteria, stack, report);
                    proof {
                        assert forall|fs: FileSystem| #[trigger]
                            start.answered_by(fs, event) implies next.0.projected(fs)
                            == start.projected(fs) && next.0.work_left(fs) < start.work_left(
                            fs,
                        ) by {
                            assert(report@ == before.followed_by(start.phase_outcome(fs)));
                            assert(next.0.projected(fs) == Ok::<Outcome, FatalError>(
                                ahead(fs, criteria, report@, stack.deep_view()),
                            ));
                            assert(next.0.work_left(fs) <= stack_cost(fs, stack.deep_view()));
                        }
                    }
                    next
                },
                Event::Listed(_) => {
                    let walker = Walker {
                        criteria,
                        stack,
                        phase: Phase::AwaitingContent { path },
                        report,
                    };
                    let action = walker.next_action();
                    (walker, action)
                },
            },
            Phase::Finished => {
                let walker = Walker { criteria, stack, phase: Phase::Finished, report };
                (walker, Action::Finish)
            },
            Phase::Failed => {
                let walker = Walker { criteria, stack, phase: Phase::Failed, report };
                (walker, Action::Finish)
            },
        }
    }

    /// The end of the traversal: its report once every entry was visited, the
    /// fatal error where the root could not be listed, and nothing while the
    /// traversal is still under way. The report of a finished traversal is
    /// what the traversal came to, on every file system.
    pub fn into_result(self) -> (end: Option<Result<TraversalReport, FatalError>>)
        requires
            self.wf(),
        ensures
            self.phase is Finished ==> end == Some(
                Ok::<TraversalReport, FatalError>(self.report),
            ),
            self.phase is Failed ==> end == Some(
                Err::<TraversalReport, FatalError>(FatalError::RootUnreadable),
            ),
            self.phase is AwaitingListing || self.phase is AwaitingContent ==> end is None,
            forall|fs: FileSystem|
                self.phase is Finished ==> #[trigger] self.projected(fs) == Ok::<
                    Outcome,
                    FatalError,
                >(self.report@),
    {
        proof {
            if self.phase is Finished {
                assert(self.stack.deep_view() == Seq::<PendingView>::empty());
                let so_far = self.report@;
                lemma_followed_by_is_a_monoid(so_far, so_far, so_far);
            }
        }
        let Walker { criteria, stack, phase, report } = self;
        match phase {
            Phase::Finished => Some(Ok(report)),
            Phase::Failed => Some(Err(FatalError::RootUnreadable)),
            _ => None,
        }
    }
}

/// Puts the entries of a listing on the stack, the first of them on top.
fn push_entries(stack: Vec<PendingEntry>, entries: Vec<DirectoryEntry>, depth: usize) -> (grown:
    Vec<PendingEntry>)
    ensures
        grown.deep_view() == pushed(stack.deep_view(), entries.deep_view(), depth as nat),
{
    let mut grown = stack;
    let mut rest = entries;
    while rest.len() > 0
        invariant
            pushed(grown.deep_view(), rest.deep_view(), depth as nat) == pushed(
                stack.deep_view(),
                entries.deep_view(),
                depth as nat,
            ),
        decreases rest.len(),
    {
        let ghost before = rest.deep_view();
        let ghost below = grown.deep_view();
        let entry = rest.pop().unwrap();
        assert(entry@ == before.last());
        assert(rest.deep_view() == before.drop_last());
        let pending = PendingEntry { entry, depth };
        grown.push(pending);
        assert(grown.deep_view() == below.push(pending@));
    }
    grown
}

/// Takes in what reading the file at `path` gave: the file counts as found;
/// its matching lines are added where the text could be scanned, a warning
/// where it could not.
fn record_content(
    criteria: &SearchCriteria,
    path: String,
    content: Result<String, IoError>,
    report: TraversalReport,
) -> (updated: TraversalReport)
    ensures
        updated@ == report@.followed_by(
            match criteria.content_pattern {
                Some(pattern) => read_outcome(path@, content_view(content), pattern),
                None => Outcome::found(),
            },
        ),
{
    let mut updated = report;
    let ghost before = report@;
    let scanned = match &criteria.content_pattern {
        None => Ok(Vec::new()),
        Some(pattern) => match content {
            Err(error) => Err(EntryFailure::ReadFailed(error)),
            Ok(text) => scan_text(path.as_str(), text.as_str(), pattern),
        },
    };
    match scanned {
        Ok(records) => {
            let ghost added = records.deep_view();
            updated.result.merge(
                TraversalResult { any_filename_matched: true, line_matches: records },
            );
            assert(updated@.lines == before.lines + added);
            assert(updated@.warnings == before.warnings + Seq::<WarningView>::empty());
        },
        Err(failure) => {
            updated.result.any_filename_matched = true;
            updated.warnings.push(RecoverableEntryError { path, failure });
            assert(updated@.lines == before.lines + Seq::<LineMatchView>::empty());
            assert(updated@.warnings == before.warnings + seq![
                WarningView { path: path@, failure },
            ]);
        },
    }
    updated
}

/// Visits the entries on the stack until one needs the caller: a directory
/// to list or a file to read. Files whose name does not match are passed by
/// without a request; so are files that match where no content pattern is
/// set, and directories that lie too deep.
fn advance(criteria: SearchCriteria, stack: Vec<PendingEntry>, report: TraversalReport) -> (next: (
    Walker,
    Action,
))
    ensures
        next.0.wf(),
        next.0.criteria == criteria,
        next.1@ == next.0.requested(),
        forall|fs: FileSystem| #[trigger]
            next.0.projected(fs) == Ok::<Outcome, FatalError>(
                ahead(fs, criteria, report@, stack.deep_view()),
            ),
        forall|fs: FileSystem| #[trigger]
            next.0.work_left(fs) <= stack_cost(fs, stack.deep_view()),
{
    let mut todo = stack;
    let mut found = report;
    loop
        invariant
            forall|fs: FileSystem| #[trigger]
                ahead(fs, criteria, found@, todo.deep_view()) == ahead(
                    fs,
                    criteria,
                    report@,
                    stack.deep_view(),
                ),
            forall|fs: FileSystem| #[trigger]
                stack_cost(fs, todo.deep_view()) <= stack_cost(fs, stack.deep_view()),
        decreases todo.len(),
    {
        let ghost before = todo.deep_view();
        let ghost so_far = found@;
        match todo.pop() {
            None => {
                let walker = Walker { criteria, stack: todo, phase: Phase::Finished, report: found };
                proof {
                    assert(before == Seq::<PendingView>::empty());
                    assert forall|fs: FileSystem| #[trigger]
                        walker.projected(fs) == Ok::<Outcome, FatalError>(
                            ahead(fs, criteria, report@, stack.deep_view()),
                        ) by {
                        lemma_followed_by_is_a_monoid(so_far, so_far, so_far);
                        assert(walker.projected(fs) == Ok::<Outcome, FatalError>(
                            ahead(fs, criteria, so_far, before),
                        ));
                    }
                }
                return (walker, Action::Finish);
            },
            Some(pending) => {
                assert(pending@ == before.last());
                assert(todo.deep_view() == before.drop_last());
                let ghost below = todo.deep_view();
                let PendingEntry { entry, depth } = pending;
                let DirectoryEntry { path, is_directory } = entry;
                if is_directory {
                    if depth == 0 {
                        let ghost warning = Outcome::passed_over(path@, EntryFailure::TooDeep);
                        found.warnings.push(
                            RecoverableEntryError { path, failure: EntryFailure::TooDeep },
                        );
                        proof {
                            assert(found@ == so_far.followed_by(warning)) by {
                                assert(found@.warnings == so_far.warnings + warning.warnings);
                                assert(found@.lines == so_far.lines + warning.lines);
                            }
                            assert forall|fs: FileSystem| #[trigger]
                                ahead(fs, criteria, found@, todo.deep_view()) == ahead(
                                    fs,
                                    criteria,
                                    report@,
                                    stack.deep_view(),
                                ) by {
                                lemma_followed_by_is_a_monoid(
                                    so_far,
                                    warning,
                                    stack_outcome(fs, criteria, below),
                                );
                                assert(ahead(fs, criteria, found@, below) == ahead(
                                    fs,
                                    criteria,
                                    so_far,
                                    before,
                                ));
                            }
                            assert forall|fs: FileSystem| #[trigger]
                                stack_cost(fs, todo.deep_view()) <= stack_cost(
                                    fs,
                                    stack.deep_view(),
                                ) by {
                                assert(stack_cost(fs, below) <= stack_cost(fs, before));
                            }
                        }
                    } else {
                        let action = Action::ListDirectory(path.clone());
                        let walker = Walker {
                            criteria,
                            stack: todo,
                            phase: Phase::AwaitingListing { path, depth: depth - 1, root: false },
                            report: found,
                        };
                        proof {
                            assert forall|fs: FileSystem| #[trigger]
                                walker.projected(fs) == Ok::<Outcome, FatalError>(
                                    ahead(fs, criteria, report@, stack.deep_view()),
                                ) by {
                                let inner = entry_outcome(
                                    fs,
                                    criteria,
                                    before.last().entry,
                                    before.last().depth,
                                );
                                assert(walker.phase_outcome(fs) == inner);
                                lemma_followed_by_is_a_monoid(
                                    so_far,
                                    inner,
                                    stack_outcome(fs, criteria, below),
                                );
                                assert(walker.projected(fs) == Ok::<Outcome, FatalError>(
                                    ahead(fs, criteria, so_far, before),
                                ));
                            }
                            assert forall|fs: FileSystem| #[trigger]
                                walker.work_left(fs) <= stack_cost(fs, stack.deep_view()) by {
                                assert(walker.work_left(fs) == stack_cost(fs, before));
                            }
                        }
                        return (walker, action);
                    }
                } else {
                    let selected = criteria.selects(path.as_str());
                    if selected && criteria.content_pattern.is_some() {
                        let action = Action::ReadFile(path.clone());
                        let walker = Walker {
                            criteria,
                            stack: todo,
                            phase: Phase::AwaitingContent { path },
                            report: found,
                        };
                        proof {
                            assert forall|fs: FileSystem| #[trigger]
                                walker.projected(fs) == Ok::<Outcome, FatalError>(
                                    ahead(fs, criteria, report@, stack.deep_view()),
                                ) by {
                                let inner = file_outcome(fs, criteria, before.last().entry.path);
                                assert(walker.phase_outcome(fs) == inner);
                                lemma_followed_by_is_a_monoid(
                                    so_far,
                                    inner,
                                    stack_outcome(fs, criteria, below),
                                );
                                assert(walker.projected(fs) == Ok::<Outcome, FatalError>(
                                    ahead(fs, criteria, so_far, before),
                                ));
                            }
                            assert forall|fs: FileSystem| #[trigger]
                                walker.work_left(fs) <= stack_cost(fs, stack.deep_view()) by {
                                assert(walker.work_left(fs) == stack_cost(fs, before));
                            }
                        }
                        return (walker, action);
                    }
                    if selected {
                        found.result.any_filename_matched = true;
                    }
                    proof {
                        let inner = if selected {
                            Outcome::found()
                        } else {
                            Outcome::empty()
                        };
                        assert(found@ == so_far.followed_by(inner)) by {
                            assert(found@.warnings == so_far.warnings + inner.warnings);
                            assert(found@.lines == so_far.lines + inner.lines);
                        }
                        assert forall|fs: FileSystem| #[trigger]
                            ahead(fs, criteria, found@, todo.deep_view()) == ahead(
                                fs,
                                criteria,
                                report@,
                                stack.deep_view(),
                            ) by {
                            assert(file_outcome(fs, criteria, before.last().entry.path) == inner);
                            lemma_followed_by_is_a_monoid(
                                so_far,
                                inner,
                                stack_outcome(fs, criteria, below),
                            );
                            assert(ahead(fs, criteria, found@, below) == ahead(
                                fs,
                                criteria,
                                so_far,
                                before,
                            ));
                        }
                        assert forall|fs: FileSystem| #[trigger]
                            stack_cost(fs, todo.deep_view()) <= stack_cost(
                                fs,
                                stack.deep_view(),
                            ) by {
                            assert(stack_cost(fs, below) <= stack_cost(fs, before));
                        }
                    }
                }
            },
        }
    }
}

} // verus!
