//! What a traversal yields: the files found, the lines matched, the entries
//! that had to be passed over.

use vstd::prelude::*;

verus! {

/// Why the file system refused to list a directory or to hand out a file's text.
#[derive(Debug, Clone, Copy, PartialEq, Eq, Structural)]
pub enum IoError {
    NotFound,
    PermissionDenied,
    /// The file's bytes are no text.
    InvalidData,
    Other,
}

/// Why an entry was passed over.
#[derive(Debug, Clone, Copy, PartialEq, Eq, Structural)]
pub enum EntryFailure {
    /// The directory could not be listed.
    ListFailed(IoError),
    /// The file's text could not be read.
    ReadFailed(IoError),
    /// The file holds nothing to scan.
    EmptyFile,
    /// The file has more lines than a line number can count.
    TooManyLines,
    /// The directory lies deeper than the traversal may descend.
    TooDeep,
}

/// An entry that was passed over, and why. The traversal went on after it.
#[derive(Debug, Clone, PartialEq, Eq)]
pub struct RecoverableEntryError {
    pub path: String,
    pub failure: EntryFailure,
}

/// A [`RecoverableEntryError`] as a value of the model.
pub struct WarningView {
    pub path: Seq<char>,
    pub failure: EntryFailure,
}

impl View for RecoverableEntryError {
    type V = WarningView;

    open spec fn view(&self) -> WarningView {
        WarningView { path: self.path@, failure: self.failure }
    }
}

impl DeepView for RecoverableEntryError {
    type V = WarningView;

    open spec fn deep_view(&self) -> WarningView {
        self@
    }
}

/// What ends a traversal without a result.
#[derive(Debug, Clone, Copy, PartialEq, Eq, Structural)]
pub enum FatalError {
    /// The directory at which the traversal starts could not be listed.
    RootUnreadable,
}

/// A line of a file that matched the content pattern.
#[derive(Debug, Clone, PartialEq, Eq)]
pub struct LineMatch {
    pub file_path: String,
    /// Position of the line in its file; the first line has number 1.
    pub line_number: u32,
    /// The line, without its terminator.
    pub line_text: String,
}

/// A [`LineMatch`] as a value of the model.
pub struct LineMatchView {
    pub file_path: Seq<char>,
    pub line_number: nat,
    pub line_text: Seq<char>,
}

impl View for LineMatch {
    type V = LineMatchView;

    open spec fn view(&self) -> LineMatchView {
        LineMatchView {
            file_path: self.file_path@,
            line_number: self.line_number as nat,
            line_text: self.line_text@,
        }
    }
}

impl DeepView for LineMatch {
    type V = LineMatchView;

    open spec fn deep_view(&self) -> LineMatchView {
        self@
    }
}

/// What a traversal, or a part of one, contributes: whether a file matched
/// the filename pattern, the matching lines in the order of discovery, and the
/// entries passed over, in that order too.
#[verifier::ext_equal]
pub struct Outcome {
    pub matched: bool,
    pub lines: Seq<LineMatchView>,
    pub warnings: Seq<WarningView>,
}

impl Outcome {
    /// The contribution of nothing.
    pub open spec fn empty() -> Outcome {
        Outcome { matched: false, lines: Seq::empty(), warnings: Seq::empty() }
    }

    /// The contribution of a file that matched the filename pattern and
    /// whose content was not looked at.
    pub open spec fn found() -> Outcome {
        Outcome { matched: true, lines: Seq::empty(), warnings: Seq::empty() }
    }

    /// The contribution of an entry that was passed over.
    pub open spec fn passed_over(path: Seq<char>, failure: EntryFailure) -> Outcome {
        Outcome {
            matched: false,
            lines: Seq::empty(),
            warnings: seq![WarningView { path, failure }],
        }
    }

    /// This contribution followed by a later one: a match in either is a
    /// match, and what the later one discovered comes after.
    pub open spec fn followed_by(self, later: Outcome) -> Outcome {
        Outcome {
            matched: self.matched || later.matched,
            lines: self.lines + later.lines,
            warnings: self.warnings + later.warnings,
        }
    }
}

/// Merging is associative and has the empty contribution as its unit.
pub proof fn lemma_followed_by_is_a_monoid(a: Outcome, b: Outcome, c: Outcome)
    ensures
        a.followed_by(b).followed_by(c) == a.followed_by(b.followed_by(c)),
        Outcome::empty().followed_by(a) == a,
        a.followed_by(Outcome::empty()) == a,
{
    assert(a.followed_by(b).followed_by(c) =~= a.followed_by(b.followed_by(c)));
    assert(Outcome::empty().followed_by(a) =~= a);
    assert(a.followed_by(Outcome::empty()) =~= a);
}

/// The accumulated output of a traversal.
#[derive(Debug, Clone, PartialEq, Eq)]
pub struct TraversalResult {
    /// Whether any file in the tree matched the filename pattern, with or
    /// without matching lines.
    pub any_filename_matched: bool,
    /// The matching lines, in the order of discovery.
    pub line_matches: Vec<LineMatch>,
}

impl TraversalResult {
    /// The result of having seen nothing yet.
    pub fn new() -> (result: TraversalResult)
        ensures
            !result.any_filename_matched,
            result.line_matches@ == Seq::<LineMatch>::empty(),
    {
        TraversalResult { any_filename_matched: false, line_matches: Vec::new() }
    }

    /// Takes in the result of a subtree visited after everything seen so
    /// far: a match there is a match here, and its lines come last.
    pub fn merge(&mut self, child: TraversalResult)
        ensures
            final(self).any_filename_matched == (old(self).any_filename_matched
                || child.any_filename_matched),
            final(self).line_matches@ == old(self).line_matches@ + child.line_matches@,
    {
        let mut child = child;
        if child.any_filename_matched {
            self.any_filename_matched = true;
        }
        self.line_matches.append(&mut child.line_matches);
    }
}

/// A traversal's result together with the warnings gathered on the way.
#[derive(Debug, Clone, PartialEq, Eq)]
pub struct TraversalReport {
    pub result: TraversalResult,
    pub warnings: Vec<RecoverableEntryError>,
}

impl View for TraversalReport {
    type V = Outcome;

    open spec fn view(&self) -> Outcome {
        Outcome {
            matched: self.result.any_filename_matched,
            lines: self.result.line_matches.deep_view(),
            warnings: self.warnings.deep_view(),
        }
    }
}

} // verus!
