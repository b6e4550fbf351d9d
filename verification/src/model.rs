//! The traversal as mathematics: what walking a file system yields, stated
//! over a file system that answers each path the same way every time.

use vstd::prelude::*;
use crate::entry::{lemma_sorted_entries_is_an_ordered_permutation, sorted_entries, EntryView};
use crate::pattern::SearchCriteria;
use crate::report::{EntryFailure, FatalError, IoError, Outcome};
use crate::pattern::regex_accepts;
use crate::scan::{lemma_found_without_matching_line, read_outcome};
use crate::text::lines_of;

verus! {

/// A file system that does not change during a traversal: for each path,
/// what listing it as a directory and what reading it as a text file gives.
pub struct FileSystem {
    pub listing: spec_fn(Seq<char>) -> Result<Seq<EntryView>, IoError>,
    pub content: spec_fn(Seq<char>) -> Result<Seq<char>, IoError>,
}

/// An entry that waits to be visited, and how many levels of directories may
/// still be entered from it.
pub struct PendingView {
    pub entry: EntryView,
    pub depth: nat,
}

/// What a file contributes: nothing unless its base name matches the
/// filename pattern; then it counts as found, and where a content pattern is
/// set its text is read and scanned.
pub open spec fn file_outcome(fs: FileSystem, criteria: SearchCriteria, path: Seq<char>) -> Outcome {
    if !criteria.selects_path(path) {
        Outcome::empty()
    } else {
        match criteria.content_pattern {
            None => Outcome::found(),
            Some(pattern) => read_outcome(path, (fs.content)(path), pattern),
        }
    }
}

/// What a directory contributes once it was asked to be listed: a warning
/// where that failed, else what its entries contribute, visited in the order
/// of their paths. Directories among them may be entered while `depth` lasts.
pub open spec fn listing_outcome(
    fs: FileSystem,
    criteria: SearchCriteria,
    path: Seq<char>,
    listing: Result<Seq<EntryView>, IoError>,
    depth: nat,
) -> Outcome
    decreases depth, 2nat, 0nat,
{
    match listing {
        Err(error) => Outcome::passed_over(path, EntryFailure::ListFailed(error)),
        Ok(entries) => entries_outcome(fs, criteria, sorted_entries(entries), depth),
    }
}

/// What a sequence of sibling entries contributes, visited from first to last.
pub open spec fn entries_outcome(
    fs: FileSystem,
    criteria: SearchCriteria,
    entries: Seq<EntryView>,
    depth: nat,
) -> Outcome
    decreases depth, 1nat, entries.len(),
{
    if entries.len() == 0 {
        Outcome::empty()
    } else {
        entries_outcome(fs, criteria, entries.drop_last(), depth).followed_by(
            entry_outcome(fs, criteria, entries.last(), depth),
        )
    }
}

/// What one entry contributes. A directory is entered only while `depth` is
/// not used up; one that lies deeper is passed over with a warning.
pub open spec fn entry_outcome(
    fs: FileSystem,
    criteria: SearchCriteria,
    entry: EntryView,
    depth: nat,
) -> Outcome
    decreases depth, 0nat, 0nat,
{
    if !entry.is_directory {
        file_outcome(fs, criteria, entry.path)
    } else if depth == 0 {
        Outcome::passed_over(entry.path, EntryFailure::TooDeep)
    } else {
        listing_outcome(fs, criteria, entry.path, (fs.listing)(entry.path), (depth - 1) as nat)
    }
}

/// What a traversal from `root` yields: the fatal error where the root cannot
/// be listed, else what its entries contribute. `max_depth` is the number of
/// levels of directories below the root that may be entered.
pub open spec fn traversal_outcome(
    fs: FileSystem,
    criteria: SearchCriteria,
    root: Seq<char>,
    max_depth: nat,
) -> Result<Outcome, FatalError> {
    match (fs.listing)(root) {
        Err(_) => Err(FatalError::RootUnreadable),
        Ok(entries) => Ok(entries_outcome(fs, criteria, sorted_entries(entries), max_depth)),
    }
}

/// What the entries on a stack contribute, the last one visited first.
pub open spec fn stack_outcome(
    fs: FileSystem,
    criteria: SearchCriteria,
    stack: Seq<PendingView>,
) -> Outcome
    decreases stack.len(),
{
    if stack.len() == 0 {
        Outcome::empty()
    } else {
        entry_outcome(fs, criteria, stack.last().entry, stack.last().depth).followed_by(
            stack_outcome(fs, criteria, stack.drop_last()),
        )
    }
}

/// The stack after the siblings `entries` were put on it, the first of them on top.
pub open spec fn pushed(stack: Seq<PendingView>, entries: Seq<EntryView>, depth: nat) -> Seq<
    PendingView,
>
    decreases entries.len(),
{
    if entries.len() == 0 {
        stack
    } else {
        pushed(
            stack.push(PendingView { entry: entries.last(), depth }),
            entries.drop_last(),
            depth,
        )
    }
}

/// Entries put on the stack are visited in their order, before what was on
/// the stack already.
pub proof fn lemma_pushed_outcome(
    fs: FileSystem,
    criteria: SearchCriteria,
    stack: Seq<PendingView>,
    entries: Seq<EntryView>,
    depth: nat,
)
    ensures
        stack_outcome(fs, criteria, pushed(stack, entries, depth)) == entries_outcome(
            fs,
            criteria,
            entries,
            depth,
        ).followed_by(stack_outcome(fs, criteria, stack)),
    decreases entries.len(),
{
    let below = stack_outcome(fs, criteria, stack);
    if entries.len() == 0 {
        crate::report::lemma_followed_by_is_a_monoid(below, below, below);
    } else {
        let last = PendingView { entry: entries.last(), depth };
        let grown = stack.push(last);
        lemma_pushed_outcome(fs, criteria, grown, entries.drop_last(), depth);
        assert(grown.last() == last);
        assert(grown.drop_last() == stack);
        crate::report::lemma_followed_by_is_a_monoid(
            entries_outcome(fs, criteria, entries.drop_last(), depth),
            entry_outcome(fs, criteria, entries.last(), depth),
            below,
        );
    }
}

/// How many entries a visit of `entry` touches, itself included.
pub open spec fn entry_cost(fs: FileSystem, entry: EntryView, depth: nat) -> nat
    decreases depth, 0nat, 0nat,
{
    if !entry.is_directory || depth == 0 {
        1
    } else {
        1 + listing_cost(fs, (fs.listing)(entry.path), (depth - 1) as nat)
    }
}

/// How many entries the visit of a listed directory's entries touches.
pub open spec fn listing_cost(
    fs: FileSystem,
    listing: Result<Seq<EntryView>, IoError>,
    depth: nat,
) -> nat
    decreases depth, 2nat, 0nat,
{
    match listing {
        Err(_) => 0,
        Ok(entries) => entries_cost(fs, sorted_entries(entries), depth),
    }
}

/// How many entries the visit of these siblings touches.
pub open spec fn entries_cost(fs: FileSystem, entries: Seq<EntryView>, depth: nat) -> nat
    decreases depth, 1nat, entries.len(),
{
    if entries.len() == 0 {
        0
    } else {
        entries_cost(fs, entries.drop_last(), depth) + entry_cost(fs, entries.last(), depth)
    }
}

/// How many entries the visit of a stack touches.
pub open spec fn stack_cost(fs: FileSystem, stack: Seq<PendingView>) -> nat
    decreases stack.len(),
{
    if stack.len() == 0 {
        0
    } else {
        entry_cost(fs, stack.last().entry, stack.last().depth) + stack_cost(
            fs,
            stack.drop_last(),
        )
    }
}

/// Entries put on the stack add their own cost to it.
pub proof fn lemma_pushed_cost(
    fs: FileSystem,
    stack: Seq<PendingView>,
    entries: Seq<EntryView>,
    depth: nat,
)
    ensures
        stack_cost(fs, pushed(stack, entries, depth)) == entries_cost(fs, entries, depth)
            + stack_cost(fs, stack),
    decreases entries.len(),
{
    if entries.len() > 0 {
        let last = PendingView { entry: entries.last(), depth };
        let grown = stack.push(last);
        lemma_pushed_cost(fs, grown, entries.drop_last(), depth);
        assert(grown.last() == last);
        assert(grown.drop_last() == stack);
    }
}

/// Whether the file at `path` lies in the tree below `entry`, no deeper
/// than `depth` levels of directories that can be listed.
pub open spec fn entry_holds_file(fs: FileSystem, entry: EntryView, depth: nat, path: Seq<char>) -> bool
    decreases depth, 0nat, 0nat,
{
    if !entry.is_directory {
        entry.path == path
    } else if depth == 0 {
        false
    } else {
        listing_holds_file(fs, (fs.listing)(entry.path), (depth - 1) as nat, path)
    }
}

/// Whether the file at `path` lies in the tree below a listed directory.
pub open spec fn listing_holds_file(
    fs: FileSystem,
    listing: Result<Seq<EntryView>, IoError>,
    depth: nat,
    path: Seq<char>,
) -> bool
    decreases depth, 2nat, 0nat,
{
    match listing {
        Err(_) => false,
        Ok(entries) => entries_hold_file(fs, entries, depth, path),
    }
}

/// Whether the file at `path` lies in the tree below one of these siblings.
pub open spec fn entries_hold_file(
    fs: FileSystem,
    entries: Seq<EntryView>,
    depth: nat,
    path: Seq<char>,
) -> bool
    decreases depth, 1nat, entries.len(),
{
    exists|i: int|
        0 <= i < entries.len() && entry_holds_file(fs, #[trigger] entries[i], depth, path)
}

/// Whether some file in the tree below `entry` has a base name that matches
/// the filename pattern.
pub open spec fn entry_holds_selected(
    fs: FileSystem,
    criteria: SearchCriteria,
    entry: EntryView,
    depth: nat,
) -> bool {
    exists|path: Seq<char>| #[trigger]
        entry_holds_file(fs, entry, depth, path) && criteria.selects_path(path)
}

/// Whether some file in the tree below these siblings has a base name that
/// matches the filename pattern.
pub open spec fn entries_hold_selected(
    fs: FileSystem,
    criteria: SearchCriteria,
    entries: Seq<EntryView>,
    depth: nat,
) -> bool {
    exists|path: Seq<char>| #[trigger]
        entries_hold_file(fs, entries, depth, path) && criteria.selects_path(path)
}

/// The order in which siblings are visited does not change which files lie
/// below them.
pub proof fn lemma_sorted_entries_hold_the_same(
    fs: FileSystem,
    entries: Seq<EntryView>,
    depth: nat,
    path: Seq<char>,
)
    ensures
        entries_hold_file(fs, sorted_entries(entries), depth, path) == entries_hold_file(
            fs,
            entries,
            depth,
            path,
        ),
{
    broadcast use vstd::seq_lib::group_to_multiset_ensures;

    let sorted = sorted_entries(entries);
    lemma_sorted_entries_is_an_ordered_permutation(entries);
    if entries_hold_file(fs, sorted, depth, path) {
        let i = choose|i: int|
            0 <= i < sorted.len() && entry_holds_file(fs, #[trigger] sorted[i], depth, path);
        assert(sorted.to_multiset().count(sorted[i]) > 0);
        assert(entries.contains(sorted[i]));
        let j = choose|j: int| 0 <= j < entries.len() && entries[j] == sorted[i];
        assert(entry_holds_file(fs, entries[j], depth, path));
    }
    if entries_hold_file(fs, entries, depth, path) {
        let i = choose|i: int|
            0 <= i < entries.len() && entry_holds_file(fs, #[trigger] entries[i], depth, path);
        assert(entries.to_multiset().count(entries[i]) > 0);
        assert(sorted.contains(entries[i]));
        let j = choose|j: int| 0 <= j < sorted.len() && sorted[j] == entries[i];
        assert(entry_holds_file(fs, sorted[j], depth, path));
    }
}

/// An entry contributes a match exactly when a file below it has a base
/// name that matches the filename pattern.
pub proof fn lemma_entry_matched(
    fs: FileSystem,
    criteria: SearchCriteria,
    entry: EntryView,
    depth: nat,
)
    ensures
        entry_outcome(fs, criteria, entry, depth).matched == entry_holds_selected(
            fs,
            criteria,
            entry,
            depth,
        ),
    decreases depth, 0nat, 0nat,
{
    if !entry.is_directory {
        if criteria.selects_path(entry.path) {
            assert(entry_holds_file(fs, entry, depth, entry.path));
        }
    } else if depth > 0 {
        match (fs.listing)(entry.path) {
            Err(_) => {},
            Ok(entries) => {
                let below = (depth - 1) as nat;
                let sorted = sorted_entries(entries);
                lemma_entries_matched(fs, criteria, sorted, below);
                if entries_hold_selected(fs, criteria, sorted, below) {
                    let path = choose|path: Seq<char>| #[trigger]
                        entries_hold_file(fs, sorted, below, path) && criteria.selects_path(path);
                    lemma_sorted_entries_hold_the_same(fs, entries, below, path);
                    assert(entry_holds_file(fs, entry, depth, path));
                }
                if entry_holds_selected(fs, criteria, entry, depth) {
                    let path = choose|path: Seq<char>| #[trigger]
                        entry_holds_file(fs, entry, depth, path) && criteria.selects_path(path);
                    lemma_sorted_entries_hold_the_same(fs, entries, below, path);
                    assert(entries_hold_file(fs, sorted, below, path));
                }
            },
        }
    }
}

/// Siblings contribute a match exactly when a file below one of them has a
/// base name that matches the filename pattern.
pub proof fn lemma_entries_matched(
    fs: FileSystem,
    criteria: SearchCriteria,
    entries: Seq<EntryView>,
    depth: nat,
)
    ensures
        entries_outcome(fs, criteria, entries, depth).matched == entries_hold_selected(
            fs,
            criteria,
            entries,
            depth,
        ),
    decreases depth, 1nat, entries.len(),
{
    if entries.len() > 0 {
        let front = entries.drop_last();
        let last = entries.last();
        lemma_entries_matched(fs, criteria, front, depth);
        lemma_entry_matched(fs, criteria, last, depth);
        if entries_hold_selected(fs, criteria, front, depth) {
            let path = choose|path: Seq<char>| #[trigger]
                entries_hold_file(fs, front, depth, path) && criteria.selects_path(path);
            let i = choose|i: int|
                0 <= i < front.len() && entry_holds_file(fs, #[trigger] front[i], depth, path);
            assert(entries[i] == front[i]);
            assert(entries_hold_file(fs, entries, depth, path));
        }
        if entry_holds_selected(fs, criteria, last, depth) {
            let path = choose|path: Seq<char>| #[trigger]
                entry_holds_file(fs, last, depth, path) && criteria.selects_path(path);
            assert(entries[entries.len() - 1] == last);
            assert(entries_hold_file(fs, entries, depth, path));
        }
        if entries_hold_selected(fs, criteria, entries, depth) {
            let path = choose|path: Seq<char>| #[trigger]
                entries_hold_file(fs, entries, depth, path) && criteria.selects_path(path);
            let i = choose|i: int|
                0 <= i < entries.len() && entry_holds_file(fs, #[trigger] entries[i], depth, path);
            if i < front.len() {
                assert(front[i] == entries[i]);
                assert(entries_hold_file(fs, front, depth, path));
            } else {
                assert(entry_holds_file(fs, last, depth, path));
            }
        }
    }
}

/// Whether the file at `path` lies in the tree below the directory `root`,
/// no deeper than `max_depth` levels of directories below it.
pub open spec fn tree_holds_file(
    fs: FileSystem,
    root: Seq<char>,
    max_depth: nat,
    path: Seq<char>,
) -> bool {
    listing_holds_file(fs, (fs.listing)(root), max_depth, path)
}

/// A traversal reports a match exactly when at least one file of the tree
/// has a base name that matches the filename pattern, whatever its lines hold.
pub proof fn lemma_matched_iff_a_file_is_selected(
    fs: FileSystem,
    criteria: SearchCriteria,
    root: Seq<char>,
    max_depth: nat,
)
    requires
        (fs.listing)(root) is Ok,
    ensures
        traversal_outcome(fs, criteria, root, max_depth) is Ok,
        traversal_outcome(fs, criteria, root, max_depth)->Ok_0.matched <==> exists|
            path: Seq<char>,
        | #[trigger] tree_holds_file(fs, root, max_depth, path) && criteria.selects_path(path),
{
    let entries = (fs.listing)(root)->Ok_0;
    let sorted = sorted_entries(entries);
    lemma_entries_matched(fs, criteria, sorted, max_depth);
    if entries_hold_selected(fs, criteria, sorted, max_depth) {
        let path = choose|path: Seq<char>| #[trigger]
            entries_hold_file(fs, sorted, max_depth, path) && criteria.selects_path(path);
        lemma_sorted_entries_hold_the_same(fs, entries, max_depth, path);
        assert(tree_holds_file(fs, root, max_depth, path));
    }
    if exists|path: Seq<char>| #[trigger]
        tree_holds_file(fs, root, max_depth, path) && criteria.selects_path(path) {
        let path = choose|path: Seq<char>| #[trigger]
            tree_holds_file(fs, root, max_depth, path) && criteria.selects_path(path);
        lemma_sorted_entries_hold_the_same(fs, entries, max_depth, path);
        assert(entries_hold_file(fs, sorted, max_depth, path));
    }
}

/// What a file contributes does not depend on its text unless its base name
/// matches the filename pattern and a content pattern is set: two file systems
/// that agree on such files' texts give one outcome.
pub proof fn lemma_text_is_only_read_of_selected_files(
    fs: FileSystem,
    other: FileSystem,
    criteria: SearchCriteria,
    path: Seq<char>,
)
    requires
        criteria.selects_path(path) && criteria.content_pattern is Some ==> (fs.content)(path)
            == (other.content)(path),
    ensures
        file_outcome(fs, criteria, path) == file_outcome(other, criteria, path),
{
}

/// A file whose base name matches the filename pattern, and of whose lines
/// the content pattern accepts none, counts as found and contributes no line.
pub proof fn lemma_selected_file_without_matching_line(
    fs: FileSystem,
    criteria: SearchCriteria,
    path: Seq<char>,
    text: Seq<char>,
)
    requires
        criteria.selects_path(path),
        criteria.content_pattern is Some,
        (fs.content)(path) == Ok::<Seq<char>, IoError>(text),
        forall|i: int|
            0 <= i < lines_of(text).len() ==> !regex_accepts(
                criteria.content_pattern->Some_0,
                #[trigger] lines_of(text)[i],
            ),
    ensures
        file_outcome(fs, criteria, path).matched,
        file_outcome(fs, criteria, path).lines.len() == 0,
{
    lemma_found_without_matching_line(path, text, criteria.content_pattern->Some_0);
}

} // verus!
