//! Scanning the text of a file for lines that match the content pattern.

use vstd::prelude::*;
use crate::pattern::{pattern_matches, regex_accepts};
use crate::report::{EntryFailure, IoError, LineMatch, LineMatchView, Outcome};
use crate::text::{lines_of, split_lines};

verus! {

/// The most lines a file may have for its lines to be numbered.
pub const MAX_LINES: usize = 0xffff_ffff;

/// The lines among `lines` that `pattern` accepts, each with its position,
/// counted from 1, in the order of the file.
pub open spec fn matching_lines(
    path: Seq<char>,
    lines: Seq<Seq<char>>,
    pattern: regex::Regex,
) -> Seq<LineMatchView>
    decreases lines.len(),
{
    if lines.len() == 0 {
        Seq::empty()
    } else {
        let earlier = matching_lines(path, lines.drop_last(), pattern);
        if regex_accepts(pattern, lines.last()) {
            earlier.push(
                LineMatchView { file_path: path, line_number: lines.len(), line_text: lines.last() },
            )
        } else {
            earlier
        }
    }
}

/// Every record of `matching_lines` names the file, a line of it by its
/// 1-based number and that line's text, which the pattern accepts; the numbers
/// strictly increase; and no accepted line is missing.
pub proof fn lemma_matching_lines(path: Seq<char>, lines: Seq<Seq<char>>, pattern: regex::Regex)
    ensures
        matching_lines(path, lines, pattern).len() <= lines.len(),
        forall|k: int|
            0 <= k < matching_lines(path, lines, pattern).len() ==> {
                let m = #[trigger] matching_lines(path, lines, pattern)[k];
                &&& m.file_path == path
                &&& 1 <= m.line_number <= lines.len()
                &&& m.line_text == lines[m.line_number - 1]
                &&& regex_accepts(pattern, m.line_text)
            },
        forall|j: int, k: int|
            0 <= j < k < matching_lines(path, lines, pattern).len() ==> (
            #[trigger] matching_lines(path, lines, pattern)[j]).line_number < (
            #[trigger] matching_lines(path, lines, pattern)[k]).line_number,
        forall|i: int|
            0 <= i < lines.len() && regex_accepts(pattern, #[trigger] lines[i]) ==> exists|k: int|
                0 <= k < matching_lines(path, lines, pattern).len() && (
                #[trigger] matching_lines(path, lines, pattern)[k]).line_number == i + 1,
    decreases lines.len(),
{
    if lines.len() > 0 {
        let front = lines.drop_last();
        let earlier = matching_lines(path, front, pattern);
        let all = matching_lines(path, lines, pattern);
        lemma_matching_lines(path, front, pattern);
        assert forall|k: int| 0 <= k < all.len() implies {
            let m = #[trigger] all[k];
            &&& m.file_path == path
            &&& 1 <= m.line_number <= lines.len()
            &&& m.line_text == lines[m.line_number - 1]
            &&& regex_accepts(pattern, m.line_text)
        } by {
            if k < earlier.len() {
                let m = earlier[k];
                assert(all[k] == m);
                assert(front[m.line_number - 1] == lines[m.line_number - 1]);
            }
        }
        assert forall|j: int, k: int| 0 <= j < k < all.len() implies (#[trigger] all[j]).line_number
            < (#[trigger] all[k]).line_number by {
            assert(all[j] == earlier[j]);
            if k < earlier.len() {
                assert(all[k] == earlier[k]);
            }
        }
        assert forall|i: int|
            0 <= i < lines.len() && regex_accepts(pattern, #[trigger] lines[i]) implies exists|
            k: int,
        | 0 <= k < all.len() && (#[trigger] all[k]).line_number == i + 1 by {
            if i < front.len() {
                assert(front[i] == lines[i]);
                let k = choose|k: int|
                    0 <= k < earlier.len() && (#[trigger] earlier[k]).line_number == i + 1;
                assert(all[k] == earlier[k]);
            } else {
                assert(all[all.len() - 1].line_number == i + 1);
            }
        }
    }
}

/// A file of which the pattern accepts no line yields no record.
pub proof fn lemma_no_accepted_line_no_record(
    path: Seq<char>,
    lines: Seq<Seq<char>>,
    pattern: regex::Regex,
)
    requires
        forall|i: int| 0 <= i < lines.len() ==> !regex_accepts(pattern, #[trigger] lines[i]),
    ensures
        matching_lines(path, lines, pattern).len() == 0,
    decreases lines.len(),
{
    if lines.len() > 0 {
        let front = lines.drop_last();
        assert forall|i: int| 0 <= i < front.len() implies !regex_accepts(
            pattern,
            #[trigger] front[i],
        ) by {
            assert(front[i] == lines[i]);
        }
        lemma_no_accepted_line_no_record(path, front, pattern);
        assert(lines.last() == lines[lines.len() - 1]);
    }
}

/// Finds the lines that `pattern` accepts among the lines of the file at `path`.
pub fn scan_lines(path: &str, lines: &Vec<String>, pattern: &regex::Regex) -> (found: Vec<
    LineMatch,
>)
    requires
        lines.len() <= MAX_LINES,
    ensures
        found.deep_view() == matching_lines(path@, lines.deep_view(), *pattern),
{
    let mut found: Vec<LineMatch> = Vec::new();
    let mut i: usize = 0;
    let ghost all = lines.deep_view();
    assert(found.deep_view() == Seq::<LineMatchView>::empty());
    assert(all.take(0) == Seq::<Seq<char>>::empty());
    while i < lines.len()
        invariant
            i <= lines.len() <= MAX_LINES,
            all == lines.deep_view(),
            found.deep_view() == matching_lines(path@, all.take(i as int), *pattern),
        decreases lines.len() - i,
    {
        let line = &lines[i];
        proof {
            let upto = all.take(i + 1);
            assert(upto.drop_last() == all.take(i as int));
            assert(upto.last() == line@);
        }
        if pattern_matches(pattern, line.as_str()) {
            let ghost before = found.deep_view();
            let number: u32 = (i + 1) as u32;
            let record = LineMatch {
                file_path: path.to_owned(),
                line_number: number,
                line_text: line.clone(),
            };
            found.push(record);
            assert(found.deep_view() == before.push(record@));
        }
        i = i + 1;
    }
    assert(all.take(lines.len() as int) == all);
    found
}

/// What scanning a text gives: the records of its matching lines, or the
/// reason why it is not scanned. A text without any character is not, nor
/// one with more lines than can be numbered.
pub open spec fn scanned(path: Seq<char>, text: Seq<char>, pattern: regex::Regex) -> Result<
    Seq<LineMatchView>,
    EntryFailure,
> {
    if text.len() == 0 {
        Err(EntryFailure::EmptyFile)
    } else if lines_of(text).len() > MAX_LINES {
        Err(EntryFailure::TooManyLines)
    } else {
        Ok(matching_lines(path, lines_of(text), pattern))
    }
}

/// Splits the text of the file at `path` into lines and finds those that
/// `pattern` accepts.
pub fn scan_text(path: &str, text: &str, pattern: &regex::Regex) -> (found: Result<
    Vec<LineMatch>,
    EntryFailure,
>)
    ensures
        match found {
            Ok(records) => scanned(path@, text@, *pattern) == Ok::<
                Seq<LineMatchView>,
                EntryFailure,
            >(records.deep_view()),
            Err(failure) => scanned(path@, text@, *pattern) == Err::<
                Seq<LineMatchView>,
                EntryFailure,
            >(failure),
        },
{
    if text.is_empty() {
        return Err(EntryFailure::EmptyFile);
    }
    let lines = split_lines(text);
    assert(lines.len() == lines_of(text@).len());
    if lines.len() > MAX_LINES {
        return Err(EntryFailure::TooManyLines);
    }
    Ok(scan_lines(path, &lines, pattern))
}

/// What a file that matched the filename pattern contributes once its text
/// was asked for: it counts as found whatever came back; its matching lines
/// are reported where the text could be read and scanned, and a warning where
/// it could not.
pub open spec fn read_outcome(
    path: Seq<char>,
    read: Result<Seq<char>, IoError>,
    pattern: regex::Regex,
) -> Outcome {
    match read {
        Err(error) => Outcome::found().followed_by(
            Outcome::passed_over(path, EntryFailure::ReadFailed(error)),
        ),
        Ok(text) => match scanned(path, text, pattern) {
            Err(failure) => Outcome::found().followed_by(Outcome::passed_over(path, failure)),
            Ok(lines) => Outcome { matched: true, lines, warnings: Seq::empty() },
        },
    }
}

/// A file whose name matched and none of whose lines does counts as found
/// and contributes no line.
pub proof fn lemma_found_without_matching_line(
    path: Seq<char>,
    text: Seq<char>,
    pattern: regex::Regex,
)
    requires
        forall|i: int|
            0 <= i < lines_of(text).len() ==> !regex_accepts(pattern, #[trigger] lines_of(text)[i]),
    ensures
        read_outcome(path, Ok(text), pattern).matched,
        read_outcome(path, Ok(text), pattern).lines.len() == 0,
{
    lemma_no_accepted_line_no_record(path, lines_of(text), pattern);
}

} // verus!
