//! Text handling: the characters of a string, base names of paths, lines of a file.

use vstd::prelude::*;
use vstd::std_specs::iter::IteratorSpec;

verus! {

/// Builds a `String` out of characters; wraps `Iterator::collect` into a `String`,
/// which yields the string made of exactly the given characters, in order.
#[verifier::external_body]
pub(crate) fn string_from_chars(chars: &Vec<char>) -> (s: String)
    ensures
        s@ == chars@,
{
    chars.iter().collect()
}

/// The characters of `s`, in order.
pub fn chars_of(s: &str) -> (chars: Vec<char>)
    ensures
        chars@ == s@,
{
    broadcast use vstd::string::group_string_axioms;
    let mut chars: Vec<char> = Vec::new();
    let mut it = s.chars();
    loop
        invariant
            it.obeys_prophetic_iter_laws(),
            it.decrease() is Some,
            chars@ + it.remaining() == s@,
        decreases it.decrease()->0,
    {
        let ghost before = it;
        match it.next() {
            Some(c) => {
                proof {
                    assert(before.remaining() == seq![c] + it.remaining());
                    assert(chars@.push(c) + it.remaining() == chars@ + before.remaining());
                }
                chars.push(c);
            },
            None => {
                assert(chars@ + it.remaining() == chars@);
                return chars;
            },
        }
    }
}

/// Index of the last `/` of `path`, or -1 where it has none.
pub open spec fn last_separator(path: Seq<char>) -> int
    decreases path.len(),
{
    if path.len() == 0 {
        -1
    } else if path.last() == '/' {
        path.len() - 1
    } else {
        last_separator(path.drop_last())
    }
}

/// The base name of a path: what follows its last `/`, the whole path where it has none.
pub open spec fn base_name_of(path: Seq<char>) -> Seq<char> {
    path.skip(last_separator(path) + 1)
}

/// The base name is the longest suffix of the path that holds no separator.
pub proof fn lemma_base_name_is_longest_plain_suffix(path: Seq<char>)
    ensures
        -1 <= last_separator(path) < path.len(),
        last_separator(path) >= 0 ==> path[last_separator(path)] == '/',
        forall|j: int| last_separator(path) < j < path.len() ==> path[j] != '/',
        forall|j: int| 0 <= j < base_name_of(path).len() ==> base_name_of(path)[j] != '/',
        path.take(last_separator(path) + 1) + base_name_of(path) == path,
    decreases path.len(),
{
    if path.len() > 0 && path.last() != '/' {
        let front = path.drop_last();
        lemma_base_name_is_longest_plain_suffix(front);
        assert forall|j: int| last_separator(path) < j < path.len() implies path[j] != '/' by {
            if j < front.len() {
                assert(path[j] == front[j]);
            }
        }
        assert(path.take(last_separator(path) + 1) == front.take(last_separator(path) + 1));
    }
    assert forall|j: int| 0 <= j < base_name_of(path).len() implies base_name_of(path)[j]
        != '/' by {
        assert(base_name_of(path)[j] == path[last_separator(path) + 1 + j]);
    }
}

/// The base name of `path`, as a string of its own.
pub fn base_name(path: &str) -> (name: String)
    ensures
        name@ == base_name_of(path@),
{
    let chars = chars_of(path);
    let mut start: usize = chars.len();
    assert(chars@.take(start as int) == chars@);
    while start > 0 && chars[start - 1] != '/'
        invariant
            start <= chars.len(),
            last_separator(chars@) == last_separator(chars@.take(start as int)),
        decreases start,
    {
        assert(chars@.take(start as int).drop_last() == chars@.take(start - 1));
        start = start - 1;
    }
    assert(last_separator(chars@) + 1 == start) by {
        if start > 0 {
            assert(chars@.take(start as int).last() == '/');
        }
    }
    let mut name: Vec<char> = Vec::new();
    let mut i: usize = start;
    while i < chars.len()
        invariant
            start <= i <= chars.len(),
            name@ == chars@.subrange(start as int, i as int),
        decreases chars.len() - i,
    {
        name.push(chars[i]);
        i = i + 1;
    }
    assert(name@ == chars@.skip(start as int));
    string_from_chars(&name)
}

/// Length of the first line of `text`: the index of its first line feed, or
/// the length of `text` where it has none.
pub open spec fn line_end(text: Seq<char>) -> nat
    decreases text.len(),
{
    if text.len() == 0 || text[0] == '\n' {
        0
    } else {
        1 + line_end(text.drop_first())
    }
}

/// A line without the carriage return that stood before its line feed.
pub open spec fn strip_carriage_return(line: Seq<char>) -> Seq<char> {
    if line.len() > 0 && line.last() == '\r' {
        line.drop_last()
    } else {
        line
    }
}

/// The lines of a text. A line ends at a line feed, which is not part of it;
/// neither is a carriage return directly before that line feed. Text after
/// the last line feed is a line of its own, kept as it is, unless it is empty.
pub open spec fn lines_of(text: Seq<char>) -> Seq<Seq<char>>
    decreases text.len(),
{
    if text.len() == 0 {
        Seq::empty()
    } else {
        let n = line_end(text);
        if n >= text.len() {
            seq![text]
        } else {
            seq![strip_carriage_return(text.take(n as int))] + lines_of(text.skip(n as int + 1))
        }
    }
}

/// `line_end` is where the first line feed stands.
pub proof fn lemma_line_end(text: Seq<char>, k: int)
    requires
        0 <= k <= text.len(),
        forall|j: int| 0 <= j < k ==> text[j] != '\n',
        k < text.len() ==> text[k] == '\n',
    ensures
        line_end(text) == k,
    decreases k,
{
    if k > 0 {
        lemma_line_end(text.drop_first(), k - 1);
    }
}

/// No line of a text holds a line feed, and a text has at most as many lines
/// as characters.
pub proof fn lemma_lines_hold_no_line_feed(text: Seq<char>)
    ensures
        lines_of(text).len() <= text.len(),
        forall|i: int, j: int|
            0 <= i < lines_of(text).len() && 0 <= j < lines_of(text)[i].len()
                ==> #[trigger] lines_of(text)[i][j] != '\n',
    decreases text.len(),
{
    if text.len() > 0 {
        lemma_line_end_bounds(text);
        let n = line_end(text);
        if n < text.len() {
            lemma_lines_hold_no_line_feed(text.skip(n as int + 1));
            let rest = lines_of(text.skip(n as int + 1));
            let first = strip_carriage_return(text.take(n as int));
            assert forall|i: int, j: int|
                0 <= i < lines_of(text).len() && 0 <= j < lines_of(text)[i].len()
                implies #[trigger] lines_of(text)[i][j] != '\n' by {
                if i == 0 {
                    assert(first[j] == text[j]);
                } else {
                    assert(lines_of(text)[i] == rest[i - 1]);
                }
            }
        }
    }
}

/// Before `line_end` no line feed stands, and at it one does, where it is
/// inside the text.
pub proof fn lemma_line_end_bounds(text: Seq<char>)
    ensures
        line_end(text) <= text.len(),
        forall|j: int| 0 <= j < line_end(text) ==> text[j] != '\n',
        line_end(text) < text.len() ==> text[line_end(text) as int] == '\n',
    decreases text.len(),
{
    if !(text.len() == 0 || text[0] == '\n') {
        let rest = text.drop_first();
        lemma_line_end_bounds(rest);
        assert forall|j: int| 0 <= j < line_end(text) implies text[j] != '\n' by {
            if j > 0 {
                assert(text[j] == rest[j - 1]);
            }
        }
        if line_end(text) < text.len() {
            assert(text[line_end(text) as int] == rest[line_end(rest) as int]);
        }
    }
}

/// Splits a text into its lines.
pub fn split_lines(text: &str) -> (lines: Vec<String>)
    ensures
        lines.deep_view() == lines_of(text@),
{
    let chars = chars_of(text);
    let mut lines: Vec<String> = Vec::new();
    let mut line: Vec<char> = Vec::new();
    let mut start: usize = 0;
    let mut i: usize = 0;
    assert(chars@.skip(0) == chars@);
    assert(lines.deep_view() == Seq::<Seq<char>>::empty());
    while i < chars.len()
        invariant
            start <= i <= chars.len(),
            chars@ == text@,
            line@ == chars@.subrange(start as int, i as int),
            forall|j: int| start <= j < i ==> chars@[j] != '\n',
            lines_of(chars@) == lines.deep_view() + lines_of(chars@.skip(start as int)),
        decreases chars.len() - i,
    {
        let c = chars[i];
        if c == '\n' {
            let ghost tail = chars@.skip(start as int);
            proof {
                lemma_line_end(tail, i - start);
                assert(tail.take(i - start) == line@);
                assert(tail.skip(i - start + 1) == chars@.skip(i + 1));
            }
            let n = line.len();
            if n > 0 && line[n - 1] == '\r' {
                line.pop();
            }
            assert(line@ == strip_carriage_return(tail.take(i - start)));
            let finished = string_from_chars(&line);
            let ghost before = lines.deep_view();
            lines.push(finished);
            assert(lines.deep_view() == before.push(line@));
            assert(before.push(line@) + lines_of(chars@.skip(i + 1)) == before + (seq![line@]
                + lines_of(chars@.skip(i + 1))));
            line = Vec::new();
            start = i + 1;
        } else {
            line.push(c);
        }
        i = i + 1;
    }
    let ghost tail = chars@.skip(start as int);
    if start < chars.len() {
        proof {
            lemma_line_end(tail, chars.len() - start);
            assert(line@ == tail);
        }
        let finished = string_from_chars(&line);
        let ghost before = lines.deep_view();
        lines.push(finished);
        assert(lines.deep_view() == before.push(line@));
        assert(before.push(line@) == before + seq![tail]);
    } else {
        assert(lines.deep_view() + Seq::<Seq<char>>::empty() == lines.deep_view());
    }
    lines
}

} // verus!
