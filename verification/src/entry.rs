//! Directory entries and the order in which siblings are visited.

use vstd::prelude::*;
use vstd::string::StringSliceAdditionalSpecFns;
use vstd::utf8::encode_utf8;

verus! {

/// A node of the tree as the file system hands it out.
#[derive(Debug, Clone, PartialEq, Eq)]
pub struct DirectoryEntry {
    pub path: String,
    pub is_directory: bool,
}

/// A [`DirectoryEntry`] as a value of the model.
pub struct EntryView {
    pub path: Seq<char>,
    pub is_directory: bool,
}

impl View for DirectoryEntry {
    type V = EntryView;

    open spec fn view(&self) -> EntryView {
        EntryView { path: self.path@, is_directory: self.is_directory }
    }
}

impl DeepView for DirectoryEntry {
    type V = EntryView;

    open spec fn deep_view(&self) -> EntryView {
        self@
    }
}

/// Lexicographic order on bytes: `a` comes before `b`, or equals it.
pub open spec fn bytes_precede(a: Seq<u8>, b: Seq<u8>) -> bool
    decreases a.len(),
{
    if a.len() == 0 {
        true
    } else if b.len() == 0 {
        false
    } else if a[0] != b[0] {
        a[0] < b[0]
    } else {
        bytes_precede(a.drop_first(), b.drop_first())
    }
}

/// The order of paths: that of their UTF-8 bytes, which is the order of `str`.
pub open spec fn path_precedes(a: Seq<char>, b: Seq<char>) -> bool {
    bytes_precede(encode_utf8(a), encode_utf8(b))
}

/// Any two byte strings are comparable.
pub proof fn lemma_bytes_precede_total(a: Seq<u8>, b: Seq<u8>)
    ensures
        bytes_precede(a, b) || bytes_precede(b, a),
    decreases a.len(),
{
    if a.len() > 0 && b.len() > 0 && a[0] == b[0] {
        lemma_bytes_precede_total(a.drop_first(), b.drop_first());
    }
}

/// The order on byte strings is transitive.
pub proof fn lemma_bytes_precede_transitive(a: Seq<u8>, b: Seq<u8>, c: Seq<u8>)
    requires
        bytes_precede(a, b),
        bytes_precede(b, c),
    ensures
        bytes_precede(a, c),
    decreases a.len(),
{
    if a.len() > 0 && b.len() > 0 && c.len() > 0 && a[0] == b[0] && b[0] == c[0] {
        lemma_bytes_precede_transitive(a.drop_first(), b.drop_first(), c.drop_first());
    }
}

/// Whether the path `a` comes before the path `b` or equals it.
pub fn path_le(a: &str, b: &str) -> (le: bool)
    ensures
        le == path_precedes(a@, b@),
{
    let x = a.as_bytes();
    let y = b.as_bytes();
    let mut i: usize = 0;
    assert(x@.skip(0) == x@ && y@.skip(0) == y@);
    while i < x.len() && i < y.len() && x[i] == y[i]
        invariant
            i <= x.len(),
            i <= y.len(),
            bytes_precede(x@, y@) == bytes_precede(x@.skip(i as int), y@.skip(i as int)),
        decreases x.len() - i,
    {
        assert(x@.skip(i as int).drop_first() == x@.skip(i + 1));
        assert(y@.skip(i as int).drop_first() == y@.skip(i + 1));
        i = i + 1;
    }
    if i == x.len() {
        true
    } else if i == y.len() {
        false
    } else {
        x[i] < y[i]
    }
}

/// `sorted` with `e` put in before the first entry that `e` precedes.
pub open spec fn insert_entry(e: EntryView, sorted: Seq<EntryView>) -> Seq<EntryView>
    decreases sorted.len(),
{
    if sorted.len() == 0 {
        seq![e]
    } else if path_precedes(e.path, sorted[0].path) {
        seq![e] + sorted
    } else {
        seq![sorted[0]] + insert_entry(e, sorted.drop_first())
    }
}

/// The entries in the order of their paths; entries with one path stay in
/// the order in which they came.
pub open spec fn sorted_entries(entries: Seq<EntryView>) -> Seq<EntryView>
    decreases entries.len(),
{
    if entries.len() == 0 {
        Seq::empty()
    } else {
        insert_entry(entries[0], sorted_entries(entries.drop_first()))
    }
}

/// Whether each entry precedes all that follow it.
pub open spec fn in_path_order(entries: Seq<EntryView>) -> bool {
    forall|i: int, j: int|
        0 <= i < j < entries.len() ==> path_precedes(
            (#[trigger] entries[i]).path,
            (#[trigger] entries[j]).path,
        )
}

/// Inserting at a position before which nothing is preceded by `e`, and at
/// which stands an entry that `e` precedes, is what `insert_entry` does.
pub proof fn lemma_insert_entry_at(e: EntryView, sorted: Seq<EntryView>, at: int)
    requires
        0 <= at <= sorted.len(),
        forall|j: int| 0 <= j < at ==> !path_precedes(e.path, (#[trigger] sorted[j]).path),
        at < sorted.len() ==> path_precedes(e.path, sorted[at].path),
    ensures
        insert_entry(e, sorted) == sorted.insert(at, e),
    decreases sorted.len(),
{
    if sorted.len() == 0 {
        assert(sorted.insert(at, e) == seq![e]);
    } else if at == 0 {
        assert(sorted.insert(0, e) == seq![e] + sorted);
    } else {
        let rest = sorted.drop_first();
        assert(!path_precedes(e.path, sorted[0].path));
        assert forall|j: int| 0 <= j < at - 1 implies !path_precedes(
            e.path,
            (#[trigger] rest[j]).path,
        ) by {
            assert(rest[j] == sorted[j + 1]);
        }
        lemma_insert_entry_at(e, rest, at - 1);
        assert(sorted.insert(at, e) == seq![sorted[0]] + rest.insert(at - 1, e));
    }
}

/// Inserting keeps every entry and adds the new one.
pub proof fn lemma_insert_entry_holds(e: EntryView, sorted: Seq<EntryView>)
    ensures
        insert_entry(e, sorted).to_multiset() == sorted.to_multiset().insert(e),
        insert_entry(e, sorted).len() == sorted.len() + 1,
        in_path_order(sorted) ==> in_path_order(insert_entry(e, sorted)),
    decreases sorted.len(),
{
    broadcast use vstd::seq_lib::group_to_multiset_ensures;

    if sorted.len() == 0 {
        assert(seq![e] == Seq::<EntryView>::empty().push(e));
        assert(sorted == Seq::<EntryView>::empty());
    } else if path_precedes(e.path, sorted[0].path) {
        assert(seq![e] + sorted == sorted.insert(0, e));
        vstd::seq_lib::to_multiset_insert(sorted, 0, e);
        if in_path_order(sorted) {
            let out = seq![e] + sorted;
            assert forall|i: int, j: int| 0 <= i < j < out.len() implies path_precedes(
                (#[trigger] out[i]).path,
                (#[trigger] out[j]).path,
            ) by {
                if i == 0 {
                    assert(out[j] == sorted[j - 1]);
                    if j > 1 {
                        assert(path_precedes(sorted[0].path, sorted[j - 1].path));
                        lemma_bytes_precede_transitive(
                            encode_utf8(e.path),
                            encode_utf8(sorted[0].path),
                            encode_utf8(sorted[j - 1].path),
                        );
                    }
                } else {
                    assert(out[i] == sorted[i - 1] && out[j] == sorted[j - 1]);
                }
            }
        }
    } else {
        let rest = sorted.drop_first();
        let inner = insert_entry(e, rest);
        lemma_insert_entry_holds(e, rest);
        let out = seq![sorted[0]] + inner;
        assert(out == inner.insert(0, sorted[0]));
        vstd::seq_lib::to_multiset_insert(inner, 0, sorted[0]);
        assert(sorted == rest.insert(0, sorted[0]));
        vstd::seq_lib::to_multiset_insert(rest, 0, sorted[0]);
        assert(out.to_multiset() =~= sorted.to_multiset().insert(e));
        if in_path_order(sorted) {
            assert forall|i: int, j: int| 0 <= i < j < rest.len() implies path_precedes(
                (#[trigger] rest[i]).path,
                (#[trigger] rest[j]).path,
            ) by {
                assert(rest[i] == sorted[i + 1] && rest[j] == sorted[j + 1]);
            }
            assert(in_path_order(inner));
            lemma_bytes_precede_total(encode_utf8(e.path), encode_utf8(sorted[0].path));
            assert forall|i: int, j: int| 0 <= i < j < out.len() implies path_precedes(
                (#[trigger] out[i]).path,
                (#[trigger] out[j]).path,
            ) by {
                if i == 0 {
                    let x = out[j];
                    assert(x == inner[j - 1]);
                    assert(inner.to_multiset().count(x) > 0);
                    if x != e {
                        assert(rest.to_multiset().count(x) > 0);
                        assert(rest.contains(x));
                        let k = choose|k: int| 0 <= k < rest.len() && rest[k] == x;
                        assert(sorted[k + 1] == x);
                    }
                } else {
                    assert(out[i] == inner[i - 1] && out[j] == inner[j - 1]);
                }
            }
        }
    }
}

/// Sorting neither drops nor adds an entry, and leaves the entries in the
/// order of their paths.
pub proof fn lemma_sorted_entries_is_an_ordered_permutation(entries: Seq<EntryView>)
    ensures
        sorted_entries(entries).to_multiset() == entries.to_multiset(),
        sorted_entries(entries).len() == entries.len(),
        in_path_order(sorted_entries(entries)),
    decreases entries.len(),
{
    broadcast use vstd::seq_lib::group_to_multiset_ensures;

    if entries.len() > 0 {
        let rest = entries.drop_first();
        lemma_sorted_entries_is_an_ordered_permutation(rest);
        lemma_insert_entry_holds(entries[0], sorted_entries(rest));
        assert(entries == rest.insert(0, entries[0]));
        vstd::seq_lib::to_multiset_insert(rest, 0, entries[0]);
    } else {
        assert(entries == Seq::<EntryView>::empty());
    }
}

/// Puts the entries of a listing in the order in which they are visited.
pub fn sort_entries(entries: Vec<DirectoryEntry>) -> (sorted: Vec<DirectoryEntry>)
    ensures
        sorted.deep_view() == sorted_entries(entries.deep_view()),
{
    let mut rest = entries;
    let mut sorted: Vec<DirectoryEntry> = Vec::new();
    let ghost all = rest.deep_view();
    assert(all.skip(all.len() as int) == Seq::<EntryView>::empty());
    assert(sorted.deep_view() == Seq::<EntryView>::empty());
    while rest.len() > 0
        invariant
            rest.deep_view() == all.take(rest.len() as int),
            rest.len() <= all.len(),
            sorted.deep_view() == sorted_entries(all.skip(rest.len() as int)),
        decreases rest.len(),
    {
        let ghost before = rest.deep_view();
        let ghost done = sorted.deep_view();
        let e = rest.pop().unwrap();
        assert(e@ == before[before.len() - 1]);
        assert(rest.deep_view() == before.drop_last());
        assert(before.drop_last() == all.take(rest.len() as int));
        let mut at: usize = 0;
        while at < sorted.len() && !path_le(e.path.as_str(), sorted[at].path.as_str())
            invariant
                at <= sorted.len(),
                sorted.deep_view() == done,
                forall|j: int| 0 <= j < at ==> !path_precedes(e@.path, (#[trigger] done[j]).path),
            decreases sorted.len() - at,
        {
            at = at + 1;
        }
        proof {
            if at < sorted.len() {
                assert(done[at as int] == sorted@[at as int]@);
            }
            lemma_insert_entry_at(e@, done, at as int);
            let tail = all.skip(rest.len() as int);
            assert(tail.drop_first() == all.skip(rest.len() + 1));
            assert(tail[0] == e@);
        }
        let ghost placed = e;
        let ghost earlier = sorted@;
        sorted.insert(at, e);
        assert(sorted.deep_view() == done.insert(at as int, placed@)) by {
            let target = done.insert(at as int, placed@);
            assert(sorted@ == earlier.insert(at as int, placed));
            assert forall|k: int| 0 <= k < target.len() implies sorted.deep_view()[k]
                == target[k] by {
                if k < at {
                    assert(sorted@[k] == earlier[k]);
                } else if k > at {
                    assert(sorted@[k] == earlier[k - 1]);
                }
            }
        }
    }
    assert(all.skip(0) == all);
    sorted
}

} // verus!
