//! The change-set model: the outcome of diffing a repository between two
//! points in its history, as a map from file path to a file-level outcome,
//! each carrying a line-level remap table; and the adjustment algorithm that
//! maps an old line number to its new position.

use vstd::prelude::*;

use crate::paths::RelativePathBuf;

verus! {

/// A file-level event of one diff: `from` names the old path; `to` is absent
/// when the file was deleted, and names the new path otherwise.
pub struct DiffFileEvent {
    pub from: RelativePathBuf,
    pub to: Option<RelativePathBuf>,
}

/// A line-level event of one diff for the file named by `key`: both ends
/// present means the line was explicitly paired, only `to` means a line was
/// added, only `from` means a line was deleted.
pub struct DiffLineEvent {
    pub key: RelativePathBuf,
    pub from: Option<u32>,
    pub to: Option<u32>,
}

/// Mathematical model of a line-level change set.
pub ghost struct LineModel {
    /// Explicitly paired lines, in insertion order; earlier entries win.
    pub moved: Seq<(usize, usize)>,
    /// New line numbers of added lines, ascending.
    pub added: Seq<usize>,
    /// Old line numbers of deleted lines, ascending.
    pub deleted: Seq<usize>,
}

/// Mathematical model of a file-level change.
pub ghost enum FileModel {
    Deleted,
    Renamed { new_name: Seq<Seq<char>>, lines: LineModel },
    Changed { lines: LineModel },
}

impl FileModel {
    /// The line-level part of this change; empty for a deleted file.
    pub open spec fn lines(self) -> LineModel {
        match self {
            FileModel::Deleted => LineModel {
                moved: Seq::empty(),
                added: Seq::empty(),
                deleted: Seq::empty(),
            },
            FileModel::Renamed { lines, .. } => lines,
            FileModel::Changed { lines } => lines,
        }
    }
}

/// Strictly ascending: element order mirrors value order, no duplicates.
pub open spec fn sorted_strict(s: Seq<usize>) -> bool {
    forall|i: int, j: int| 0 <= i < j < s.len() ==> s[i] < s[j]
}

/// No two pairs share a first component.
pub open spec fn unique_pair_keys(s: Seq<(usize, usize)>) -> bool {
    forall|i: int, j: int| 0 <= i < j < s.len() ==> (#[trigger] s[i]).0 != (#[trigger] s[j]).0
}

impl LineModel {
    /// A line-level model is well formed when its pair keys are unique and
    /// its added and deleted sets are kept sorted.
    pub open spec fn wf(self) -> bool {
        &&& unique_pair_keys(self.moved)
        &&& sorted_strict(self.added)
        &&& sorted_strict(self.deleted)
    }

    pub open spec fn empty() -> LineModel {
        LineModel { moved: Seq::empty(), added: Seq::empty(), deleted: Seq::empty() }
    }
}

impl FileModel {
    pub open spec fn wf(self) -> bool {
        self.lines().wf()
    }
}

/// The explicit pairing of `from`, if any: the first pair keyed `from`.
pub open spec fn moved_to(pairs: Seq<(usize, usize)>, from: usize) -> Option<usize>
    decreases pairs.len(),
{
    if pairs.len() == 0 {
        None
    } else if pairs.first().0 == from {
        Some(pairs.first().1)
    } else {
        moved_to(pairs.drop_first(), from)
    }
}

/// Index of the first pair keyed `from`, or -1 if there is none.
pub open spec fn pair_index(pairs: Seq<(usize, usize)>, from: usize) -> int
    decreases pairs.len(),
{
    if pairs.len() == 0 {
        -1
    } else if pairs.first().0 == from {
        0
    } else {
        let r = pair_index(pairs.drop_first(), from);
        if r < 0 {
            -1
        } else {
            r + 1
        }
    }
}

/// How many elements of `s` are strictly below `line`.
pub open spec fn count_lt(s: Seq<usize>, line: usize) -> int
    decreases s.len(),
{
    if s.len() == 0 {
        0int
    } else {
        count_lt(s.drop_last(), line) + if s.last() < line {
            1int
        } else {
            0int
        }
    }
}

/// Walks the added line numbers in order: an addition at or before the
/// running position pushes the anchor down by one; the walk stops at the
/// first addition beyond it.
pub open spec fn shifted(adds: Seq<usize>, base: int) -> int
    decreases adds.len(),
{
    if adds.len() == 0 {
        base
    } else if adds.first() <= base {
        shifted(adds.drop_first(), base + 1)
    } else {
        base
    }
}

/// The central adjustment: where line `line` of the old file is found after
/// the change, or `None` when the anchor is gone.  Deletion wins over an
/// explicit pairing; a pairing wins over positional inference.
pub open spec fn adjust_lines(m: LineModel, line: usize) -> Option<int> {
    if m.deleted.contains(line) {
        None
    } else if moved_to(m.moved, line) is Some {
        Some(moved_to(m.moved, line)->0 as int)
    } else {
        Some(shifted(m.added, line - count_lt(m.deleted, line)))
    }
}

/// File-level adjustment: a deleted file has no position for any line.
pub open spec fn adjust_file(m: FileModel, line: usize) -> Option<int> {
    match m {
        FileModel::Deleted => None,
        FileModel::Renamed { lines, .. } => adjust_lines(lines, line),
        FileModel::Changed { lines } => adjust_lines(lines, line),
    }
}

/// A sorted set after inserting `x`: unchanged if present, otherwise placed
/// before the first larger element.
pub open spec fn set_insert_sorted(s: Seq<usize>, x: usize) -> Seq<usize> {
    if s.contains(x) {
        s
    } else {
        s.insert(count_lt(s, x), x)
    }
}

/// The pair table after recording `from -> to`: an existing pairing of
/// `from` is overwritten in place, otherwise the pair is appended.
pub open spec fn pairs_insert(pairs: Seq<(usize, usize)>, from: usize, to: usize) -> Seq<
    (usize, usize),
> {
    let i = pair_index(pairs, from);
    if i >= 0 {
        pairs.update(i, (from, to))
    } else {
        pairs.push((from, to))
    }
}

/// A line-level model after one line event.
pub open spec fn line_event_applied(
    m: LineModel,
    from: Option<usize>,
    to: Option<usize>,
) -> LineModel {
    match (from, to) {
        (Some(f), Some(t)) => LineModel { moved: pairs_insert(m.moved, f, t), ..m },
        (None, Some(t)) => LineModel { added: set_insert_sorted(m.added, t), ..m },
        (Some(f), None) => LineModel { deleted: set_insert_sorted(m.deleted, f), ..m },
        (None, None) => m,
    }
}

/// A file-level model after one line event; a deleted file records nothing.
pub open spec fn file_event_applied(m: FileModel, from: Option<usize>, to: Option<usize>) -> FileModel {
    match m {
        FileModel::Deleted => FileModel::Deleted,
        FileModel::Renamed { new_name, lines } => FileModel::Renamed {
            new_name,
            lines: line_event_applied(lines, from, to),
        },
        FileModel::Changed { lines } => FileModel::Changed {
            lines: line_event_applied(lines, from, to),
        },
    }
}

/// The model a file event constructs: no new path means deleted, the same
/// path again means changed in place, a different path means renamed.
pub open spec fn file_event_model(e: DiffFileEvent) -> FileModel {
    match e.to {
        None => FileModel::Deleted,
        Some(p) => if p@ == e.from@ {
            FileModel::Changed { lines: LineModel::empty() }
        } else {
            FileModel::Renamed { new_name: p@, lines: LineModel::empty() }
        },
    }
}

/// First entry for `path`, if any.
pub open spec fn lookup_file(entries: Seq<(Seq<Seq<char>>, FileModel)>, path: Seq<Seq<char>>) -> Option<
    FileModel,
>
    decreases entries.len(),
{
    if entries.len() == 0 {
        None
    } else if entries.first().0 == path {
        Some(entries.first().1)
    } else {
        lookup_file(entries.drop_first(), path)
    }
}

/// Index of the first entry for `path`, or -1.
pub open spec fn entry_index(entries: Seq<(Seq<Seq<char>>, FileModel)>, path: Seq<Seq<char>>) -> int
    decreases entries.len(),
{
    if entries.len() == 0 {
        -1
    } else if entries.first().0 == path {
        0
    } else {
        let r = entry_index(entries.drop_first(), path);
        if r < 0 {
            -1
        } else {
            r + 1
        }
    }
}

/// A line-level change set: explicitly paired lines, added lines and deleted
/// lines.  Lines in none of the three sets are assumed unchanged modulo
/// shifting from surrounding additions and deletions.
#[derive(Debug, PartialEq)]
pub struct LineChanges {
    pub changes: Vec<(usize, usize)>,
    pub additions: Vec<usize>,
    pub deletions: Vec<usize>,
}

impl View for LineChanges {
    type V = LineModel;

    open spec fn view(&self) -> LineModel {
        LineModel { moved: self.changes@, added: self.additions@, deleted: self.deletions@ }
    }
}

impl Clone for LineChanges {
    fn clone(&self) -> (r: Self)
        ensures
            r@ == self@,
    {
        LineChanges {
            changes: clone_pair_vec(&self.changes),
            additions: clone_usize_vec(&self.additions),
            deletions: clone_usize_vec(&self.deletions),
        }
    }
}

/// One file's outcome in a diff.
#[derive(Debug, PartialEq)]
pub enum FileChanges {
    Deleted,
    Renamed { new_name: RelativePathBuf, line_changes: LineChanges },
    Changed { line_changes: LineChanges },
}

impl View for FileChanges {
    type V = FileModel;

    open spec fn view(&self) -> FileModel {
        match self {
            FileChanges::Deleted => FileModel::Deleted,
            FileChanges::Renamed { new_name, line_changes } => FileModel::Renamed {
                new_name: new_name@,
                lines: line_changes@,
            },
            FileChanges::Changed { line_changes } => FileModel::Changed { lines: line_changes@ },
        }
    }
}

impl Clone for FileChanges {
    fn clone(&self) -> (r: Self)
        ensures
            r@ == self@,
    {
        match self {
            FileChanges::Deleted => FileChanges::Deleted,
            FileChanges::Renamed { new_name, line_changes } => FileChanges::Renamed {
                new_name: new_name.clone(),
                line_changes: line_changes.clone(),
            },
            FileChanges::Changed { line_changes } => FileChanges::Changed {
                line_changes: line_changes.clone(),
            },
        }
    }
}

/// The outcome of one diff: for each touched file, keyed by its old path,
/// the file-level change.
#[derive(Debug, PartialEq)]
pub struct Changes(pub Vec<(RelativePathBuf, FileChanges)>);

impl View for Changes {
    type V = Seq<(Seq<Seq<char>>, FileModel)>;

    open spec fn view(&self) -> Seq<(Seq<Seq<char>>, FileModel)> {
        Seq::new(self.0@.len(), |i: int| (self.0@[i].0@, self.0@[i].1@))
    }
}

impl Changes {
    /// Every entry well formed, and no path listed twice.
    pub open spec fn wf(self) -> bool {
        &&& forall|i: int| 0 <= i < self@.len() ==> (#[trigger] self@[i]).1.wf()
        &&& forall|i: int, j: int|
            0 <= i < j < self@.len() ==> (#[trigger] self@[i]).0 != (#[trigger] self@[j]).0
    }
}

// ---------------------------------------------------------------------------
// Facts about the model functions.
// ---------------------------------------------------------------------------
/// Everything `pair_index` and `moved_to` say about a pair table.
pub proof fn lemma_pair_index_spec(pairs: Seq<(usize, usize)>, from: usize)
    ensures
        pair_index(pairs, from) >= -1,
        pair_index(pairs, from) == -1 <==> (forall|k: int|
            0 <= k < pairs.len() ==> (#[trigger] pairs[k]).0 != from),
        pair_index(pairs, from) == -1 ==> moved_to(pairs, from) is None,
        pair_index(pairs, from) >= 0 ==> {
            let i = pair_index(pairs, from);
            &&& 0 <= i < pairs.len()
            &&& pairs[i].0 == from
            &&& (forall|k: int| 0 <= k < i ==> (#[trigger] pairs[k]).0 != from)
            &&& moved_to(pairs, from) == Some(pairs[i].1)
        },
    decreases pairs.len(),
{
    if pairs.len() > 0 && pairs.first().0 != from {
        lemma_pair_index_spec(pairs.drop_first(), from);
        assert(forall|k: int|
            0 <= k < pairs.drop_first().len() ==> #[trigger] pairs.drop_first()[k] == pairs[k + 1]);
        assert(forall|k: int| 1 <= k < pairs.len() ==> #[trigger] pairs[k] == pairs.drop_first()[k
            - 1]);
    }
}

/// Everything `entry_index` and `lookup_file` say about an entry table.
pub proof fn lemma_entry_index_spec(entries: Seq<(Seq<Seq<char>>, FileModel)>, path: Seq<Seq<char>>)
    ensures
        entry_index(entries, path) >= -1,
        entry_index(entries, path) == -1 <==> (forall|k: int|
            0 <= k < entries.len() ==> (#[trigger] entries[k]).0 != path),
        entry_index(entries, path) == -1 ==> lookup_file(entries, path) is None,
        entry_index(entries, path) >= 0 ==> {
            let i = entry_index(entries, path);
            &&& 0 <= i < entries.len()
            &&& entries[i].0 == path
            &&& (forall|k: int| 0 <= k < i ==> (#[trigger] entries[k]).0 != path)
            &&& lookup_file(entries, path) == Some(entries[i].1)
        },
    decreases entries.len(),
{
    if entries.len() > 0 && entries.first().0 != path {
        lemma_entry_index_spec(entries.drop_first(), path);
        assert(forall|k: int|
            0 <= k < entries.drop_first().len() ==> #[trigger] entries.drop_first()[k] == entries[k
                + 1]);
        assert(forall|k: int| 1 <= k < entries.len() ==> #[trigger] entries[k]
            == entries.drop_first()[k - 1]);
    }
}

/// Overwriting the first entry for a key changes exactly that key's lookup.
pub proof fn lemma_lookup_update(
    entries: Seq<(Seq<Seq<char>>, FileModel)>,
    i: int,
    val: (Seq<Seq<char>>, FileModel),
    p: Seq<Seq<char>>,
)
    requires
        0 <= i < entries.len(),
        entries[i].0 == val.0,
        forall|k: int| 0 <= k < i ==> (#[trigger] entries[k]).0 != val.0,
    ensures
        lookup_file(entries.update(i, val), p) == if p == val.0 {
            Some(val.1)
        } else {
            lookup_file(entries, p)
        },
    decreases i,
{
    let t = entries.update(i, val);
    if i == 0 {
        assert(t.first() == val);
        if p != val.0 {
            assert(t.drop_first() =~= entries.drop_first());
        }
    } else {
        assert(t.first() == entries.first());
        assert(t.drop_first() =~= entries.drop_first().update(i - 1, val));
        assert(forall|k: int|
            0 <= k < i - 1 ==> #[trigger] entries.drop_first()[k] == entries[k + 1]);
        lemma_lookup_update(entries.drop_first(), i - 1, val, p);
    }
}

/// Appending an entry for a fresh key changes exactly that key's lookup.
pub proof fn lemma_lookup_push(
    entries: Seq<(Seq<Seq<char>>, FileModel)>,
    val: (Seq<Seq<char>>, FileModel),
    p: Seq<Seq<char>>,
)
    requires
        forall|k: int| 0 <= k < entries.len() ==> (#[trigger] entries[k]).0 != val.0,
    ensures
        lookup_file(entries.push(val), p) == if p == val.0 {
            Some(val.1)
        } else {
            lookup_file(entries, p)
        },
    decreases entries.len(),
{
    let t = entries.push(val);
    if entries.len() == 0 {
        assert(t.first() == val);
        assert(t.drop_first() =~= Seq::empty());
    } else {
        assert(t.first() == entries.first());
        assert(t.drop_first() =~= entries.drop_first().push(val));
        assert(forall|k: int|
            0 <= k < entries.drop_first().len() ==> #[trigger] entries.drop_first()[k] == entries[k
                + 1]);
        lemma_lookup_push(entries.drop_first(), val, p);
    }
}

pub proof fn lemma_count_lt_le_len(s: Seq<usize>, line: usize)
    ensures
        0 <= count_lt(s, line) <= s.len(),
    decreases s.len(),
{
    if s.len() > 0 {
        lemma_count_lt_le_len(s.drop_last(), line);
    }
}

/// In a strictly ascending sequence every element is at least its index.
pub proof fn lemma_sorted_at_least(s: Seq<usize>, i: int)
    requires
        sorted_strict(s),
        0 <= i < s.len(),
    ensures
        s[i] >= i,
    decreases i,
{
    if i > 0 {
        lemma_sorted_at_least(s, i - 1);
    }
}

/// In a strictly ascending sequence the elements below `line` form a prefix,
/// whose length is `count_lt` and can never exceed `line` itself.
pub proof fn lemma_count_lt_sorted(s: Seq<usize>, line: usize)
    requires
        sorted_strict(s),
    ensures
        0 <= count_lt(s, line) <= s.len(),
        forall|j: int| 0 <= j < count_lt(s, line) ==> s[j] < line,
        count_lt(s, line) < s.len() ==> s[count_lt(s, line)] >= line,
        count_lt(s, line) <= line,
    decreases s.len(),
{
    lemma_count_lt_le_len(s, line);
    if s.len() > 0 {
        let s2 = s.drop_last();
        assert(forall|i: int| 0 <= i < s2.len() ==> s2[i] == s[i]);
        assert(sorted_strict(s2));
        lemma_count_lt_sorted(s2, line);
        let c2 = count_lt(s2, line);
        if s.last() < line {
            if c2 < s2.len() {
                assert(s2[c2] >= line);
                assert(s[c2] < s[s.len() - 1]);
                assert(false);
            }
            assert(count_lt(s, line) == s.len());
            assert(forall|j: int| 0 <= j < s.len() - 1 ==> #[trigger] s[j] < s[s.len() - 1]);
        } else {
            assert(count_lt(s, line) == c2);
        }
    }
    let c = count_lt(s, line);
    if c > 0 {
        assert(s[c - 1] < line);
        lemma_sorted_at_least(s, c - 1);
    }
}

/// Walking the additions can only push the anchor down, never up.
pub proof fn lemma_shifted_ge(adds: Seq<usize>, base: int)
    ensures
        shifted(adds, base) >= base,
    decreases adds.len(),
{
    if adds.len() > 0 && adds.first() <= base {
        lemma_shifted_ge(adds.drop_first(), base + 1);
    }
}

// ---------------------------------------------------------------------------
// Small verified helpers over the underlying vectors.
// ---------------------------------------------------------------------------
fn clone_usize_vec(v: &Vec<usize>) -> (r: Vec<usize>)
    ensures
        r@ == v@,
{
    let mut r: Vec<usize> = Vec::new();
    let mut i: usize = 0;
    while i < v.len()
        invariant
            0 <= i <= v@.len(),
            r@ =~= v@.take(i as int),
        decreases v@.len() - i,
    {
        r.push(v[i]);
        proof {
            assert(r@ =~= v@.take(i + 1));
        }
        i = i + 1;
    }
    proof {
        assert(v@.take(v@.len() as int) =~= v@);
    }
    r
}

fn clone_pair_vec(v: &Vec<(usize, usize)>) -> (r: Vec<(usize, usize)>)
    ensures
        r@ == v@,
{
    let mut r: Vec<(usize, usize)> = Vec::new();
    let mut i: usize = 0;
    while i < v.len()
        invariant
            0 <= i <= v@.len(),
            r@ =~= v@.take(i as int),
        decreases v@.len() - i,
    {
        r.push(v[i]);
        proof {
            assert(r@ =~= v@.take(i + 1));
        }
        i = i + 1;
    }
    proof {
        assert(v@.take(v@.len() as int) =~= v@);
    }
    r
}

fn contains_usize(v: &Vec<usize>, x: usize) -> (r: bool)
    ensures
        r == v@.contains(x),
{
    let mut i: usize = 0;
    while i < v.len()
        invariant
            0 <= i <= v@.len(),
            forall|k: int| 0 <= k < i ==> v@[k] != x,
        decreases v@.len() - i,
    {
        if v[i] == x {
            proof {
                assert(v@.contains(x)) by {
                    assert(v@[i as int] == x);
                }
            }
            return true;
        }
        i = i + 1;
    }
    false
}

/// First pair keyed `from`, as its index.
fn find_pair(pairs: &Vec<(usize, usize)>, from: usize) -> (r: Option<usize>)
    ensures
        match r {
            Some(i) => pair_index(pairs@, from) == i as int && i < pairs@.len()
                && pairs@[i as int].0 == from && moved_to(pairs@, from) == Some(
                pairs@[i as int].1,
            ),
            None => pair_index(pairs@, from) == -1 && moved_to(pairs@, from) is None,
        },
{
    let mut i: usize = 0;
    while i < pairs.len()
        invariant
            0 <= i <= pairs@.len(),
            forall|k: int| 0 <= k < i ==> (#[trigger] pairs@[k]).0 != from,
        decreases pairs@.len() - i,
    {
        if pairs[i].0 == from {
            proof {
                lemma_pair_index_spec(pairs@, from);
                if pair_index(pairs@, from) != i as int {
                    assert(false);
                }
            }
            return Some(i);
        }
        i = i + 1;
    }
    proof {
        lemma_pair_index_spec(pairs@, from);
    }
    None
}

/// Inserts `x` into a strictly ascending vector, keeping it a set.
fn insert_sorted_usize(v: &mut Vec<usize>, x: usize)
    requires
        sorted_strict(old(v)@),
    ensures
        final(v)@ == set_insert_sorted(old(v)@, x),
        sorted_strict(final(v)@),
{
    proof {
        lemma_count_lt_sorted(old(v)@, x);
    }
    let ghost s = v@;
    let ghost c = count_lt(s, x);
    let mut i: usize = 0;
    while i < v.len() && v[i] < x
        invariant
            v@ == s,
            0 <= i <= s.len(),
            forall|k: int| 0 <= k < i ==> s[k] < x,
        decreases s.len() - i,
    {
        i = i + 1;
    }
    proof {
        // i is exactly the count of elements below x
        if (i as int) < c {
            assert(s[i as int] < x);
            assert(s[i as int] >= x);
        }
        if (i as int) > c {
            assert(c < s.len());
            assert(s[c] >= x);
            assert(s[c] < x);
        }
    }
    if i < v.len() && v[i] == x {
        proof {
            assert(s.contains(x)) by {
                assert(s[i as int] == x);
            }
        }
    } else {
        proof {
            // x does not occur: everything below index c is smaller, everything
            // at or beyond is larger
            if s.contains(x) {
                let p = choose|p: int| 0 <= p < s.len() && s[p] == x;
                if p < c {
                    assert(s[p] < x);
                } else if p == c {
                    assert(i as int == c);
                    assert(false);
                } else {
                    assert(s[c] < s[p]);
                    assert(s[c] >= x);
                }
            }
        }
        v.insert(i, x);
        proof {
            let t = s.insert(c, x);
            assert(v@ == t);
            assert(sorted_strict(t)) by {
                assert(forall|k: int| 0 <= k < c ==> t[k] == s[k]);
                assert(t[c] == x);
                assert(forall|k: int| c < k < t.len() ==> t[k] == s[k - 1]);
                assert(forall|k: int| c <= k < s.len() ==> s[k] > x) by {
                    assert(forall|k: int| c < k < s.len() ==> s[k] > s[c]);
                };
            };
        }
    }
}

/// Records the explicit pairing `from -> to`, overwriting an earlier pairing
/// of the same old line.
fn pairs_record(pairs: &mut Vec<(usize, usize)>, from: usize, to: usize)
    ensures
        final(pairs)@ == pairs_insert(old(pairs)@, from, to),
        unique_pair_keys(old(pairs)@) ==> unique_pair_keys(final(pairs)@),
{
    let ghost s = pairs@;
    match find_pair(pairs, from) {
        Some(i) => {
            pairs.set(i, (from, to));
            proof {
                assert(forall|k: int|
                    0 <= k < s.len() && k != i as int ==> #[trigger] pairs@[k] == s[k]);
                assert(forall|k: int|
                    0 <= k < s.len() ==> (#[trigger] pairs@[k]).0 == (#[trigger] s[k]).0);
                if unique_pair_keys(s) {
                    assert(unique_pair_keys(pairs@));
                }
            }
        },
        None => {
            pairs.push((from, to));
            proof {
                lemma_pair_index_spec(s, from);
                if unique_pair_keys(s) {
                    assert(forall|k: int|
                        0 <= k < pairs@.len() - 1 ==> #[trigger] pairs@[k] == s[k]);
                    assert(unique_pair_keys(pairs@));
                }
            }
        },
    }
}

impl LineChanges {
    /// An empty change set.
    pub fn new() -> (r: Self)
        ensures
            r@ == LineModel::empty(),
            r@.wf(),
    {
        LineChanges { changes: Vec::new(), additions: Vec::new(), deletions: Vec::new() }
    }

    /// The adjusted position of `line`, computed without overflow: `None`
    /// either when the line was deleted or when the true position would not
    /// fit in `usize`.
    #[verifier::rlimit(50)]
    pub fn adjust(&self, line: usize) -> (r: Option<usize>)
        requires
            self@.wf(),
        ensures
            adjust_lines(self@, line) matches Some(v) ==> v >= 0,
            match adjust_lines(self@, line) {
                Option::None => r is None,
                Option::Some(v) => if v <= usize::MAX {
                    r == Some(v as usize)
                } else {
                    r is None
                },
            },
    {
        if contains_usize(&self.deletions, line) {
            return None;
        }
        match find_pair(&self.changes, line) {
            Some(i) => {
                return Some(self.changes[i].1);
            },
            None => {},
        }
        // Positional inference: prior deletions collapse line numbers ...
        let mut count: usize = 0;
        let mut i: usize = 0;
        while i < self.deletions.len()
            invariant
                0 <= i <= self.deletions@.len(),
                count == count_lt(self.deletions@.take(i as int), line),
                count <= i,
            decreases self.deletions@.len() - i,
        {
            proof {
                assert(self.deletions@.take(i + 1).drop_last() =~= self.deletions@.take(i as int));
                assert(self.deletions@.take(i + 1).last() == self.deletions@[i as int]);
            }
            if self.deletions[i] < line {
                count = count + 1;
            }
            i = i + 1;
        }
        proof {
            assert(self.deletions@.take(self.deletions@.len() as int) =~= self.deletions@);
            lemma_count_lt_sorted(self.deletions@, line);
        }
        let base: usize = line - count;
        // ... then each addition at or before the running position pushes the
        // anchor down by one.  The walk is done in a wider type: the true
        // position can exceed the machine word.
        let mut dest: u128 = base as u128;
        proof {
            assert(self.additions@.skip(0) =~= self.additions@);
            lemma_shifted_ge(self.additions@, base as int);
        }
        let mut j: usize = 0;
        while j < self.additions.len() && (self.additions[j] as u128) <= dest
            invariant
                0 <= j <= self.additions@.len(),
                dest <= base + j,
                shifted(self.additions@, base as int) == shifted(
                    self.additions@.skip(j as int),
                    dest as int,
                ),
            decreases self.additions@.len() - j,
        {
            proof {
                let rest = self.additions@.skip(j as int);
                assert(rest.first() == self.additions@[j as int]);
                assert(rest.drop_first() =~= self.additions@.skip(j + 1));
            }
            dest = dest + 1;
            j = j + 1;
        }
        proof {
            let rest = self.additions@.skip(j as int);
            if j < self.additions@.len() {
                assert(rest.first() == self.additions@[j as int]);
                assert(shifted(rest, dest as int) == dest as int);
            } else {
                assert(rest =~= Seq::empty());
            }
        }
        if dest <= usize::MAX as u128 {
            Some(dest as usize)
        } else {
            None
        }
    }
}

impl FileChanges {
    /// A change record for a file edited in place.
    pub fn new_changed() -> (r: Self)
        ensures
            r@ == (FileModel::Changed { lines: LineModel::empty() }),
            r@.wf(),
    {
        FileChanges::Changed { line_changes: LineChanges::new() }
    }

    /// A change record for a file renamed to `path`.
    pub fn new_renamed(path: RelativePathBuf) -> (r: Self)
        ensures
            r@ == (FileModel::Renamed { new_name: path@, lines: LineModel::empty() }),
            r@.wf(),
    {
        FileChanges::Renamed { new_name: path, line_changes: LineChanges::new() }
    }

    /// Records an explicitly paired line; nothing is recorded for a deleted
    /// file.
    pub fn line_moved(&mut self, from: usize, to: usize)
        ensures
            final(self)@ == file_event_applied(old(self)@, Some(from as usize), Some(to as usize)),
            old(self)@.wf() ==> final(self)@.wf(),
    {
        match self {
            FileChanges::Renamed { line_changes, .. } => {
                pairs_record(&mut line_changes.changes, from, to);
            },
            FileChanges::Changed { line_changes } => {
                pairs_record(&mut line_changes.changes, from, to);
            },
            FileChanges::Deleted => {},
        }
    }

    /// Records an added line; nothing is recorded for a deleted file.
    pub fn line_added(&mut self, to: usize)
        requires
            old(self)@.wf(),
        ensures
            final(self)@ == file_event_applied(old(self)@, None, Some(to as usize)),
            final(self)@.wf(),
    {
        match self {
            FileChanges::Renamed { line_changes, .. } => {
                insert_sorted_usize(&mut line_changes.additions, to);
            },
            FileChanges::Changed { line_changes } => {
                insert_sorted_usize(&mut line_changes.additions, to);
            },
            FileChanges::Deleted => {},
        }
    }

    /// Records a deleted line; nothing is recorded for a deleted file.
    pub fn line_deleted(&mut self, from: usize)
        requires
            old(self)@.wf(),
        ensures
            final(self)@ == file_event_applied(old(self)@, Some(from as usize), None),
            final(self)@.wf(),
    {
        match self {
            FileChanges::Renamed { line_changes, .. } => {
                insert_sorted_usize(&mut line_changes.deletions, from);
            },
            FileChanges::Changed { line_changes } => {
                insert_sorted_usize(&mut line_changes.deletions, from);
            },
            FileChanges::Deleted => {},
        }
    }

    /// Maps an old line number to its position after this change, exactly as
    /// the model states it.  The caller vouches that the adjusted position
    /// fits in `usize`; `adjust_line_checked` drops that duty.
    pub fn adjust_line(&self, line: usize) -> (r: Option<usize>)
        requires
            self@.wf(),
            adjust_file(self@, line) matches Some(v) ==> v <= usize::MAX,
        ensures
            match r {
                Some(v) => adjust_file(self@, line) == Some(v as int),
                None => adjust_file(self@, line) is None,
            },
    {
        self.adjust_line_checked(line)
    }

    /// Maps an old line number to its position after this change; `None`
    /// either when the anchor is gone or when the position would not fit in
    /// `usize`.
    pub fn adjust_line_checked(&self, line: usize) -> (r: Option<usize>)
        requires
            self@.wf(),
        ensures
            adjust_file(self@, line) matches Some(v) ==> v >= 0,
            match adjust_file(self@, line) {
                Option::None => r is None,
                Option::Some(v) => if v <= usize::MAX {
                    r == Some(v as usize)
                } else {
                    r is None
                },
            },
    {
        match self {
            FileChanges::Deleted => None,
            FileChanges::Renamed { line_changes, .. } => line_changes.adjust(line),
            FileChanges::Changed { line_changes } => line_changes.adjust(line),
        }
    }
}

impl Changes {
    /// An empty change set.
    pub fn new() -> (r: Self)
        ensures
            r@ == Seq::<(Seq<Seq<char>>, FileModel)>::empty(),
            r.wf(),
    {
        let r = Changes(Vec::new());
        proof {
            assert(r@ =~= Seq::<(Seq<Seq<char>>, FileModel)>::empty());
        }
        r
    }

    /// The change recorded for `path`, if any.
    pub fn for_file(&self, path: &RelativePathBuf) -> (r: Option<&FileChanges>)
        ensures
            match r {
                Some(fc) => lookup_file(self@, path@) == Some(fc@),
                None => lookup_file(self@, path@) is None,
            },
    {
        let mut i: usize = 0;
        while i < self.0.len()
            invariant
                0 <= i <= self@.len(),
                forall|k: int| 0 <= k < i ==> (#[trigger] self@[k]).0 != path@,
            decreases self@.len() - i,
        {
            if &self.0[i].0 == path {
                proof {
                    lemma_entry_index_spec(self@, path@);
                    assert(self@[i as int].0 == path@);
                    if entry_index(self@, path@) != i as int {
                        assert(false);
                    }
                }
                return Some(&self.0[i].1);
            }
            proof {
                assert(self@[i as int].0 == self.0@[i as int].0@);
            }
            i = i + 1;
        }
        proof {
            lemma_entry_index_spec(self@, path@);
        }
        None
    }

    /// Applies a file-level diff event: the file's entry is created anew, or
    /// overwritten if the diff already named this path.
    pub fn process_file(&mut self, e: DiffFileEvent)
        ensures
            forall|p: Seq<Seq<char>>|
                #[trigger] lookup_file(final(self)@, p) == if p == e.from@ {
                    Some(file_event_model(e))
                } else {
                    lookup_file(old(self)@, p)
                },
            old(self).wf() ==> final(self).wf(),
    {
        let ghost s = self@;
        let ghost model = file_event_model(e);
        let fc: FileChanges = match &e.to {
            None => FileChanges::Deleted,
            Some(p) => {
                if p == &e.from {
                    FileChanges::new_changed()
                } else {
                    FileChanges::new_renamed(p.clone())
                }
            },
        };
        proof {
            assert(fc@ == model);
        }
        let idx = self.find_entry(&e.from);
        let ghost key = e.from@;
        match idx {
            Some(i) => {
                self.0.set(i, (e.from, fc));
                proof {
                    assert(self@ =~= s.update(i as int, (key, model)));
                    lemma_entry_index_spec(s, key);
                    assert forall|p: Seq<Seq<char>>|
                        #[trigger] lookup_file(self@, p) == if p == key {
                            Some(model)
                        } else {
                            lookup_file(s, p)
                        } by {
                        lemma_lookup_update(s, i as int, (key, model), p);
                    };
                    if old(self).wf() {
                        assert(forall|k: int|
                            0 <= k < self@.len() ==> (#[trigger] self@[k]).0 == s[k].0);
                        assert(forall|k: int|
                            0 <= k < self@.len() && k != i as int ==> (#[trigger] self@[k]).1
                                == s[k].1);
                        assert(self.wf());
                    }
                }
            },
            None => {
                self.0.push((e.from, fc));
                proof {
                    assert(self@ =~= s.push((key, model)));
                    lemma_entry_index_spec(s, key);
                    assert forall|p: Seq<Seq<char>>|
                        #[trigger] lookup_file(self@, p) == if p == key {
                            Some(model)
                        } else {
                            lookup_file(s, p)
                        } by {
                        lemma_lookup_push(s, (key, model), p);
                    };
                    if old(self).wf() {
                        assert(forall|k: int| 0 <= k < s.len() ==> #[trigger] self@[k] == s[k]);
                        assert(self@[s.len() as int] == (key, model));
                        assert(self.wf());
                    }
                }
            },
        }
    }

    /// Applies a line-level diff event to the file it names; events for files
    /// with no entry are ignored.
    pub fn process_line(&mut self, e: DiffLineEvent)
        requires
            old(self).wf(),
        ensures
            final(self).wf(),
            forall|p: Seq<Seq<char>>|
                #[trigger] lookup_file(final(self)@, p) == if p == e.key@ && lookup_file(
                    old(self)@,
                    p,
                ) is Some {
                    Some(
                        file_event_applied(
                            lookup_file(old(self)@, p)->0,
                            opt_line(e.from),
                            opt_line(e.to),
                        ),
                    )
                } else {
                    lookup_file(old(self)@, p)
                },
    {
        let ghost s = self@;
        let ghost key = e.key@;
        let from: Option<usize> = match e.from {
            Some(v) => Some(v as usize),
            None => None,
        };
        let to: Option<usize> = match e.to {
            Some(v) => Some(v as usize),
            None => None,
        };
        let idx = self.find_entry(&e.key);
        match idx {
            Some(i) => {
                let (k, mut fc) = self.0.remove(i);
                proof {
                    lemma_entry_index_spec(s, key);
                    assert(fc@ == s[i as int].1);
                    assert(fc@.wf());
                }
                match (from, to) {
                    (Some(f), Some(t)) => fc.line_moved(f, t),
                    (None, Some(t)) => fc.line_added(t),
                    (Some(f), None) => fc.line_deleted(f),
                    (None, None) => (),
                }
                let ghost newmodel = file_event_applied(s[i as int].1, opt_line(e.from), opt_line(e.to));
                proof {
                    assert(fc@ == newmodel);
                }
                self.0.insert(i, (k, fc));
                proof {
                    assert(k@ == key);
                    assert(self@ =~= s.update(i as int, (key, newmodel)));
                    assert(forall|j: int|
                        0 <= j < self@.len() ==> (#[trigger] self@[j]).0 == s[j].0);
                    assert(forall|j: int|
                        0 <= j < self@.len() && j != i as int ==> (#[trigger] self@[j]).1
                            == s[j].1);
                    assert(newmodel.wf());
                    assert(self.wf());
                    assert forall|p: Seq<Seq<char>>|
                        #[trigger] lookup_file(self@, p) == if p == key {
                            Some(newmodel)
                        } else {
                            lookup_file(s, p)
                        } by {
                        lemma_lookup_update(s, i as int, (key, newmodel), p);
                    };
                    assert(lookup_file(s, key) == Some(s[i as int].1));
                }
            },
            None => {
                proof {
                    lemma_entry_index_spec(s, key);
                }
            },
        }
    }

    /// First entry for `path`, as its index.
    fn find_entry(&self, path: &RelativePathBuf) -> (r: Option<usize>)
        ensures
            match r {
                Some(i) => entry_index(self@, path@) == i as int && i < self@.len()
                    && self@[i as int].0 == path@,
                None => entry_index(self@, path@) == -1 && (forall|k: int|
                    0 <= k < self@.len() ==> (#[trigger] self@[k]).0 != path@),
            },
    {
        let mut i: usize = 0;
        while i < self.0.len()
            invariant
                0 <= i <= self@.len(),
                forall|k: int| 0 <= k < i ==> (#[trigger] self@[k]).0 != path@,
            decreases self@.len() - i,
        {
            if &self.0[i].0 == path {
                proof {
                    lemma_entry_index_spec(self@, path@);
                    assert(self@[i as int].0 == path@);
                    if entry_index(self@, path@) != i as int {
                        assert(false);
                    }
                }
                return Some(i);
            }
            proof {
                assert(self@[i as int].0 == self.0@[i as int].0@);
            }
            i = i + 1;
        }
        proof {
            lemma_entry_index_spec(self@, path@);
        }
        None
    }
}

/// A diff line number, as the model holds it.
pub open spec fn opt_line(o: Option<u32>) -> Option<usize> {
    match o {
        Some(v) => Some(v as usize),
        None => None,
    }
}

// ---------------------------------------------------------------------------
// Runtime well-formedness checks, for change sets of unknown provenance.
// ---------------------------------------------------------------------------
/// Pairwise order follows from adjacent order.
proof fn lemma_adjacent_sorted(s: Seq<usize>)
    requires
        forall|k: int| 0 <= k < s.len() - 1 ==> #[trigger] s[k] < s[k + 1],
    ensures
        sorted_strict(s),
{
    assert forall|i: int, j: int| 0 <= i < j < s.len() implies s[i] < s[j] by {
        lemma_chain_lt(s, i, j);
    };
}

proof fn lemma_chain_lt(s: Seq<usize>, i: int, j: int)
    requires
        forall|k: int| 0 <= k < s.len() - 1 ==> #[trigger] s[k] < s[k + 1],
        0 <= i < j < s.len(),
    ensures
        s[i] < s[j],
    decreases j - i,
{
    if j > i + 1 {
        lemma_chain_lt(s, i, j - 1);
    }
}

/// Tests whether a vector is strictly ascending.
fn is_sorted_strict(v: &Vec<usize>) -> (r: bool)
    ensures
        r == sorted_strict(v@),
{
    if v.len() == 0 {
        return true;
    }
    let mut k: usize = 0;
    while k < v.len() - 1
        invariant
            v@.len() > 0,
            0 <= k <= v@.len() - 1,
            forall|m: int| 0 <= m < k ==> #[trigger] v@[m] < v@[m + 1],
        decreases v@.len() - k,
    {
        if v[k] >= v[k + 1] {
            proof {
                assert(!sorted_strict(v@)) by {
                    assert(v@[k as int] >= v@[k + 1]);
                }
            }
            return false;
        }
        k = k + 1;
    }
    proof {
        lemma_adjacent_sorted(v@);
    }
    true
}

/// Tests whether no two pairs share a first component.
fn has_unique_pair_keys(v: &Vec<(usize, usize)>) -> (r: bool)
    ensures
        r == unique_pair_keys(v@),
{
    let mut i: usize = 0;
    while i < v.len()
        invariant
            0 <= i <= v@.len(),
            forall|a: int, b: int|
                0 <= a < b < v@.len() && a < i ==> (#[trigger] v@[a]).0 != (#[trigger] v@[b]).0,
        decreases v@.len() - i,
    {
        let mut j: usize = i + 1;
        while j < v.len()
            invariant
                0 <= i < j <= v@.len(),
                forall|b: int| i < b < j ==> (#[trigger] v@[b]).0 != v@[i as int].0,
            decreases v@.len() - j,
        {
            if v[i].0 == v[j].0 {
                proof {
                    assert(!unique_pair_keys(v@)) by {
                        assert(v@[i as int].0 == v@[j as int].0);
                    }
                }
                return false;
            }
            j = j + 1;
        }
        i = i + 1;
    }
    true
}

impl LineChanges {
    /// Tests the well-formedness of this change set at run time.
    pub fn is_well_formed(&self) -> (r: bool)
        ensures
            r == self@.wf(),
    {
        has_unique_pair_keys(&self.changes) && is_sorted_strict(&self.additions)
            && is_sorted_strict(&self.deletions)
    }
}

impl FileChanges {
    /// Tests the well-formedness of this change record at run time.
    pub fn is_well_formed(&self) -> (r: bool)
        ensures
            r == self@.wf(),
    {
        match self {
            FileChanges::Deleted => true,
            FileChanges::Renamed { line_changes, .. } => line_changes.is_well_formed(),
            FileChanges::Changed { line_changes } => line_changes.is_well_formed(),
        }
    }
}

impl Clone for Changes {
    fn clone(&self) -> (r: Self)
        ensures
            r@ == self@,
    {
        let mut entries: Vec<(RelativePathBuf, FileChanges)> = Vec::new();
        let mut i: usize = 0;
        while i < self.0.len()
            invariant
                0 <= i <= self.0@.len(),
                entries@.len() == i,
                forall|k: int|
                    0 <= k < i ==> (#[trigger] entries@[k]).0@ == self.0@[k].0@ && entries@[k].1@
                        == self.0@[k].1@,
            decreases self.0@.len() - i,
        {
            let p = self.0[i].0.clone();
            let fc = self.0[i].1.clone();
            entries.push((p, fc));
            i = i + 1;
        }
        let r = Changes(entries);
        proof {
            assert(r@ =~= self@);
        }
        r
    }
}

impl Changes {
    /// Tests the well-formedness of this change set at run time.
    pub fn is_well_formed(&self) -> (r: bool)
        ensures
            r == self.wf(),
    {
        let mut i: usize = 0;
        while i < self.0.len()
            invariant
                0 <= i <= self@.len(),
                forall|k: int| 0 <= k < i ==> (#[trigger] self@[k]).1.wf(),
            decreases self@.len() - i,
        {
            if !self.0[i].1.is_well_formed() {
                proof {
                    assert(!self.wf()) by {
                        assert(self@[i as int].1 == self.0@[i as int].1@);
                        assert(!self@[i as int].1.wf());
                    }
                }
                return false;
            }
            proof {
                assert(self@[i as int].1 == self.0@[i as int].1@);
            }
            i = i + 1;
        }
        let mut a: usize = 0;
        while a < self.0.len()
            invariant
                0 <= a <= self@.len(),
                forall|k: int| 0 <= k < self@.len() ==> (#[trigger] self@[k]).1.wf(),
                forall|x: int, y: int|
                    0 <= x < y < self@.len() && x < a ==> (#[trigger] self@[x]).0 != (
                    #[trigger] self@[y]).0,
            decreases self@.len() - a,
        {
            let mut b: usize = a + 1;
            while b < self.0.len()
                invariant
                    0 <= a < b <= self@.len(),
                    forall|y: int| a < y < b ==> (#[trigger] self@[y]).0 != self@[a as int].0,
                decreases self@.len() - b,
            {
                if &self.0[a].0 == &self.0[b].0 {
                    proof {
                        assert(!self.wf()) by {
                            assert(self@[a as int].0 == self.0@[a as int].0@);
                            assert(self@[b as int].0 == self.0@[b as int].0@);
                            assert(self@[a as int].0 == self@[b as int].0);
                        }
                    }
                    return false;
                }
                proof {
                    assert(self@[b as int].0 == self.0@[b as int].0@);
                    assert(self@[a as int].0 == self.0@[a as int].0@);
                }
                b = b + 1;
            }
            a = a + 1;
        }
        true
    }
}

} // verus!
