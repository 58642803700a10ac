//! Path value types: a `RelativePathBuf` is a normalized sequence of
//! components, an `AbsolutePathBuf` is the same rooted at `/`.  Both are
//! modelled as sequences of component character sequences.

use vstd::prelude::*;
use vstd::string::StrSliceExecFns;
use vstd::string::StringExecFns;

verus! {

pub type Component = String;

/// Index of the first occurrence of `sep` in `s` at or after `i`, or `s.len()`
/// if there is none.
pub open spec fn next_sep(s: Seq<char>, sep: char, i: int) -> int
    decreases s.len() - i,
{
    if i < 0 || i >= s.len() {
        s.len() as int
    } else if s[i] == sep {
        i
    } else {
        next_sep(s, sep, i + 1)
    }
}

pub proof fn lemma_next_sep(s: Seq<char>, sep: char, i: int)
    requires
        0 <= i <= s.len(),
    ensures
        i <= next_sep(s, sep, i) <= s.len(),
        next_sep(s, sep, i) < s.len() ==> s[next_sep(s, sep, i)] == sep,
        forall|k: int| i <= k < next_sep(s, sep, i) ==> s[k] != sep,
    decreases s.len() - i,
{
    if i < s.len() && s[i] != sep {
        lemma_next_sep(s, sep, i + 1);
    }
}

/// The non-empty components of `s` starting at position `i`, taking `sep` as
/// the separator: maximal runs of non-separator characters.
pub open spec fn split_from(s: Seq<char>, sep: char, i: int) -> Seq<Seq<char>>
    decreases s.len() - i via split_from_decreases
{
    if i < 0 || i >= s.len() {
        Seq::empty()
    } else if s[i] == sep {
        split_from(s, sep, i + 1)
    } else {
        seq![s.subrange(i, next_sep(s, sep, i))] + split_from(s, sep, next_sep(s, sep, i))
    }
}

#[via_fn]
proof fn split_from_decreases(s: Seq<char>, sep: char, i: int) {
    if 0 <= i < s.len() && s[i] != sep {
        lemma_next_sep(s, sep, i);
        assert(next_sep(s, sep, i) > i);
    }
}

/// The components of `s`, split on `sep`, empty components dropped.
pub open spec fn split_components(s: Seq<char>, sep: char) -> Seq<Seq<char>> {
    split_from(s, sep, 0)
}

/// `parts` joined with `sep` between consecutive parts.
pub open spec fn join_sep(parts: Seq<Seq<char>>, sep: char) -> Seq<char>
    decreases parts.len(),
{
    if parts.len() == 0 {
        Seq::empty()
    } else if parts.len() == 1 {
        parts[0]
    } else {
        join_sep(parts.drop_last(), sep) + seq![sep] + parts.last()
    }
}

/// Splits `s` on `sep`, dropping empty components.
fn split_string(s: &str, sep: char) -> (r: Vec<String>)
    ensures
        r.deep_view() == split_components(s@, sep),
{
    let len: usize = s.unicode_len();
    let mut parts: Vec<String> = Vec::new();
    let mut i: usize = 0;
    while i < len
        invariant
            len == s@.len(),
            0 <= i <= len,
            parts.deep_view() + split_from(s@, sep, i as int) =~= split_components(s@, sep),
        decreases len - i,
    {
        if s.get_char(i) == sep {
            i = i + 1;
        } else {
            let ghost start = i as int;
            let mut j: usize = i + 1;
            while j < len && s.get_char(j) != sep
                invariant
                    len == s@.len(),
                    0 <= start < len,
                    start < j <= len,
                    forall|k: int| start <= k < j ==> s@[k] != sep,
                decreases len - j,
            {
                j = j + 1;
            }
            proof {
                lemma_next_sep(s@, sep, start);
                assert(next_sep(s@, sep, start) == j as int) by {
                    lemma_next_sep(s@, sep, start);
                    let ns = next_sep(s@, sep, start);
                    if ns < j as int {
                        assert(s@[ns] == sep);
                        assert(s@[ns] != sep);
                    }
                    if ns > j as int {
                        assert((j as int) < s@.len());
                        assert(s@[j as int] != sep);
                        assert(s@[j as int] == sep);
                    }
                };
            }
            let ghost old_dv = parts.deep_view();
            let comp: &str = s.substring_char(i, j);
            parts.push(comp.to_owned());
            proof {
                let piece = s@.subrange(start, j as int);
                assert(parts.deep_view() =~= old_dv.push(piece));
                assert(split_from(s@, sep, start) == seq![piece] + split_from(s@, sep, j as int));
                assert(old_dv.push(piece) + split_from(s@, sep, j as int) =~= old_dv + (seq![piece]
                    + split_from(s@, sep, j as int)));
            }
            i = j;
        }
    }
    proof {
        assert(parts.deep_view() =~= parts.deep_view() + split_from(s@, sep, len as int));
    }
    parts
}

/// Joins `parts` with `sep` between consecutive parts.
pub fn join_strings(parts: &Vec<String>, sep: &str) -> (r: String)
    requires
        sep@.len() == 1,
    ensures
        r@ == join_sep(parts.deep_view(), sep@[0]),
{
    let mut out = String::new();
    let mut i: usize = 0;
    while i < parts.len()
        invariant
            sep@.len() == 1,
            0 <= i <= parts@.len(),
            out@ == join_sep(parts.deep_view().take(i as int), sep@[0]),
        decreases parts@.len() - i,
    {
        if i > 0 {
            out.append(sep);
        }
        out.append(parts[i].as_str());
        proof {
            let dv = parts.deep_view();
            assert(dv.take(i + 1).drop_last() =~= dv.take(i as int));
            assert(dv.take(i + 1).last() == dv[i as int]);
            if i == 0 {
                assert(out@ =~= join_sep(dv.take(1), sep@[0]));
            } else {
                assert(out@ =~= join_sep(dv.take(i + 1), sep@[0]));
            }
        }
        i = i + 1;
    }
    proof {
        assert(parts.deep_view().take(parts.deep_view().len() as int) =~= parts.deep_view());
    }
    out
}

/// An ordered sequence of path components, always relative and normalized:
/// no component is empty.  Two paths are equal exactly when their component
/// sequences are equal.
#[derive(Debug)]
pub struct RelativePathBuf {
    components: Vec<Component>,
}

impl View for RelativePathBuf {
    type V = Seq<Seq<char>>;

    closed spec fn view(&self) -> Seq<Seq<char>> {
        self.components.deep_view()
    }
}

impl DeepView for RelativePathBuf {
    type V = Seq<Seq<char>>;

    open spec fn deep_view(&self) -> Seq<Seq<char>> {
        self.view()
    }
}

impl Clone for RelativePathBuf {
    fn clone(&self) -> (r: Self)
        ensures
            r@ == self@,
    {
        RelativePathBuf { components: clone_string_vec(&self.components) }
    }
}

impl PartialEq for RelativePathBuf {
    fn eq(&self, other: &Self) -> (r: bool) {
        string_vecs_equal(&self.components, &other.components)
    }
}

impl vstd::std_specs::cmp::PartialEqSpecImpl for RelativePathBuf {
    open spec fn obeys_eq_spec() -> bool {
        true
    }

    open spec fn eq_spec(&self, other: &Self) -> bool {
        self@ == other@
    }
}

impl RelativePathBuf {
    /// Builds a path from its components.
    pub fn from_components(components: Vec<Component>) -> (r: Self)
        ensures
            r@ == components.deep_view(),
    {
        RelativePathBuf { components }
    }

    /// Builds a path from a `/`-separated string; empty components are
    /// dropped, so leading, trailing and doubled separators are ignored.
    pub fn from_string(s: &str) -> (r: Self)
        ensures
            r@ == split_components(s@, '/'),
    {
        RelativePathBuf { components: split_string(s, '/') }
    }

    /// The components of this path, in order.
    pub fn components(&self) -> (r: &Vec<Component>)
        ensures
            r.deep_view() == self@,
    {
        &self.components
    }

    /// This path as a `/`-separated string, the form used when asking a
    /// repository about one of its files.
    pub fn as_git_path(&self) -> (r: String)
        ensures
            r@ == join_sep(self@, '/'),
    {
        proof {
            reveal_strlit("/");
        }
        join_strings(&self.components, "/")
    }
}

/// Whether a path string is absolute: non-empty and rooted at `/`.
pub open spec fn absolute_shaped(p: Seq<char>) -> bool {
    p.len() > 0 && p[0] == '/'
}

/// A path guaranteed absolute at construction, kept as the sequence of
/// components below the root.
#[derive(Debug)]
pub struct AbsolutePathBuf {
    components: Vec<Component>,
}

impl View for AbsolutePathBuf {
    type V = Seq<Seq<char>>;

    closed spec fn view(&self) -> Seq<Seq<char>> {
        self.components.deep_view()
    }
}

impl DeepView for AbsolutePathBuf {
    type V = Seq<Seq<char>>;

    open spec fn deep_view(&self) -> Seq<Seq<char>> {
        self.view()
    }
}

impl Clone for AbsolutePathBuf {
    fn clone(&self) -> (r: Self)
        ensures
            r@ == self@,
    {
        AbsolutePathBuf { components: clone_string_vec(&self.components) }
    }
}

impl PartialEq for AbsolutePathBuf {
    fn eq(&self, other: &Self) -> (r: bool) {
        string_vecs_equal(&self.components, &other.components)
    }
}

impl vstd::std_specs::cmp::PartialEqSpecImpl for AbsolutePathBuf {
    open spec fn obeys_eq_spec() -> bool {
        true
    }

    open spec fn eq_spec(&self, other: &Self) -> bool {
        self@ == other@
    }
}

impl AbsolutePathBuf {
    /// Accepts a path string only if it is absolute, that is, starts with the
    /// root separator.
    pub fn new(p: String) -> (r: Option<Self>)
        ensures
            match r {
                Some(a) => absolute_shaped(p@) && a@ == split_components(p@, '/'),
                None => !absolute_shaped(p@),
            },
    {
        let len: usize = p.as_str().unicode_len();
        if len > 0 && p.as_str().get_char(0) == '/' {
            Some(AbsolutePathBuf { components: split_string(p.as_str(), '/') })
        } else {
            None
        }
    }

    /// Relativizes this path against `root`: succeeds exactly when every
    /// component of `root` is a literal prefix of this path's components,
    /// and then yields what remains.
    pub fn try_relative(&self, root: &AbsolutePathBuf) -> (r: Option<RelativePathBuf>)
        ensures
            match r {
                Some(rel) => root@.is_prefix_of(self@) && rel@ == self@.skip(root@.len() as int),
                None => !root@.is_prefix_of(self@),
            },
    {
        if root.components.len() > self.components.len() {
            return None;
        }
        let n: usize = root.components.len();
        let mut i: usize = 0;
        while i < n
            invariant
                n == root@.len(),
                n <= self@.len(),
                0 <= i <= n,
                forall|k: int| 0 <= k < i ==> self@[k] == root@[k],
            decreases n - i,
        {
            if !strings_equal(&self.components[i], &root.components[i]) {
                proof {
                    assert(self@[i as int] == self.components@[i as int]@);
                    assert(root@[i as int] == root.components@[i as int]@);
                    assert(self@[i as int] != root@[i as int]);
                }
                return None;
            }
            i = i + 1;
        }
        let mut rest: Vec<String> = Vec::new();
        let mut j: usize = n;
        while j < self.components.len()
            invariant
                n == root@.len(),
                n <= j <= self@.len(),
                rest.deep_view() =~= self@.subrange(n as int, j as int),
            decreases self@.len() - j,
        {
            let c: String = self.components[j].clone();
            proof {
                assert(c@ == self@[j as int]);
            }
            let ghost olddv = rest.deep_view();
            rest.push(c);
            proof {
                assert(rest.deep_view().len() == olddv.len() + 1);
                assert(forall|k: int| 0 <= k < olddv.len() ==> rest.deep_view()[k] == olddv[k]);
                assert(rest.deep_view()[olddv.len() as int] == c@);
                assert(rest.deep_view() =~= self@.subrange(n as int, j + 1));
            }
            j = j + 1;
        }
        proof {
            assert(root@.is_prefix_of(self@)) by {
                assert(root@ =~= self@.subrange(0, n as int));
            };
            assert(rest.deep_view() =~= self@.skip(n as int));
        }
        Some(RelativePathBuf { components: rest })
    }

    /// Appends the components of `rel_path` below this path.
    pub fn join_rel(&self, rel_path: &RelativePathBuf) -> (r: AbsolutePathBuf)
        ensures
            r@ == self@ + rel_path@,
    {
        let mut components = clone_string_vec(&self.components);
        let mut i: usize = 0;
        while i < rel_path.components.len()
            invariant
                components.deep_view() =~= self@ + rel_path@.take(i as int),
                0 <= i <= rel_path@.len(),
            decreases rel_path@.len() - i,
        {
            let c: String = rel_path.components[i].clone();
            proof {
                assert(c@ == rel_path@[i as int]);
            }
            let ghost olddv = components.deep_view();
            components.push(c);
            proof {
                assert(components.deep_view().len() == olddv.len() + 1);
                assert(forall|k: int| 0 <= k < olddv.len() ==> components.deep_view()[k]
                    == olddv[k]);
                assert(components.deep_view()[olddv.len() as int] == c@);
                assert(components.deep_view() =~= olddv.push(c@));
                assert(rel_path@.take(i + 1) =~= rel_path@.take(i as int).push(
                    rel_path@[i as int],
                ));
                assert(olddv.push(c@) =~= self@ + rel_path@.take(i + 1));
            }
            i = i + 1;
        }
        proof {
            assert(self@ + rel_path@.take(rel_path@.len() as int) =~= self@ + rel_path@);
        }
        AbsolutePathBuf { components }
    }

    /// The components of this path, in order, the root excluded.
    pub fn components(&self) -> (r: &Vec<Component>)
        ensures
            r.deep_view() == self@,
    {
        &self.components
    }

    /// This path as a string, rooted at `/`.
    pub fn as_string(&self) -> (r: String)
        ensures
            r@ == seq!['/'] + join_sep(self@, '/'),
    {
        proof {
            reveal_strlit("/");
        }
        let mut out = String::from_str("/");
        let joined = join_strings(&self.components, "/");
        out.append(joined.as_str());
        out
    }
}

/// Clones a vector of strings, keeping its contents.
pub fn clone_string_vec(v: &Vec<String>) -> (r: Vec<String>)
    ensures
        r.deep_view() == v.deep_view(),
{
    let mut r: Vec<String> = Vec::new();
    let mut i: usize = 0;
    while i < v.len()
        invariant
            0 <= i <= v@.len(),
            r.deep_view() =~= v.deep_view().take(i as int),
        decreases v@.len() - i,
    {
        let c: String = v[i].clone();
        proof {
            assert(c@ == v.deep_view()[i as int]);
        }
        let ghost olddv = r.deep_view();
        r.push(c);
        proof {
            assert(r.deep_view().len() == olddv.len() + 1);
            assert(forall|k: int| 0 <= k < olddv.len() ==> r.deep_view()[k] == olddv[k]);
            assert(r.deep_view()[olddv.len() as int] == c@);
            assert(r.deep_view() =~= v.deep_view().take(i + 1));
        }
        i = i + 1;
    }
    proof {
        assert(v.deep_view().take(v.deep_view().len() as int) =~= v.deep_view());
    }
    r
}

/// Compares two strings by contents.
pub fn strings_equal(a: &String, b: &String) -> (r: bool)
    ensures
        r == (a@ == b@),
{
    a.eq(b)
}

/// Compares two vectors of strings by contents.
pub fn string_vecs_equal(a: &Vec<String>, b: &Vec<String>) -> (r: bool)
    ensures
        r == (a.deep_view() == b.deep_view()),
{
    if a.len() != b.len() {
        proof {
            assert(a.deep_view().len() != b.deep_view().len());
        }
        return false;
    }
    let mut i: usize = 0;
    while i < a.len()
        invariant
            a@.len() == b@.len(),
            0 <= i <= a@.len(),
            forall|k: int| 0 <= k < i ==> a.deep_view()[k] == b.deep_view()[k],
        decreases a@.len() - i,
    {
        if !strings_equal(&a[i], &b[i]) {
            proof {
                assert(a.deep_view()[i as int] == a@[i as int]@);
                assert(b.deep_view()[i as int] == b@[i as int]@);
                assert(a.deep_view()[i as int] != b.deep_view()[i as int]);
            }
            return false;
        }
        i = i + 1;
    }
    proof {
        assert(a.deep_view() =~= b.deep_view());
    }
    true
}

} // verus!
