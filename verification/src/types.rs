//! The tour object graph: stops anchored to lines of repository files,
//! cross-tour references, and the tour that orders them.

use vstd::prelude::*;

use crate::paths::clone_string_vec;
use crate::paths::strings_equal;
use crate::paths::RelativePathBuf;

verus! {

/// Mathematical model of a cross-tour reference.
pub ghost struct StopRefModel {
    pub tour_id: Seq<char>,
    /// Absent when the reference links to the tour's landing page.
    pub stop_id: Option<Seq<char>>,
}

/// Mathematical model of a stop.
pub ghost struct StopModel {
    pub id: Seq<char>,
    pub title: Seq<char>,
    pub description: Seq<char>,
    pub path: Seq<Seq<char>>,
    pub repository: Seq<char>,
    pub line: usize,
    pub children: Seq<StopRefModel>,
    pub broken: Option<Seq<char>>,
}

/// Mathematical model of a tour.
pub ghost struct TourModel {
    pub protocol_version: Seq<char>,
    pub id: Seq<char>,
    pub title: Seq<char>,
    pub description: Seq<char>,
    pub stops: Seq<StopModel>,
    pub repositories: Seq<(Seq<char>, Seq<char>)>,
    pub generator: usize,
}

/// A link from one stop to another tour, or to a stop within it.
#[derive(Debug, PartialEq)]
pub struct StopReference {
    pub tour_id: String,
    /// Absent when the reference links to the tour's landing page.
    pub stop_id: Option<String>,
}

impl View for StopReference {
    type V = StopRefModel;

    open spec fn view(&self) -> StopRefModel {
        StopRefModel {
            tour_id: self.tour_id@,
            stop_id: match self.stop_id {
                Some(s) => Some(s@),
                None => None,
            },
        }
    }
}

impl DeepView for StopReference {
    type V = StopRefModel;

    open spec fn deep_view(&self) -> StopRefModel {
        self.view()
    }
}

impl Clone for StopReference {
    fn clone(&self) -> (r: Self)
        ensures
            r@ == self@,
    {
        StopReference {
            tour_id: self.tour_id.clone(),
            stop_id: clone_opt_string(&self.stop_id),
        }
    }
}

/// An annotation anchored to a 1-based line of a file in a repository.
#[derive(Debug, PartialEq)]
pub struct Stop {
    /// Opaque, unique within its tour.
    pub id: String,
    pub title: String,
    pub description: String,
    pub path: RelativePathBuf,
    pub repository: String,
    pub line: usize,
    pub children: Vec<StopReference>,
    /// Set exactly when a refresh found that the anchored line no longer
    /// exists; holds a short message about what went wrong.
    pub broken: Option<String>,
}

impl View for Stop {
    type V = StopModel;

    open spec fn view(&self) -> StopModel {
        StopModel {
            id: self.id@,
            title: self.title@,
            description: self.description@,
            path: self.path@,
            repository: self.repository@,
            line: self.line,
            children: self.children.deep_view(),
            broken: match self.broken {
                Some(s) => Some(s@),
                None => None,
            },
        }
    }
}

impl DeepView for Stop {
    type V = StopModel;

    open spec fn deep_view(&self) -> StopModel {
        self.view()
    }
}

impl Clone for Stop {
    fn clone(&self) -> (r: Self)
        ensures
            r@ == self@,
    {
        let r = Stop {
            id: self.id.clone(),
            title: self.title.clone(),
            description: self.description.clone(),
            path: self.path.clone(),
            repository: self.repository.clone(),
            line: self.line,
            children: clone_references(&self.children),
            broken: clone_opt_string(&self.broken),
        };
        r
    }
}

/// An ordered collection of stops with shared metadata; `repositories` pins
/// one commit per repository referenced by the stops.
#[derive(Debug, PartialEq)]
pub struct Tour {
    pub protocol_version: String,
    /// Stable identifier; survives serialization.
    pub id: String,
    pub title: String,
    pub description: String,
    /// Order is significant: it is the tour's narrative order.
    pub stops: Vec<Stop>,
    /// Pairs of repository name and pinned commit.
    pub repositories: Vec<(String, String)>,
    pub generator: usize,
}

/// The pin table of a tour, as character sequences.
pub open spec fn repos_model_of(v: Seq<(String, String)>) -> Seq<(Seq<char>, Seq<char>)> {
    Seq::new(v.len(), |i: int| (v[i].0@, v[i].1@))
}

impl View for Tour {
    type V = TourModel;

    open spec fn view(&self) -> TourModel {
        TourModel {
            protocol_version: self.protocol_version@,
            id: self.id@,
            title: self.title@,
            description: self.description@,
            stops: self.stops.deep_view(),
            repositories: repos_model_of(self.repositories@),
            generator: self.generator,
        }
    }
}

impl DeepView for Tour {
    type V = TourModel;

    open spec fn deep_view(&self) -> TourModel {
        self.view()
    }
}

impl Clone for Tour {
    fn clone(&self) -> (r: Self)
        ensures
            r@ == self@,
    {
        let mut stops: Vec<Stop> = Vec::new();
        let mut i: usize = 0;
        while i < self.stops.len()
            invariant
                0 <= i <= self.stops@.len(),
                stops.deep_view() =~= self.stops.deep_view().take(i as int),
            decreases self.stops@.len() - i,
        {
            let ghost olddv = stops.deep_view();
            let s = self.stops[i].clone();
            stops.push(s);
            proof {
                assert(stops.deep_view().len() == olddv.len() + 1);
                assert(forall|k: int| 0 <= k < olddv.len() ==> stops.deep_view()[k] == olddv[k]);
                assert(stops.deep_view()[olddv.len() as int] == self.stops@[i as int]@);
                assert(stops.deep_view() =~= self.stops.deep_view().take(i + 1));
            }
            i = i + 1;
        }
        proof {
            assert(self.stops.deep_view().take(self.stops@.len() as int) =~= self.stops.deep_view());
        }
        let repositories = clone_string_pairs(&self.repositories);
        let r = Tour {
            protocol_version: self.protocol_version.clone(),
            id: self.id.clone(),
            title: self.title.clone(),
            description: self.description.clone(),
            stops,
            repositories,
            generator: self.generator,
        };
        proof {
            assert(r@.repositories =~= self@.repositories);
        }
        r
    }
}

/// Clones an optional string, keeping its contents.
pub fn clone_opt_string(o: &Option<String>) -> (r: Option<String>)
    ensures
        match (o, &r) {
            (Some(a), Some(b)) => a@ == b@,
            (None, None) => true,
            _ => false,
        },
{
    match o {
        Some(s) => Some(s.clone()),
        None => None,
    }
}

/// Clones a list of stop references, keeping its contents.
pub fn clone_references(v: &Vec<StopReference>) -> (r: Vec<StopReference>)
    ensures
        r.deep_view() == v.deep_view(),
{
    let mut r: Vec<StopReference> = Vec::new();
    let mut i: usize = 0;
    while i < v.len()
        invariant
            0 <= i <= v@.len(),
            r.deep_view() =~= v.deep_view().take(i as int),
        decreases v@.len() - i,
    {
        let ghost olddv = r.deep_view();
        let c = v[i].clone();
        r.push(c);
        proof {
            assert(r.deep_view().len() == olddv.len() + 1);
            assert(forall|k: int| 0 <= k < olddv.len() ==> r.deep_view()[k] == olddv[k]);
            assert(r.deep_view()[olddv.len() as int] == v@[i as int]@);
            assert(r.deep_view() =~= v.deep_view().take(i + 1));
        }
        i = i + 1;
    }
    proof {
        assert(v.deep_view().take(v.deep_view().len() as int) =~= v.deep_view());
    }
    r
}

/// Clones a list of string pairs, keeping its contents.
pub fn clone_string_pairs(v: &Vec<(String, String)>) -> (r: Vec<(String, String)>)
    ensures
        r@.len() == v@.len(),
        forall|i: int|
            0 <= i < v@.len() ==> (#[trigger] r@[i]).0@ == v@[i].0@ && r@[i].1@ == v@[i].1@,
{
    let mut r: Vec<(String, String)> = Vec::new();
    let mut i: usize = 0;
    while i < v.len()
        invariant
            0 <= i <= v@.len(),
            r@.len() == i,
            forall|k: int|
                0 <= k < i ==> (#[trigger] r@[k]).0@ == v@[k].0@ && r@[k].1@ == v@[k].1@,
        decreases v@.len() - i,
    {
        let a = v[i].0.clone();
        let b = v[i].1.clone();
        r.push((a, b));
        i = i + 1;
    }
    r
}

// ---------------------------------------------------------------------------
// First-match lookups over the tour graph.
// ---------------------------------------------------------------------------
/// Index of the first stop with identifier `id`, or -1.
pub open spec fn stop_index(stops: Seq<StopModel>, id: Seq<char>) -> int
    decreases stops.len(),
{
    if stops.len() == 0 {
        -1
    } else if stops.first().id == id {
        0
    } else {
        let r = stop_index(stops.drop_first(), id);
        if r < 0 {
            -1
        } else {
            r + 1
        }
    }
}

pub proof fn lemma_stop_index_spec(stops: Seq<StopModel>, id: Seq<char>)
    ensures
        stop_index(stops, id) >= -1,
        stop_index(stops, id) == -1 <==> (forall|k: int|
            0 <= k < stops.len() ==> (#[trigger] stops[k]).id != id),
        stop_index(stops, id) >= 0 ==> {
            let i = stop_index(stops, id);
            &&& 0 <= i < stops.len()
            &&& stops[i].id == id
            &&& (forall|k: int| 0 <= k < i ==> (#[trigger] stops[k]).id != id)
        },
    decreases stops.len(),
{
    if stops.len() > 0 && stops.first().id != id {
        lemma_stop_index_spec(stops.drop_first(), id);
        assert(forall|k: int|
            0 <= k < stops.drop_first().len() ==> #[trigger] stops.drop_first()[k] == stops[k + 1]);
        assert(forall|k: int| 1 <= k < stops.len() ==> #[trigger] stops[k] == stops.drop_first()[k
            - 1]);
    }
}

/// Index of the first pin for repository `name`, or -1.
pub open spec fn repo_index(repos: Seq<(Seq<char>, Seq<char>)>, name: Seq<char>) -> int
    decreases repos.len(),
{
    if repos.len() == 0 {
        -1
    } else if repos.first().0 == name {
        0
    } else {
        let r = repo_index(repos.drop_first(), name);
        if r < 0 {
            -1
        } else {
            r + 1
        }
    }
}

/// The commit pinned for repository `name`, if any.
pub open spec fn repo_lookup(repos: Seq<(Seq<char>, Seq<char>)>, name: Seq<char>) -> Option<
    Seq<char>,
>
    decreases repos.len(),
{
    if repos.len() == 0 {
        None
    } else if repos.first().0 == name {
        Some(repos.first().1)
    } else {
        repo_lookup(repos.drop_first(), name)
    }
}

pub proof fn lemma_repo_index_spec(repos: Seq<(Seq<char>, Seq<char>)>, name: Seq<char>)
    ensures
        repo_index(repos, name) >= -1,
        repo_index(repos, name) == -1 <==> (forall|k: int|
            0 <= k < repos.len() ==> (#[trigger] repos[k]).0 != name),
        repo_index(repos, name) == -1 ==> repo_lookup(repos, name) is None,
        repo_index(repos, name) >= 0 ==> {
            let i = repo_index(repos, name);
            &&& 0 <= i < repos.len()
            &&& repos[i].0 == name
            &&& (forall|k: int| 0 <= k < i ==> (#[trigger] repos[k]).0 != name)
            &&& repo_lookup(repos, name) == Some(repos[i].1)
        },
    decreases repos.len(),
{
    if repos.len() > 0 && repos.first().0 != name {
        lemma_repo_index_spec(repos.drop_first(), name);
        assert(forall|k: int|
            0 <= k < repos.drop_first().len() ==> #[trigger] repos.drop_first()[k] == repos[k + 1]);
        assert(forall|k: int| 1 <= k < repos.len() ==> #[trigger] repos[k] == repos.drop_first()[k
            - 1]);
    }
}

/// Overwriting the first pin for a name changes exactly that name's lookup.
pub proof fn lemma_repo_lookup_update(
    repos: Seq<(Seq<char>, Seq<char>)>,
    i: int,
    val: (Seq<char>, Seq<char>),
    name: Seq<char>,
)
    requires
        0 <= i < repos.len(),
        repos[i].0 == val.0,
        forall|k: int| 0 <= k < i ==> (#[trigger] repos[k]).0 != val.0,
    ensures
        repo_lookup(repos.update(i, val), name) == if name == val.0 {
            Some(val.1)
        } else {
            repo_lookup(repos, name)
        },
    decreases i,
{
    let t = repos.update(i, val);
    if i == 0 {
        assert(t.first() == val);
        if name != val.0 {
            assert(t.drop_first() =~= repos.drop_first());
        }
    } else {
        assert(t.first() == repos.first());
        assert(t.drop_first() =~= repos.drop_first().update(i - 1, val));
        assert(forall|k: int| 0 <= k < i - 1 ==> #[trigger] repos.drop_first()[k] == repos[k + 1]);
        lemma_repo_lookup_update(repos.drop_first(), i - 1, val, name);
    }
}

/// Appending a pin for a fresh name changes exactly that name's lookup.
pub proof fn lemma_repo_lookup_push(
    repos: Seq<(Seq<char>, Seq<char>)>,
    val: (Seq<char>, Seq<char>),
    name: Seq<char>,
)
    requires
        forall|k: int| 0 <= k < repos.len() ==> (#[trigger] repos[k]).0 != val.0,
    ensures
        repo_lookup(repos.push(val), name) == if name == val.0 {
            Some(val.1)
        } else {
            repo_lookup(repos, name)
        },
    decreases repos.len(),
{
    let t = repos.push(val);
    if repos.len() == 0 {
        assert(t.first() == val);
        assert(t.drop_first() =~= Seq::<(Seq<char>, Seq<char>)>::empty());
        if name != val.0 {
            assert(repo_lookup(t, name) == repo_lookup(t.drop_first(), name));
            assert(repo_lookup(t.drop_first(), name) is None);
        }
    } else {
        assert(t.first() == repos.first());
        assert(t.drop_first() =~= repos.drop_first().push(val));
        assert(forall|k: int|
            0 <= k < repos.drop_first().len() ==> #[trigger] repos.drop_first()[k] == repos[k + 1]);
        lemma_repo_lookup_push(repos.drop_first(), val, name);
        if repos.first().0 == name {
            assert(repo_lookup(t, name) == Some(repos.first().1));
            assert(name != val.0);
        } else {
            assert(repo_lookup(t, name) == repo_lookup(repos.drop_first().push(val), name));
            assert(repo_lookup(repos, name) == repo_lookup(repos.drop_first(), name));
        }
    }
}

impl TourModel {
    /// Every stop's repository is pinned, and every pin is still referenced
    /// by at least one stop.
    pub open spec fn repo_invariant(self) -> bool {
        &&& forall|i: int|
            0 <= i < self.stops.len() ==> repo_lookup(
                self.repositories,
                (#[trigger] self.stops[i]).repository,
            ) is Some
        &&& forall|j: int|
            0 <= j < self.repositories.len() ==> exists|i: int|
                0 <= i < self.stops.len() && (#[trigger] self.stops[i]).repository == (
                #[trigger] self.repositories[j]).0
    }
}

// ---------------------------------------------------------------------------
// Executable first-match searches.
// ---------------------------------------------------------------------------
/// Position of the first stop with identifier `id`.
pub fn find_stop(stops: &Vec<Stop>, id: &String) -> (r: Option<usize>)
    ensures
        match r {
            Some(i) => stop_index(stops.deep_view(), id@) == i as int && i < stops@.len()
                && stops.deep_view()[i as int].id == id@,
            None => stop_index(stops.deep_view(), id@) == -1,
        },
{
    let ghost dv = stops.deep_view();
    let mut i: usize = 0;
    while i < stops.len()
        invariant
            dv == stops.deep_view(),
            dv.len() == stops@.len(),
            0 <= i <= stops@.len(),
            forall|k: int| 0 <= k < i ==> (#[trigger] dv[k]).id != id@,
        decreases stops@.len() - i,
    {
        proof {
            assert(dv[i as int] == stops@[i as int]@);
        }
        if strings_equal(&stops[i].id, id) {
            proof {
                lemma_stop_index_spec(dv, id@);
                if stop_index(dv, id@) != i as int {
                    assert(false);
                }
            }
            return Some(i);
        }
        i = i + 1;
    }
    proof {
        lemma_stop_index_spec(dv, id@);
    }
    None
}

/// Position of the first pin for repository `name`.
pub fn find_repo(repos: &Vec<(String, String)>, name: &String) -> (r: Option<usize>)
    ensures
        match r {
            Some(i) => {
                let m = repos_model_of(repos@);
                &&& repo_index(m, name@) == i as int
                &&& i < repos@.len()
                &&& repos@[i as int].0@ == name@
                &&& repo_lookup(m, name@) == Some(repos@[i as int].1@)
            },
            None => {
                let m = repos_model_of(repos@);
                &&& repo_index(m, name@) == -1
                &&& repo_lookup(m, name@) is None
            },
        },
{
    let ghost m = repos_model_of(repos@);
    let mut i: usize = 0;
    while i < repos.len()
        invariant
            m == repos_model_of(repos@),
            m.len() == repos@.len(),
            0 <= i <= repos@.len(),
            forall|k: int| 0 <= k < i ==> (#[trigger] m[k]).0 != name@,
        decreases repos@.len() - i,
    {
        proof {
            assert(m[i as int] == (repos@[i as int].0@, repos@[i as int].1@));
        }
        if strings_equal(&repos[i].0, name) {
            proof {
                lemma_repo_index_spec(m, name@);
                if repo_index(m, name@) != i as int {
                    assert(false);
                }
            }
            return Some(i);
        }
        i = i + 1;
    }
    proof {
        lemma_repo_index_spec(m, name@);
    }
    None
}

} // verus!
