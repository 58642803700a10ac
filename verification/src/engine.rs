//! The tour/stop state engine: owns the set of open tours, enforces the
//! edit-mode gate, and implements every tour and stop operation, using the
//! change-set model to keep stop positions valid.

use vstd::prelude::*;

use crate::changes::adjust_file;
use crate::changes::lookup_file;
use crate::changes::Changes;
use crate::changes::FileModel;
use crate::error::ErrorKind;
use crate::index::Index;
use crate::io::TourFileManager;
use crate::error::index_error;
use crate::error::persistence_error;
use crate::error::vcs_error;
use crate::paths::absolute_shaped;
use crate::paths::strings_equal;
use crate::paths::AbsolutePathBuf;
use crate::paths::RelativePathBuf;
use crate::types::clone_opt_string;
use crate::types::find_repo;
use crate::types::find_stop;
use crate::types::lemma_repo_index_spec;
use crate::types::lemma_repo_lookup_push;
use crate::types::lemma_repo_lookup_update;
use crate::types::repo_index;
use crate::types::repo_lookup;
use crate::types::stop_index;
use crate::types::Stop;
use crate::types::StopModel;
use crate::types::StopRefModel;
use crate::types::StopReference;
use crate::types::Tour;
use crate::types::TourModel;
use crate::vcs::VCS;

verus! {

pub type TourId = String;

pub type StopId = String;

/// A partial update of a stop's metadata: absent fields are left alone.
#[derive(Debug, PartialEq)]
pub struct StopMetadata {
    pub title: Option<String>,
    pub description: Option<String>,
}

/// A partial update of a tour's metadata: absent fields are left alone.
#[derive(Debug, PartialEq)]
pub struct TourMetadata {
    pub title: Option<String>,
    pub description: Option<String>,
}

/// A view of a cross-tour reference, resolved against the open tours.
#[derive(Debug, PartialEq)]
pub enum StopReferenceView {
    /// The linked tour is open in the session, so titles can be provided.
    Resolved {
        tour_id: TourId,
        tour_title: String,
        /// Absent if the reference links to the root of the tour.
        stop_id: Option<StopId>,
        /// Absent if the reference links to the root of the tour.
        stop_title: Option<String>,
    },
    /// The linked tour is not open.
    Unresolved { tour_id: TourId, stop_id: Option<StopId> },
}

/// Mathematical model of a resolved reference view.
pub ghost enum RefViewModel {
    Resolved {
        tour_id: Seq<char>,
        tour_title: Seq<char>,
        stop_id: Option<Seq<char>>,
        stop_title: Option<Seq<char>>,
    },
    Unresolved { tour_id: Seq<char>, stop_id: Option<Seq<char>> },
}

impl View for StopReferenceView {
    type V = RefViewModel;

    open spec fn view(&self) -> RefViewModel {
        match self {
            StopReferenceView::Resolved { tour_id, tour_title, stop_id, stop_title } => {
                RefViewModel::Resolved {
                    tour_id: tour_id@,
                    tour_title: tour_title@,
                    stop_id: match stop_id {
                        Some(s) => Some(s@),
                        None => None,
                    },
                    stop_title: match stop_title {
                        Some(s) => Some(s@),
                        None => None,
                    },
                }
            },
            StopReferenceView::Unresolved { tour_id, stop_id } => {
                RefViewModel::Unresolved {
                    tour_id: tour_id@,
                    stop_id: match stop_id {
                        Some(s) => Some(s@),
                        None => None,
                    },
                }
            },
        }
    }
}

impl DeepView for StopReferenceView {
    type V = RefViewModel;

    open spec fn deep_view(&self) -> RefViewModel {
        self.view()
    }
}

/// A read-only projection of a stop.
#[derive(Debug, PartialEq)]
pub struct StopView {
    pub title: String,
    pub description: String,
    pub repository: String,
    pub children: Vec<StopReferenceView>,
}

/// A read-only projection of a tour.
#[derive(Debug, PartialEq)]
pub struct TourView {
    pub title: String,
    pub description: String,
    /// Pairs of stop identifier and stop title, in narrative order.
    pub stops: Vec<(StopId, String)>,
    /// Pairs of repository name and pinned commit.
    pub repositories: Vec<(String, String)>,
    /// True if the tour is currently in edit mode.
    pub edit: bool,
}

/// Relies on `uuid::Uuid::new_v4`: a freshly generated random identifier,
/// rendered as hex digits.  Nothing is assumed about the value.
#[verifier::external_body]
fn fresh_id() -> String {
    format!("{}", uuid::Uuid::new_v4().simple())
}

/// Index of the first open tour with identifier `id`, or -1.
pub open spec fn tour_index_of(tours: Seq<TourModel>, id: Seq<char>) -> int
    decreases tours.len(),
{
    if tours.len() == 0 {
        -1
    } else if tours.first().id == id {
        0
    } else {
        let r = tour_index_of(tours.drop_first(), id);
        if r < 0 {
            -1
        } else {
            r + 1
        }
    }
}

pub proof fn lemma_tour_index_spec(tours: Seq<TourModel>, id: Seq<char>)
    ensures
        tour_index_of(tours, id) >= -1,
        tour_index_of(tours, id) == -1 <==> (forall|k: int|
            0 <= k < tours.len() ==> (#[trigger] tours[k]).id != id),
        tour_index_of(tours, id) >= 0 ==> {
            let i = tour_index_of(tours, id);
            &&& 0 <= i < tours.len()
            &&& tours[i].id == id
            &&& (forall|k: int| 0 <= k < i ==> (#[trigger] tours[k]).id != id)
        },
    decreases tours.len(),
{
    if tours.len() > 0 && tours.first().id != id {
        lemma_tour_index_spec(tours.drop_first(), id);
        assert(forall|k: int|
            0 <= k < tours.drop_first().len() ==> #[trigger] tours.drop_first()[k] == tours[k + 1]);
        assert(forall|k: int| 1 <= k < tours.len() ==> #[trigger] tours[k] == tours.drop_first()[k
            - 1]);
    }
}

/// Whether `id` is among the tours currently open for editing.
pub open spec fn edits_contain(edits: Seq<Seq<char>>, id: Seq<char>) -> bool {
    exists|i: int| 0 <= i < edits.len() && edits[i] == id
}

proof fn lemma_contain_push(s: Seq<Seq<char>>, v: Seq<char>)
    ensures
        forall|x: Seq<char>|
            #[trigger] edits_contain(s.push(v), x) <==> (edits_contain(s, x) || v == x),
{
    assert forall|x: Seq<char>|
        #[trigger] edits_contain(s.push(v), x) <==> (edits_contain(s, x) || v == x) by {
        let t = s.push(v);
        if edits_contain(t, x) {
            let w = choose|k: int| 0 <= k < t.len() && #[trigger] t[k] == x;
            if w < s.len() {
                assert(s[w] == x);
                assert(edits_contain(s, x));
            } else {
                assert(v == x);
            }
        }
        if edits_contain(s, x) {
            let w = choose|k: int| 0 <= k < s.len() && #[trigger] s[k] == x;
            assert(t[w] == x);
            assert(edits_contain(t, x));
        }
        if v == x {
            assert(t[s.len() as int] == x);
            assert(edits_contain(t, x));
        }
    };
}

proof fn lemma_contain_take_step(s: Seq<Seq<char>>, i: int)
    requires
        0 <= i < s.len(),
    ensures
        forall|x: Seq<char>|
            #[trigger] edits_contain(s.take(i + 1), x) <==> (edits_contain(s.take(i), x) || s[i]
                == x),
{
    assert(s.take(i + 1) =~= s.take(i).push(s[i]));
    lemma_contain_push(s.take(i), s[i]);
}

/// The pin table after pinning `name` at `ver`: overwritten in place if the
/// name is already pinned, appended otherwise.
pub open spec fn pins_updated(
    repos: Seq<(Seq<char>, Seq<char>)>,
    name: Seq<char>,
    ver: Seq<char>,
) -> Seq<(Seq<char>, Seq<char>)> {
    let i = repo_index(repos, name);
    if i >= 0 {
        repos.update(i, (name, ver))
    } else {
        repos.push((name, ver))
    }
}

/// The open tours after inserting `t`, keyed by its embedded id: the first
/// tour with the same id is replaced, otherwise `t` is appended.
pub open spec fn tours_updated(tours: Seq<TourModel>, t: TourModel) -> Seq<TourModel> {
    tours_replaced(tours, t.id, t)
}

/// The open tours after storing `t` under the identifier `key`: the first
/// tour with identifier `key` is replaced, otherwise `t` is appended.
pub open spec fn tours_replaced(tours: Seq<TourModel>, key: Seq<char>, t: TourModel) -> Seq<
    TourModel,
> {
    let i = tour_index_of(tours, key);
    if i >= 0 {
        tours.update(i, t)
    } else {
        tours.push(t)
    }
}

/// Whether `c` names exactly the target `(tid, sid)` pair.
pub open spec fn ref_matches(c: StopRefModel, tid: Seq<char>, sid: Option<Seq<char>>) -> bool {
    c.tour_id == tid && c.stop_id == sid
}

/// The reference list with every reference to exactly `(tid, sid)` removed;
/// the remaining references keep their order.
pub open spec fn refs_removed(
    children: Seq<StopRefModel>,
    tid: Seq<char>,
    sid: Option<Seq<char>>,
) -> Seq<StopRefModel>
    decreases children.len(),
{
    if children.len() == 0 {
        Seq::empty()
    } else {
        let rest = refs_removed(children.drop_last(), tid, sid);
        if ref_matches(children.last(), tid, sid) {
            rest
        } else {
            rest.push(children.last())
        }
    }
}

/// The stop list with every stop of identifier `sid` removed; the remaining
/// stops keep their order.
pub open spec fn stops_removed(stops: Seq<StopModel>, sid: Seq<char>) -> Seq<StopModel>
    decreases stops.len(),
{
    if stops.len() == 0 {
        Seq::empty()
    } else {
        let rest = stops_removed(stops.drop_last(), sid);
        if stops.last().id == sid {
            rest
        } else {
            rest.push(stops.last())
        }
    }
}

/// Whether some stop of `stops` references repository `name`.
pub open spec fn stops_reference(stops: Seq<StopModel>, name: Seq<char>) -> bool {
    exists|i: int| 0 <= i < stops.len() && stops[i].repository == name
}

/// The pin table pruned to the repositories that `stops` still reference;
/// the remaining pins keep their order.
pub open spec fn pins_pruned(
    repos: Seq<(Seq<char>, Seq<char>)>,
    stops: Seq<StopModel>,
) -> Seq<(Seq<char>, Seq<char>)>
    decreases repos.len(),
{
    if repos.len() == 0 {
        Seq::empty()
    } else {
        let rest = pins_pruned(repos.drop_first(), stops);
        if stops_reference(stops, repos.first().0) {
            seq![repos.first()] + rest
        } else {
            rest
        }
    }
}

/// The prune keeps exactly the pins whose repository some stop still
/// references, in order, and preserves the lookup of every kept name.
proof fn lemma_pins_pruned_spec(repos: Seq<(Seq<char>, Seq<char>)>, stops: Seq<StopModel>)
    ensures
        forall|k: int|
            0 <= k < pins_pruned(repos, stops).len() ==> stops_reference(
                stops,
                (#[trigger] pins_pruned(repos, stops)[k]).0,
            ),
        forall|name: Seq<char>|
            #[trigger] repo_lookup(pins_pruned(repos, stops), name) == if stops_reference(
                stops,
                name,
            ) {
                repo_lookup(repos, name)
            } else {
                None
            },
    decreases repos.len(),
{
    let p = pins_pruned(repos, stops);
    if repos.len() == 0 {
        assert(forall|name: Seq<char>| #[trigger] repo_lookup(p, name) is None);
    } else {
        lemma_pins_pruned_spec(repos.drop_first(), stops);
        let rest = pins_pruned(repos.drop_first(), stops);
        if stops_reference(stops, repos.first().0) {
            assert(p == seq![repos.first()] + rest);
            assert(p.len() == rest.len() + 1);
            assert(p[0] == repos.first());
            assert(forall|k: int| 1 <= k < p.len() ==> #[trigger] p[k] == rest[k - 1]);
            assert(p.first() == repos.first());
            assert(p.drop_first() =~= rest);
            assert forall|name: Seq<char>|
                #[trigger] repo_lookup(p, name) == if stops_reference(stops, name) {
                    repo_lookup(repos, name)
                } else {
                    None
                } by {
                if name == repos.first().0 {
                    assert(repo_lookup(p, name) == Some(repos.first().1));
                    assert(repo_lookup(repos, name) == Some(repos.first().1));
                } else {
                    assert(repo_lookup(p, name) == repo_lookup(rest, name));
                    assert(repo_lookup(repos, name) == repo_lookup(repos.drop_first(), name));
                }
            };
        } else {
            assert(p == rest);
            assert forall|name: Seq<char>|
                #[trigger] repo_lookup(p, name) == if stops_reference(stops, name) {
                    repo_lookup(repos, name)
                } else {
                    None
                } by {
                if name == repos.first().0 {
                    assert(!stops_reference(stops, name));
                } else {
                    assert(repo_lookup(repos, name) == repo_lookup(repos.drop_first(), name));
                }
            };
        }
    }
}

/// The removal keeps exactly the stops whose identifier differs from `sid`,
/// in order.
proof fn lemma_stops_removed_spec(stops: Seq<StopModel>, sid: Seq<char>)
    ensures
        forall|k: int|
            0 <= k < stops_removed(stops, sid).len() ==> (#[trigger] stops_removed(
                stops,
                sid,
            )[k]).id != sid,
        forall|k: int|
            #![trigger stops_removed(stops, sid)[k]]
            0 <= k < stops_removed(stops, sid).len() ==> exists|m: int|
                0 <= m < stops.len() && #[trigger] stops[m] == stops_removed(stops, sid)[k],
        forall|m: int|
            0 <= m < stops.len() && (#[trigger] stops[m]).id != sid ==> exists|k: int|
                0 <= k < stops_removed(stops, sid).len() && #[trigger] stops_removed(
                    stops,
                    sid,
                )[k] == stops[m],
    decreases stops.len(),
{
    if stops.len() > 0 {
        lemma_stops_removed_spec(stops.drop_last(), sid);
        let r = stops_removed(stops, sid);
        let rest = stops_removed(stops.drop_last(), sid);
        assert(forall|m: int|
            0 <= m < stops.len() - 1 ==> #[trigger] stops.drop_last()[m] == stops[m]);
        if stops.last().id != sid {
            assert(r == rest.push(stops.last()));
            assert(forall|k: int| 0 <= k < rest.len() ==> #[trigger] r[k] == rest[k]);
            assert(r[rest.len() as int] == stops[stops.len() - 1]);
        } else {
            assert(r == rest);
        }
        assert forall|k: int| #![trigger r[k]] 0 <= k < r.len() implies exists|m: int|
            0 <= m < stops.len() && #[trigger] stops[m] == r[k] by {
            if k < rest.len() {
                let m = choose|m: int|
                    0 <= m < stops.drop_last().len() && #[trigger] stops.drop_last()[m] == rest[k];
                assert(stops[m] == r[k]);
            } else {
                assert(stops[stops.len() - 1] == r[k]);
            }
        };
        assert forall|m: int| 0 <= m < stops.len() && (#[trigger] stops[m]).id != sid implies exists|
            k: int,
        | 0 <= k < r.len() && #[trigger] r[k] == stops[m] by {
            if m < stops.len() - 1 {
                let k = choose|k: int| 0 <= k < rest.len() && rest[k] == stops.drop_last()[m];
                assert(r[k] == stops[m]);
            } else {
                assert(r[rest.len() as int] == stops[m]);
            }
        };
    }
}

/// Resolves an absolute file path against the indexed repository roots: the
/// first root whose components are a literal prefix of the path wins, and
/// yields the remainder of the path, the repository's name and its root.
pub fn resolve_in_roots(roots: &Vec<(String, AbsolutePathBuf)>, path: &AbsolutePathBuf) -> (r:
    Option<(RelativePathBuf, String, AbsolutePathBuf)>)
    ensures
        match r {
            Some(found) => exists|k: int|
                #![auto]
                0 <= k < roots@.len() && roots@[k].0@ == found.1@ && roots@[k].1@ == found.2@
                    && roots@[k].1@.is_prefix_of(path@) && found.0@ == path@.skip(
                    roots@[k].1@.len() as int,
                ) && (forall|m: int|
                    0 <= m < k ==> !(#[trigger] roots@[m]).1@.is_prefix_of(path@)),
            None => forall|m: int|
                0 <= m < roots@.len() ==> !(#[trigger] roots@[m]).1@.is_prefix_of(path@),
        },
{
    let mut k: usize = 0;
    while k < roots.len()
        invariant
            0 <= k <= roots@.len(),
            forall|m: int| 0 <= m < k ==> !(#[trigger] roots@[m]).1@.is_prefix_of(path@),
        decreases roots@.len() - k,
    {
        match path.try_relative(&roots[k].1) {
            Some(rel) => {
                return Some((rel, roots[k].0.clone(), roots[k].1.clone()));
            },
            None => {},
        }
        k = k + 1;
    }
    None
}

/// Pins repository `name` at commit `ver`: an existing pin is overwritten,
/// otherwise the pin is appended.
fn pin_repo(repos: &mut Vec<(String, String)>, name: String, ver: String)
    ensures
        crate::types::repos_model_of(final(repos)@) == pins_updated(
            crate::types::repos_model_of(old(repos)@),
            name@,
            ver@,
        ),
{
    let ghost m = crate::types::repos_model_of(repos@);
    match find_repo(repos, &name) {
        Some(i) => {
            repos.set(i, (name, ver));
            proof {
                assert(crate::types::repos_model_of(repos@) =~= m.update(i as int, (name@, ver@)));
            }
        },
        None => {
            repos.push((name, ver));
            proof {
                assert(crate::types::repos_model_of(repos@) =~= m.push((name@, ver@)));
            }
        },
    }
}

/// Whether some stop of `stops` references the repository named `name`.
fn stops_reference_exec(stops: &Vec<Stop>, name: &String) -> (r: bool)
    ensures
        r == stops_reference(stops.deep_view(), name@),
{
    let ghost dv = stops.deep_view();
    let mut i: usize = 0;
    while i < stops.len()
        invariant
            dv == stops.deep_view(),
            dv.len() == stops@.len(),
            0 <= i <= stops@.len(),
            forall|k: int| 0 <= k < i ==> (#[trigger] dv[k]).repository != name@,
        decreases stops@.len() - i,
    {
        proof {
            assert(dv[i as int] == stops@[i as int]@);
        }
        if strings_equal(&stops[i].repository, name) {
            proof {
                assert(stops_reference(dv, name@)) by {
                    assert(dv[i as int].repository == name@);
                }
            }
            return true;
        }
        i = i + 1;
    }
    false
}

/// Invariant preservation for stop creation: appending a stop and pinning
/// its repository keeps every stop pinned and every pin referenced.
pub proof fn lemma_new_stop_invariant(
    t: TourModel,
    id: Seq<char>,
    title: Seq<char>,
    line: usize,
    rel: Seq<Seq<char>>,
    repo: Seq<char>,
    ver: Seq<char>,
)
    requires
        t.repo_invariant(),
    ensures
        with_new_stop(t, id, title, line, rel, repo, ver).repo_invariant(),
{
    let newtour = with_new_stop(t, id, title, line, rel, repo, ver);
    let pins = pins_updated(t.repositories, repo, ver);
    lemma_repo_index_spec(t.repositories, repo);
    assert forall|name: Seq<char>|
        #[trigger] repo_lookup(pins, name) == if name == repo {
            Some(ver)
        } else {
            repo_lookup(t.repositories, name)
        } by {
        if repo_index(t.repositories, repo) >= 0 {
            lemma_repo_lookup_update(
                t.repositories,
                repo_index(t.repositories, repo),
                (repo, ver),
                name,
            );
        } else {
            lemma_repo_lookup_push(t.repositories, (repo, ver), name);
        }
    };
    assert forall|k: int| 0 <= k < newtour.stops.len() implies repo_lookup(
        pins,
        (#[trigger] newtour.stops[k]).repository,
    ) is Some by {
        if k < t.stops.len() {
            assert(newtour.stops[k] == t.stops[k]);
            assert(repo_lookup(t.repositories, t.stops[k].repository) is Some);
        } else {
            assert(newtour.stops[k].repository == repo);
        }
    };
    assert forall|j: int| 0 <= j < pins.len() implies exists|k: int|
        0 <= k < newtour.stops.len() && (#[trigger] newtour.stops[k]).repository == (
        #[trigger] pins[j]).0 by {
        if repo_index(t.repositories, repo) >= 0 || j < t.repositories.len() {
            assert(pins[j].0 == t.repositories[j].0);
            let k = choose|k: int|
                0 <= k < t.stops.len() && (#[trigger] t.stops[k]).repository
                    == t.repositories[j].0;
            assert(newtour.stops[k].repository == pins[j].0);
        } else {
            assert(pins[j] == (repo, ver));
            assert(newtour.stops[t.stops.len() as int].repository == repo);
        }
    };
}

/// Invariant preservation for stop removal: removing the stops of one
/// identifier and pruning the pins to what the remaining stops reference
/// keeps every stop pinned and every pin referenced.
pub proof fn lemma_remove_stop_invariant(t: TourModel, sid: Seq<char>)
    requires
        t.repo_invariant(),
    ensures
        ({
            let kept = stops_removed(t.stops, sid);
            let newt = TourModel {
                stops: kept,
                repositories: pins_pruned(t.repositories, kept),
                ..t
            };
            newt.repo_invariant()
        }),
{
    let kept = stops_removed(t.stops, sid);
    let pins = pins_pruned(t.repositories, kept);
    lemma_pins_pruned_spec(t.repositories, kept);
    lemma_stops_removed_spec(t.stops, sid);
    assert forall|k: int| 0 <= k < kept.len() implies repo_lookup(
        pins,
        (#[trigger] kept[k]).repository,
    ) is Some by {
        let m = choose|m: int| 0 <= m < t.stops.len() && #[trigger] t.stops[m] == kept[k];
        assert(repo_lookup(t.repositories, t.stops[m].repository) is Some);
        assert(stops_reference(kept, kept[k].repository)) by {
            assert(kept[k].repository == kept[k].repository);
        }
    };
    assert forall|j: int| 0 <= j < pins.len() implies exists|k: int|
        0 <= k < kept.len() && (#[trigger] kept[k]).repository == (#[trigger] pins[j]).0 by {
        assert(stops_reference(kept, pins[j].0));
    };
}

/// `t` after appending a fresh stop anchored at `line` of `rel` in
/// repository `repo`, with that repository pinned at `ver`.
pub open spec fn with_new_stop(
    t: TourModel,
    id: Seq<char>,
    title: Seq<char>,
    line: usize,
    rel: Seq<Seq<char>>,
    repo: Seq<char>,
    ver: Seq<char>,
) -> TourModel {
    TourModel {
        stops: t.stops.push(
            StopModel {
                id: id,
                title: title,
                description: Seq::empty(),
                path: rel,
                repository: repo,
                line: line,
                children: Seq::empty(),
                broken: None,
            },
        ),
        repositories: pins_updated(t.repositories, repo, ver),
        ..t
    }
}

/// `t` after re-anchoring its stop at position `j` to `line` of `rel` in
/// repository `repo`, with that repository pinned at `ver`.
pub open spec fn with_moved_stop(
    t: TourModel,
    j: int,
    line: usize,
    rel: Seq<Seq<char>>,
    repo: Seq<char>,
    ver: Seq<char>,
) -> TourModel {
    TourModel {
        stops: t.stops.update(
            j,
            StopModel { path: rel, line: line, broken: None, ..t.stops[j] },
        ),
        repositories: pins_updated(t.repositories, repo, ver),
        ..t
    }
}

/// The session outcome of a successful stop creation: for some indexed root
/// whose components are a prefix of the given absolute path, and some
/// repository name and version, the tour gained exactly the new stop — its
/// stored path being the given path with that root cut off — and its pin.
pub open spec fn created_stop_outcome(
    pre: Seq<TourModel>,
    post: Seq<TourModel>,
    tid: Seq<char>,
    id: Seq<char>,
    title: Seq<char>,
    path: Seq<char>,
    line: usize,
) -> bool {
    exists|root: Seq<Seq<char>>, repo: Seq<char>, ver: Seq<char>|
        root.is_prefix_of(split_abs(path)) && post == pre.update(
            tour_index_of(pre, tid),
            #[trigger] with_new_stop(
                pre[tour_index_of(pre, tid)],
                id,
                title,
                line,
                split_abs(path).skip(root.len() as int),
                repo,
                ver,
            ),
        )
}

/// The session outcome of a successful stop move: for some indexed root
/// whose components are a prefix of the given absolute path, and some
/// repository name and version, the stop was re-anchored — its stored path
/// being the given path with that root cut off — and the repository pinned.
pub open spec fn moved_stop_outcome(
    pre: Seq<TourModel>,
    post: Seq<TourModel>,
    tid: Seq<char>,
    sid: Seq<char>,
    path: Seq<char>,
    line: usize,
) -> bool {
    exists|root: Seq<Seq<char>>, repo: Seq<char>, ver: Seq<char>|
        root.is_prefix_of(split_abs(path)) && post == pre.update(
            tour_index_of(pre, tid),
            #[trigger] with_moved_stop(
                pre[tour_index_of(pre, tid)],
                stop_index(pre[tour_index_of(pre, tid)].stops, sid),
                line,
                split_abs(path).skip(root.len() as int),
                repo,
                ver,
            ),
        )
}

/// `val` forced into the closed interval `[lo, hi]`.
pub open spec fn clamp_spec(val: int, lo: int, hi: int) -> int {
    if val < lo {
        lo
    } else if val > hi {
        hi
    } else {
        val
    }
}

/// The shared session: every open tour, the set of tours open for editing,
/// and the collaborators the operations consult.
pub struct Engine<M: TourFileManager, V: VCS, I: Index> {
    /// The open tours, each identified by its embedded id.
    pub tours: Vec<Tour>,
    /// Identifiers of the tours open for editing.
    pub edits: Vec<TourId>,
    pub manager: M,
    pub vcs: V,
    pub index: I,
}

impl<M: TourFileManager, V: VCS, I: Index> Engine<M, V, I> {
    /// The open tours, as their models.
    pub open spec fn tours_model(&self) -> Seq<TourModel> {
        self.tours.deep_view()
    }

    /// The edit set, as identifier character sequences.
    pub open spec fn edits_model(&self) -> Seq<Seq<char>> {
        self.edits.deep_view()
    }

    /// Whether the tour named `id` is open for editing.
    pub open spec fn editable(&self, id: Seq<char>) -> bool {
        edits_contain(self.edits_model(), id)
    }

    /// Position of the first open tour with identifier `id`.
    fn find_tour(&self, id: &String) -> (r: Option<usize>)
        ensures
            match r {
                Some(i) => tour_index_of(self.tours_model(), id@) == i as int && i
                    < self.tours@.len() && self.tours_model()[i as int].id == id@,
                None => tour_index_of(self.tours_model(), id@) == -1,
            },
    {
        let ghost dv = self.tours_model();
        let mut i: usize = 0;
        while i < self.tours.len()
            invariant
                dv == self.tours_model(),
                dv.len() == self.tours@.len(),
                0 <= i <= self.tours@.len(),
                forall|k: int| 0 <= k < i ==> (#[trigger] dv[k]).id != id@,
            decreases self.tours@.len() - i,
        {
            proof {
                assert(dv[i as int] == self.tours@[i as int]@);
            }
            if strings_equal(&self.tours[i].id, id) {
                proof {
                    lemma_tour_index_spec(dv, id@);
                    if tour_index_of(dv, id@) != i as int {
                        assert(false);
                    }
                }
                return Some(i);
            }
            i = i + 1;
        }
        proof {
            lemma_tour_index_spec(dv, id@);
        }
        None
    }

    /// Whether the tour named `tour_id` is open for editing.
    pub fn is_editable(&self, tour_id: &String) -> (r: bool)
        ensures
            r == self.editable(tour_id@),
    {
        let mut i: usize = 0;
        while i < self.edits.len()
            invariant
                0 <= i <= self.edits@.len(),
                forall|k: int| 0 <= k < i ==> self.edits_model()[k] != tour_id@,
            decreases self.edits@.len() - i,
        {
            proof {
                assert(self.edits_model()[i as int] == self.edits@[i as int]@);
            }
            if strings_equal(&self.edits[i], tour_id) {
                proof {
                    assert(edits_contain(self.edits_model(), tour_id@)) by {
                        assert(self.edits_model()[i as int] == tour_id@);
                    }
                }
                return true;
            }
            i = i + 1;
        }
        false
    }

    /// Opens or closes edit mode for `tour_id`; everything else is left
    /// alone.
    pub fn set_editable(&mut self, tour_id: TourId, edit: bool)
        ensures
            final(self).tours_model() == old(self).tours_model(),
            edit ==> (forall|x: Seq<char>|
                #[trigger] edits_contain(final(self).edits_model(), x) == (edits_contain(
                    old(self).edits_model(),
                    x,
                ) || x == tour_id@)),
            !edit ==> (forall|x: Seq<char>|
                #[trigger] edits_contain(final(self).edits_model(), x) == (edits_contain(
                    old(self).edits_model(),
                    x,
                ) && x != tour_id@)),
    {
        if edit {
            if !self.is_editable(&tour_id) {
                let ghost olddv = self.edits.deep_view();
                self.edits.push(tour_id);
                proof {
                    assert(self.edits_model().len() == olddv.len() + 1);
                    assert(forall|k: int|
                        0 <= k < olddv.len() ==> self.edits_model()[k] == olddv[k]);
                    assert(self.edits_model()[olddv.len() as int] == tour_id@);
                    assert forall|x: Seq<char>|
                        #[trigger] edits_contain(self.edits_model(), x) == (edits_contain(olddv, x)
                            || x == tour_id@) by {
                        if edits_contain(olddv, x) {
                            let w = choose|i: int| 0 <= i < olddv.len() && olddv[i] == x;
                            assert(self.edits_model()[w] == x);
                        }
                        if edits_contain(self.edits_model(), x) {
                            let w = choose|i: int|
                                0 <= i < self.edits_model().len() && self.edits_model()[i] == x;
                            if w < olddv.len() {
                                assert(olddv[w] == x);
                            }
                        }
                        if x == tour_id@ {
                            assert(self.edits_model()[olddv.len() as int] == x);
                        }
                    };
                }
            } else {
                proof {
                    assert forall|x: Seq<char>|
                        #[trigger] edits_contain(self.edits_model(), x) == (edits_contain(
                            self.edits_model(),
                            x,
                        ) || x == tour_id@) by {
                        if x == tour_id@ {
                            assert(edits_contain(self.edits_model(), x));
                        }
                    };
                }
            }
        } else {
            let ghost olddv = self.edits.deep_view();
            let mut kept: Vec<String> = Vec::new();
            let mut i: usize = 0;
            while i < self.edits.len()
                invariant
                    olddv == self.edits.deep_view(),
                    olddv.len() == self.edits@.len(),
                    0 <= i <= self.edits@.len(),
                    forall|x: Seq<char>|
                        #[trigger] edits_contain(kept.deep_view(), x) == (edits_contain(
                            olddv.take(i as int),
                            x,
                        ) && x != tour_id@),
                decreases self.edits@.len() - i,
            {
                proof {
                    assert(olddv[i as int] == self.edits@[i as int]@);
                }
                let ghost keptdv = kept.deep_view();
                if !strings_equal(&self.edits[i], &tour_id) {
                    let e = self.edits[i].clone();
                    kept.push(e);
                }
                proof {
                    let newdv = kept.deep_view();
                    let v = olddv[i as int];
                    lemma_contain_take_step(olddv, i as int);
                    if v != tour_id@ {
                        assert(newdv =~= keptdv.push(v));
                        lemma_contain_push(keptdv, v);
                    } else {
                        assert(newdv == keptdv);
                    }
                    assert forall|x: Seq<char>|
                        #[trigger] edits_contain(newdv, x) == (edits_contain(
                            olddv.take(i + 1),
                            x,
                        ) && x != tour_id@) by {
                        assert(edits_contain(olddv.take(i + 1), x) == (edits_contain(
                            olddv.take(i as int),
                            x,
                        ) || v == x));
                        assert(edits_contain(keptdv, x) == (edits_contain(
                            olddv.take(i as int),
                            x,
                        ) && x != tour_id@));
                        if v != tour_id@ {
                            assert(edits_contain(newdv, x) == (edits_contain(keptdv, x) || v == x));
                        }
                    };
                }
                i = i + 1;
            }
            proof {
                assert(olddv.take(olddv.len() as int) =~= olddv);
            }
            self.edits = kept;
        }
    }

    /// Inserts `tour` into the session, keyed by its embedded id: the first
    /// open tour with the same id is replaced, otherwise the tour is
    /// appended.
    fn put_tour(&mut self, tour: Tour)
        ensures
            final(self).edits_model() == old(self).edits_model(),
            final(self).tours_model() == tours_updated(old(self).tours_model(), tour@),
    {
        let ghost dv = self.tours_model();
        match self.find_tour(&tour.id) {
            Some(i) => {
                let ghost tm = tour@;
                self.tours.set(i, tour);
                proof {
                    assert(self.tours_model() =~= dv.update(i as int, tm));
                }
            },
            None => {
                let ghost tm = tour@;
                self.tours.push(tour);
                proof {
                    assert(self.tours_model() =~= dv.push(tm));
                }
            },
        }
    }

    /// Replaces the first open tour with identifier `key` by `tour`, or
    /// appends `tour` if no open tour has that identifier.
    fn put_tour_at(&mut self, key: &String, tour: Tour)
        ensures
            final(self).edits_model() == old(self).edits_model(),
            final(self).tours_model() == tours_replaced(old(self).tours_model(), key@, tour@),
    {
        let ghost dv = self.tours_model();
        match self.find_tour(key) {
            Some(i) => {
                let ghost tm = tour@;
                self.tours.set(i, tour);
                proof {
                    assert(self.tours_model() =~= dv.update(i as int, tm));
                }
            },
            None => {
                let ghost tm = tour@;
                self.tours.push(tour);
                proof {
                    assert(self.tours_model() =~= dv.push(tm));
                }
            },
        }
    }

    /// Creates a fresh, empty tour under a newly generated identifier and
    /// returns that identifier.  The new tour is not editable until the
    /// caller asks for it.
    pub fn create_tour(&mut self, title: String) -> (r: Result<TourId, ErrorKind>)
        ensures
            r is Ok,
            final(self).edits_model() == old(self).edits_model(),
            r matches Ok(id) ==> final(self).tours_model() == tours_updated(
                old(self).tours_model(),
                TourModel {
                    protocol_version: "1.0"@,
                    id: id@,
                    title: title@,
                    description: Seq::empty(),
                    stops: Seq::empty(),
                    repositories: Seq::empty(),
                    generator: 0,
                },
            ),
    {
        let id = fresh_id();
        let tour = Tour {
            protocol_version: "1.0".to_owned(),
            id: id.clone(),
            title,
            description: String::new(),
            stops: Vec::new(),
            repositories: Vec::new(),
            generator: 0,
        };
        proof {
            assert(tour@.stops =~= Seq::<StopModel>::empty());
            assert(tour@.repositories =~= Seq::<(Seq<char>, Seq<char>)>::empty());
        }
        self.put_tour(tour);
        Ok(id)
    }

    /// Loads the tour stored at `path` into the session, keyed by its
    /// embedded identifier, and optionally opens it for editing.
    pub fn open_tour(&mut self, path: String, edit: bool) -> (r: Result<TourId, ErrorKind>)
        ensures
            r matches Err(e) ==> final(self).tours_model() == old(self).tours_model() && final(self).edits_model() == old(self).edits_model(),
            r matches Ok(id) ==> (exists|t: TourModel|
                #![auto]
                t.id == id@ && final(self).tours_model() == tours_updated(
                    old(self).tours_model(),
                    t,
                )),
            edit ==> (r matches Ok(id) ==> final(self).editable(id@)),
            !edit ==> final(self).edits_model() == old(self).edits_model(),
    {
        match self.manager.load_tour(&path) {
            Ok(tour) => {
                let id = tour.id.clone();
                let ghost tm = tour@;
                self.put_tour(tour);
                if edit {
                    self.set_editable(id.clone(), true);
                }
                proof {
                    assert(tm.id == id@ && self.tours_model() == tours_updated(
                        old(self).tours_model(),
                        tm,
                    ));
                }
                Ok(id)
            },
            Err(e) => Err(e),
        }
    }

    /// Reloads the tour keyed `tour_id` from its saved form, replacing the
    /// in-memory copy.
    pub fn reload_tour(&mut self, tour_id: TourId) -> (r: Result<(), ErrorKind>)
        ensures
            final(self).edits_model() == old(self).edits_model(),
            r matches Err(e) ==> final(self).tours_model() == old(self).tours_model(),
            r is Ok ==> (exists|t: TourModel|
                #![auto]
                final(self).tours_model() == tours_replaced(old(self).tours_model(), tour_id@, t)),
    {
        match self.manager.reload_tour(&tour_id) {
            Ok(tour) => {
                let ghost tm = tour@;
                self.put_tour_at(&tour_id, tour);
                proof {
                    assert(self.tours_model() == tours_replaced(
                        old(self).tours_model(),
                        tour_id@,
                        tm,
                    ));
                }
                Ok(())
            },
            Err(e) => Err(e),
        }
    }

    /// Closes edit mode for `tour_id` and discards unsaved changes by
    /// reloading the tour from its saved form.
    pub fn freeze_tour(&mut self, tour_id: TourId) -> (r: Result<(), ErrorKind>)
        ensures
            !final(self).editable(tour_id@),
            forall|x: Seq<char>|
                #[trigger] edits_contain(final(self).edits_model(), x) == (edits_contain(
                    old(self).edits_model(),
                    x,
                ) && x != tour_id@),
            r matches Err(e) ==> final(self).tours_model() == old(self).tours_model(),
            r is Ok ==> (exists|t: TourModel|
                #![auto]
                final(self).tours_model() == tours_replaced(old(self).tours_model(), tour_id@, t)),
    {
        let id = tour_id.clone();
        self.set_editable(tour_id, false);
        match self.reload_tour(id) {
            Ok(()) => Ok(()),
            Err(e) => Err(e),
        }
    }

    /// Opens edit mode for `tour_id`.
    pub fn unfreeze_tour(&mut self, tour_id: TourId) -> (r: Result<(), ErrorKind>)
        ensures
            r is Ok,
            final(self).tours_model() == old(self).tours_model(),
            final(self).editable(tour_id@),
            forall|x: Seq<char>|
                #[trigger] edits_contain(final(self).edits_model(), x) == (edits_contain(
                    old(self).edits_model(),
                    x,
                ) || x == tour_id@),
    {
        self.set_editable(tour_id, true);
        Ok(())
    }

    /// Drops the tour keyed `tour_id` from the session without touching its
    /// saved form.
    pub fn forget_tour(&mut self, tour_id: TourId) -> (r: Result<(), ErrorKind>)
        ensures
            final(self).edits_model() == old(self).edits_model(),
            match r {
                Ok(()) => tour_index_of(old(self).tours_model(), tour_id@) >= 0 && final(self).tours_model() == old(self).tours_model().remove(
                    tour_index_of(old(self).tours_model(), tour_id@),
                ),
                Err(e) => e == ErrorKind::NoTourWithID && tour_index_of(
                    old(self).tours_model(),
                    tour_id@,
                ) == -1 && final(self).tours_model() == old(self).tours_model(),
            },
    {
        let ghost dv = self.tours_model();
        match self.find_tour(&tour_id) {
            Some(i) => {
                let _ = self.tours.remove(i);
                proof {
                    assert(self.tours_model() =~= dv.remove(i as int));
                }
                Ok(())
            },
            None => Err(ErrorKind::NoTourWithID),
        }
    }

    /// Identifier and title of every open tour.
    pub fn list_tours(&self) -> (r: Result<Vec<(TourId, String)>, ErrorKind>)
        ensures
            r matches Ok(v) && v@.len() == self.tours_model().len() && (forall|i: int|
                0 <= i < v@.len() ==> (#[trigger] v@[i]).0@ == self.tours_model()[i].id
                    && v@[i].1@ == self.tours_model()[i].title),
    {
        let mut v: Vec<(String, String)> = Vec::new();
        let mut i: usize = 0;
        while i < self.tours.len()
            invariant
                0 <= i <= self.tours@.len(),
                v@.len() == i,
                forall|k: int|
                    0 <= k < i ==> (#[trigger] v@[k]).0@ == self.tours_model()[k].id && v@[k].1@
                        == self.tours_model()[k].title,
            decreases self.tours@.len() - i,
        {
            proof {
                assert(self.tours_model()[i as int] == self.tours@[i as int]@);
            }
            v.push((self.tours[i].id.clone(), self.tours[i].title.clone()));
            i = i + 1;
        }
        Ok(v)
    }

    /// A read-only summary of the tour keyed `tour_id`.
    pub fn view_tour(&self, tour_id: TourId) -> (r: Result<TourView, ErrorKind>)
        ensures
            match r {
                Ok(v) => {
                    let i = tour_index_of(self.tours_model(), tour_id@);
                    let t = self.tours_model()[i];
                    &&& i >= 0
                    &&& v.title@ == t.title
                    &&& v.description@ == t.description
                    &&& v.edit == self.editable(tour_id@)
                    &&& v.stops@.len() == t.stops.len()
                    &&& (forall|k: int|
                        0 <= k < v.stops@.len() ==> (#[trigger] v.stops@[k]).0@ == t.stops[k].id
                            && v.stops@[k].1@ == t.stops[k].title)
                    &&& v.repositories@.len() == t.repositories.len()
                    &&& (forall|k: int|
                        0 <= k < v.repositories@.len() ==> (#[trigger] v.repositories@[k]).0@
                            == t.repositories[k].0 && v.repositories@[k].1@ == t.repositories[k].1)
                },
                Err(e) => e == ErrorKind::NoTourWithID && tour_index_of(
                    self.tours_model(),
                    tour_id@,
                ) == -1,
            },
    {
        let i = match self.find_tour(&tour_id) {
            Some(i) => i,
            None => {
                return Err(ErrorKind::NoTourWithID);
            },
        };
        let edit = self.is_editable(&tour_id);
        let t = &self.tours[i];
        let ghost tm = self.tours_model()[i as int];
        proof {
            assert(t@ == tm);
        }
        let mut stops: Vec<(String, String)> = Vec::new();
        let mut k: usize = 0;
        while k < t.stops.len()
            invariant
                tm.stops == t.stops.deep_view(),
                tm.stops.len() == t.stops@.len(),
                0 <= k <= t.stops@.len(),
                stops@.len() == k,
                forall|m: int|
                    0 <= m < k ==> (#[trigger] stops@[m]).0@ == tm.stops[m].id && stops@[m].1@
                        == tm.stops[m].title,
            decreases t.stops@.len() - k,
        {
            proof {
                assert(tm.stops[k as int] == t.stops@[k as int]@);
            }
            stops.push((t.stops[k].id.clone(), t.stops[k].title.clone()));
            k = k + 1;
        }
        let mut repositories: Vec<(String, String)> = Vec::new();
        let mut k: usize = 0;
        while k < t.repositories.len()
            invariant
                tm.repositories == t@.repositories,
                tm.repositories.len() == t.repositories@.len(),
                0 <= k <= t.repositories@.len(),
                repositories@.len() == k,
                forall|m: int|
                    0 <= m < k ==> (#[trigger] repositories@[m]).0@ == tm.repositories[m].0
                        && repositories@[m].1@ == tm.repositories[m].1,
            decreases t.repositories@.len() - k,
        {
            proof {
                assert(tm.repositories[k as int] == (
                    t.repositories@[k as int].0@,
                    t.repositories@[k as int].1@,
                ));
            }
            repositories.push((t.repositories[k].0.clone(), t.repositories[k].1.clone()));
            k = k + 1;
        }
        Ok(
            TourView {
                title: t.title.clone(),
                description: t.description.clone(),
                stops,
                repositories,
                edit,
            },
        )
    }

    /// Applies a partial update to the tour's own metadata: only fields
    /// present in `delta` overwrite the tour's fields.  Requires edit mode.
    pub fn edit_tour_metadata(&mut self, tour_id: TourId, delta: TourMetadata) -> (r: Result<
        (),
        ErrorKind,
    >)
        ensures
            final(self).edits_model() == old(self).edits_model(),
            !old(self).editable(tour_id@) ==> (match r {
                Err(e) => e == ErrorKind::TourNotEditable,
                _ => false,
            }) && final(self).tours_model() == old(self).tours_model(),
            (match r {
                Err(e) => e == ErrorKind::TourNotEditable,
                _ => false,
            }) ==> !old(self).editable(tour_id@),
            old(self).editable(tour_id@) ==> match r {
                Ok(()) => {
                    let dv = old(self).tours_model();
                    let i = tour_index_of(dv, tour_id@);
                    &&& i >= 0
                    &&& final(self).tours_model() == dv.update(
                        i,
                        TourModel {
                            title: match delta.title {
                                Some(s) => s@,
                                None => dv[i].title,
                            },
                            description: match delta.description {
                                Some(s) => s@,
                                None => dv[i].description,
                            },
                            ..dv[i]
                        },
                    )
                },
                Err(e) => e == ErrorKind::NoTourWithID && tour_index_of(
                    old(self).tours_model(),
                    tour_id@,
                ) == -1 && final(self).tours_model() == old(self).tours_model(),
            },
    {
        if !self.is_editable(&tour_id) {
            return Err(ErrorKind::TourNotEditable);
        }
        let ghost dv = self.tours_model();
        let i = match self.find_tour(&tour_id) {
            Some(i) => i,
            None => {
                return Err(ErrorKind::NoTourWithID);
            },
        };
        let mut t = self.tours[i].clone();
        proof {
            assert(t@ == dv[i as int]);
        }
        match delta.title {
            Some(s) => {
                t.title = s;
            },
            None => {},
        }
        match delta.description {
            Some(s) => {
                t.description = s;
            },
            None => {},
        }
        self.tours.set(i, t);
        proof {
            assert(self.tours_model() =~= dv.update(
                i as int,
                TourModel {
                    title: match delta.title {
                        Some(s) => s@,
                        None => dv[i as int].title,
                    },
                    description: match delta.description {
                        Some(s) => s@,
                        None => dv[i as int].description,
                    },
                    ..dv[i as int]
                },
            ));
        }
        Ok(())
    }

    /// Applies a partial update to a stop's metadata: only fields present in
    /// `delta` overwrite the stop's fields.  Requires edit mode.
    pub fn edit_stop_metadata(&mut self, tour_id: TourId, stop_id: StopId, delta: StopMetadata) -> (r:
        Result<(), ErrorKind>)
        ensures
            final(self).edits_model() == old(self).edits_model(),
            !old(self).editable(tour_id@) ==> (match r {
                Err(e) => e == ErrorKind::TourNotEditable,
                _ => false,
            }) && final(self).tours_model() == old(self).tours_model(),
            (match r {
                Err(e) => e == ErrorKind::TourNotEditable,
                _ => false,
            }) ==> !old(self).editable(tour_id@),
            old(self).editable(tour_id@) ==> match r {
                Ok(()) => {
                    let dv = old(self).tours_model();
                    let i = tour_index_of(dv, tour_id@);
                    let j = stop_index(dv[i].stops, stop_id@);
                    &&& i >= 0
                    &&& j >= 0
                    &&& final(self).tours_model() == dv.update(
                        i,
                        TourModel {
                            stops: dv[i].stops.update(
                                j,
                                StopModel {
                                    title: match delta.title {
                                        Some(s) => s@,
                                        None => dv[i].stops[j].title,
                                    },
                                    description: match delta.description {
                                        Some(s) => s@,
                                        None => dv[i].stops[j].description,
                                    },
                                    ..dv[i].stops[j]
                                },
                            ),
                            ..dv[i]
                        },
                    )
                },
                Err(e) => final(self).tours_model() == old(self).tours_model() && (e
                    == ErrorKind::NoTourWithID && tour_index_of(old(self).tours_model(), tour_id@)
                    == -1 || e == ErrorKind::NoStopWithID && tour_index_of(
                    old(self).tours_model(),
                    tour_id@,
                ) >= 0 && stop_index(
                    old(self).tours_model()[tour_index_of(old(self).tours_model(), tour_id@)].stops,
                    stop_id@,
                ) == -1),
            },
    {
        if !self.is_editable(&tour_id) {
            return Err(ErrorKind::TourNotEditable);
        }
        let ghost dv = self.tours_model();
        let i = match self.find_tour(&tour_id) {
            Some(i) => i,
            None => {
                return Err(ErrorKind::NoTourWithID);
            },
        };
        let mut t = self.tours[i].clone();
        proof {
            assert(t@ == dv[i as int]);
        }
        let j = match find_stop(&t.stops, &stop_id) {
            Some(j) => j,
            None => {
                return Err(ErrorKind::NoStopWithID);
            },
        };
        let ghost stopsdv = t.stops.deep_view();
        let mut s = t.stops[j].clone();
        proof {
            assert(s@ == stopsdv[j as int]);
        }
        match delta.title {
            Some(v) => {
                s.title = v;
            },
            None => {},
        }
        match delta.description {
            Some(v) => {
                s.description = v;
            },
            None => {},
        }
        t.stops.set(j, s);
        proof {
            assert(t.stops.deep_view() =~= stopsdv.update(
                j as int,
                StopModel {
                    title: match delta.title {
                        Some(v) => v@,
                        None => stopsdv[j as int].title,
                    },
                    description: match delta.description {
                        Some(v) => v@,
                        None => stopsdv[j as int].description,
                    },
                    ..stopsdv[j as int]
                },
            ));
        }
        self.tours.set(i, t);
        proof {
            assert(self.tours_model() =~= dv.update(
                i as int,
                TourModel {
                    stops: dv[i as int].stops.update(
                        stop_index(dv[i as int].stops, stop_id@),
                        StopModel {
                            title: match delta.title {
                                Some(v) => v@,
                                None => dv[i as int].stops[stop_index(
                                    dv[i as int].stops,
                                    stop_id@,
                                )].title,
                            },
                            description: match delta.description {
                                Some(v) => v@,
                                None => dv[i as int].stops[stop_index(
                                    dv[i as int].stops,
                                    stop_id@,
                                )].description,
                            },
                            ..dv[i as int].stops[stop_index(dv[i as int].stops, stop_id@)]
                        },
                    ),
                    ..dv[i as int]
                },
            ));
        }
        Ok(())
    }

    /// Appends to the stop a reference to another tour, or to a stop within
    /// it.  Requires edit mode.
    pub fn link_stop(
        &mut self,
        tour_id: TourId,
        stop_id: StopId,
        other_tour_id: TourId,
        other_stop_id: Option<StopId>,
    ) -> (r: Result<(), ErrorKind>)
        ensures
            final(self).edits_model() == old(self).edits_model(),
            !old(self).editable(tour_id@) ==> (match r {
                Err(e) => e == ErrorKind::TourNotEditable,
                _ => false,
            }) && final(self).tours_model() == old(self).tours_model(),
            (match r {
                Err(e) => e == ErrorKind::TourNotEditable,
                _ => false,
            }) ==> !old(self).editable(tour_id@),
            old(self).editable(tour_id@) ==> match r {
                Ok(()) => {
                    let dv = old(self).tours_model();
                    let i = tour_index_of(dv, tour_id@);
                    let j = stop_index(dv[i].stops, stop_id@);
                    let added = StopRefModel {
                        tour_id: other_tour_id@,
                        stop_id: match other_stop_id {
                            Some(s) => Some(s@),
                            None => None,
                        },
                    };
                    &&& i >= 0
                    &&& j >= 0
                    &&& final(self).tours_model() == dv.update(
                        i,
                        TourModel {
                            stops: dv[i].stops.update(
                                j,
                                StopModel {
                                    children: dv[i].stops[j].children.push(added),
                                    ..dv[i].stops[j]
                                },
                            ),
                            ..dv[i]
                        },
                    )
                },
                Err(e) => final(self).tours_model() == old(self).tours_model() && (e
                    == ErrorKind::NoTourWithID && tour_index_of(old(self).tours_model(), tour_id@)
                    == -1 || e == ErrorKind::NoStopWithID && tour_index_of(
                    old(self).tours_model(),
                    tour_id@,
                ) >= 0 && stop_index(
                    old(self).tours_model()[tour_index_of(old(self).tours_model(), tour_id@)].stops,
                    stop_id@,
                ) == -1),
            },
    {
        if !self.is_editable(&tour_id) {
            return Err(ErrorKind::TourNotEditable);
        }
        let ghost dv = self.tours_model();
        let i = match self.find_tour(&tour_id) {
            Some(i) => i,
            None => {
                return Err(ErrorKind::NoTourWithID);
            },
        };
        let mut t = self.tours[i].clone();
        proof {
            assert(t@ == dv[i as int]);
        }
        let j = match find_stop(&t.stops, &stop_id) {
            Some(j) => j,
            None => {
                return Err(ErrorKind::NoStopWithID);
            },
        };
        let ghost stopsdv = t.stops.deep_view();
        let mut s = t.stops[j].clone();
        proof {
            assert(s@ == stopsdv[j as int]);
        }
        let ghost childrendv = s.children.deep_view();
        let added = StopReference { tour_id: other_tour_id, stop_id: other_stop_id };
        let ghost addedm = added@;
        s.children.push(added);
        proof {
            assert(s.children.deep_view() =~= childrendv.push(addedm));
        }
        t.stops.set(j, s);
        proof {
            assert(t.stops.deep_view() =~= stopsdv.update(
                j as int,
                StopModel { children: childrendv.push(addedm), ..stopsdv[j as int] },
            ));
        }
        self.tours.set(i, t);
        proof {
            assert(self.tours_model() =~= dv.update(
                i as int,
                TourModel {
                    stops: dv[i as int].stops.update(
                        j as int,
                        StopModel {
                            children: dv[i as int].stops[j as int].children.push(addedm),
                            ..dv[i as int].stops[j as int]
                        },
                    ),
                    ..dv[i as int]
                },
            ));
        }
        Ok(())
    }

    /// Removes every reference of the stop that names exactly the given
    /// target: a `None` stop id only unlinks landing-page links.  Requires
    /// edit mode.
    pub fn unlink_stop(
        &mut self,
        tour_id: TourId,
        stop_id: StopId,
        other_tour_id: TourId,
        other_stop_id: Option<StopId>,
    ) -> (r: Result<(), ErrorKind>)
        ensures
            final(self).edits_model() == old(self).edits_model(),
            !old(self).editable(tour_id@) ==> (match r {
                Err(e) => e == ErrorKind::TourNotEditable,
                _ => false,
            }) && final(self).tours_model() == old(self).tours_model(),
            (match r {
                Err(e) => e == ErrorKind::TourNotEditable,
                _ => false,
            }) ==> !old(self).editable(tour_id@),
            old(self).editable(tour_id@) ==> match r {
                Ok(()) => {
                    let dv = old(self).tours_model();
                    let i = tour_index_of(dv, tour_id@);
                    let j = stop_index(dv[i].stops, stop_id@);
                    let sid = match other_stop_id {
                        Some(s) => Some(s@),
                        None => None,
                    };
                    &&& i >= 0
                    &&& j >= 0
                    &&& final(self).tours_model() == dv.update(
                        i,
                        TourModel {
                            stops: dv[i].stops.update(
                                j,
                                StopModel {
                                    children: refs_removed(
                                        dv[i].stops[j].children,
                                        other_tour_id@,
                                        sid,
                                    ),
                                    ..dv[i].stops[j]
                                },
                            ),
                            ..dv[i]
                        },
                    )
                },
                Err(e) => final(self).tours_model() == old(self).tours_model() && (e
                    == ErrorKind::NoTourWithID && tour_index_of(old(self).tours_model(), tour_id@)
                    == -1 || e == ErrorKind::NoStopWithID && tour_index_of(
                    old(self).tours_model(),
                    tour_id@,
                ) >= 0 && stop_index(
                    old(self).tours_model()[tour_index_of(old(self).tours_model(), tour_id@)].stops,
                    stop_id@,
                ) == -1),
            },
    {
        if !self.is_editable(&tour_id) {
            return Err(ErrorKind::TourNotEditable);
        }
        let ghost dv = self.tours_model();
        let i = match self.find_tour(&tour_id) {
            Some(i) => i,
            None => {
                return Err(ErrorKind::NoTourWithID);
            },
        };
        let mut t = self.tours[i].clone();
        proof {
            assert(t@ == dv[i as int]);
        }
        let j = match find_stop(&t.stops, &stop_id) {
            Some(j) => j,
            None => {
                return Err(ErrorKind::NoStopWithID);
            },
        };
        let ghost stopsdv = t.stops.deep_view();
        let mut s = t.stops[j].clone();
        proof {
            assert(s@ == stopsdv[j as int]);
        }
        let ghost childrendv = s.children.deep_view();
        let ghost sid = match other_stop_id {
            Some(ref s) => Some(s@),
            None => None,
        };
        let mut kept: Vec<StopReference> = Vec::new();
        let mut k: usize = 0;
        while k < s.children.len()
            invariant
                childrendv == s.children.deep_view(),
                childrendv.len() == s.children@.len(),
                0 <= k <= s.children@.len(),
                sid == (match other_stop_id {
                    Some(ref s) => Some(s@),
                    None => None,
                }),
                kept.deep_view() == refs_removed(childrendv.take(k as int), other_tour_id@, sid),
            decreases s.children@.len() - k,
        {
            proof {
                assert(childrendv[k as int] == s.children@[k as int]@);
                assert(childrendv.take(k + 1).drop_last() =~= childrendv.take(k as int));
                assert(childrendv.take(k + 1).last() == childrendv[k as int]);
            }
            let c = &s.children[k];
            let same_tour = strings_equal(&c.tour_id, &other_tour_id);
            let same_stop: bool = match (&c.stop_id, &other_stop_id) {
                (None, None) => true,
                (Some(a), Some(b)) => strings_equal(a, b),
                _ => false,
            };
            if !(same_tour && same_stop) {
                proof {
                    assert(!ref_matches(childrendv[k as int], other_tour_id@, sid));
                }
                let ghost keptdv = kept.deep_view();
                let cc = c.clone();
                kept.push(cc);
                proof {
                    assert(kept.deep_view() =~= keptdv.push(childrendv[k as int]));
                }
            } else {
                proof {
                    assert(ref_matches(childrendv[k as int], other_tour_id@, sid));
                }
            }
            k = k + 1;
        }
        proof {
            assert(childrendv.take(childrendv.len() as int) =~= childrendv);
        }
        s.children = kept;
        t.stops.set(j, s);
        proof {
            assert(t.stops.deep_view() =~= stopsdv.update(
                j as int,
                StopModel {
                    children: refs_removed(childrendv, other_tour_id@, sid),
                    ..stopsdv[j as int]
                },
            ));
        }
        self.tours.set(i, t);
        proof {
            assert(self.tours_model() =~= dv.update(
                i as int,
                TourModel {
                    stops: dv[i as int].stops.update(
                        j as int,
                        StopModel {
                            children: refs_removed(
                                dv[i as int].stops[j as int].children,
                                other_tour_id@,
                                sid,
                            ),
                            ..dv[i as int].stops[j as int]
                        },
                    ),
                    ..dv[i as int]
                },
            ));
        }
        Ok(())
    }

    /// Moves the stop by `position_delta` places: the target position is
    /// clamped to the ends of the list, and the stop is exchanged with the
    /// occupant of the target position by a single transposition.  Requires
    /// edit mode.
    pub fn reorder_stop(&mut self, tour_id: TourId, stop_id: StopId, position_delta: isize) -> (r:
        Result<(), ErrorKind>)
        ensures
            final(self).edits_model() == old(self).edits_model(),
            !old(self).editable(tour_id@) ==> (match r {
                Err(e) => e == ErrorKind::TourNotEditable,
                _ => false,
            }) && final(self).tours_model() == old(self).tours_model(),
            (match r {
                Err(e) => e == ErrorKind::TourNotEditable,
                _ => false,
            }) ==> !old(self).editable(tour_id@),
            old(self).editable(tour_id@) ==> match r {
                Ok(()) => {
                    let dv = old(self).tours_model();
                    let i = tour_index_of(dv, tour_id@);
                    let j = stop_index(dv[i].stops, stop_id@);
                    let tgt = clamp_spec(
                        j + position_delta,
                        0,
                        dv[i].stops.len() - 1,
                    );
                    &&& i >= 0
                    &&& j >= 0
                    &&& final(self).tours_model() == dv.update(
                        i,
                        TourModel {
                            stops: dv[i].stops.update(j, dv[i].stops[tgt]).update(
                                tgt,
                                dv[i].stops[j],
                            ),
                            ..dv[i]
                        },
                    )
                },
                Err(e) => final(self).tours_model() == old(self).tours_model() && (e
                    == ErrorKind::NoTourWithID && tour_index_of(old(self).tours_model(), tour_id@)
                    == -1 || e == ErrorKind::NoStopWithID && tour_index_of(
                    old(self).tours_model(),
                    tour_id@,
                ) >= 0 && stop_index(
                    old(self).tours_model()[tour_index_of(old(self).tours_model(), tour_id@)].stops,
                    stop_id@,
                ) == -1),
            },
    {
        if !self.is_editable(&tour_id) {
            return Err(ErrorKind::TourNotEditable);
        }
        let ghost dv = self.tours_model();
        let i = match self.find_tour(&tour_id) {
            Some(i) => i,
            None => {
                return Err(ErrorKind::NoTourWithID);
            },
        };
        let mut t = self.tours[i].clone();
        proof {
            assert(t@ == dv[i as int]);
        }
        let j = match find_stop(&t.stops, &stop_id) {
            Some(j) => j,
            None => {
                return Err(ErrorKind::NoStopWithID);
            },
        };
        let ghost stopsdv = t.stops.deep_view();
        let end: i128 = (t.stops.len() - 1) as i128;
        let want: i128 = (j as i128) + (position_delta as i128);
        let tgt_wide: i128 = if want < 0 {
            0
        } else if want > end {
            end
        } else {
            want
        };
        let tgt: usize = tgt_wide as usize;
        proof {
            assert(tgt as int == clamp_spec(
                j + position_delta,
                0,
                stopsdv.len() - 1,
            ));
        }
        let a = t.stops[j].clone();
        let b = t.stops[tgt].clone();
        t.stops.set(j, b);
        t.stops.set(tgt, a);
        proof {
            assert(t.stops.deep_view() =~= stopsdv.update(j as int, stopsdv[tgt as int]).update(
                tgt as int,
                stopsdv[j as int],
            ));
        }
        self.tours.set(i, t);
        proof {
            assert(self.tours_model() =~= dv.update(
                i as int,
                TourModel {
                    stops: dv[i as int].stops.update(
                        j as int,
                        dv[i as int].stops[clamp_spec(
                            j + position_delta,
                            0,
                            dv[i as int].stops.len() - 1,
                        )],
                    ).update(
                        clamp_spec(j + position_delta, 0, dv[i as int].stops.len() - 1),
                        dv[i as int].stops[j as int],
                    ),
                    ..dv[i as int]
                },
            ));
        }
        Ok(())
    }

    /// Whether every repository pinned by the tour is checked out at its
    /// pinned commit with a clean workspace.
    fn is_up_to_date(&self, tour_id: &String) -> (r: Result<bool, ErrorKind>)
        ensures
            r == Err::<bool, ErrorKind>(ErrorKind::NoTourWithID) <==> tour_index_of(
                self.tours_model(),
                tour_id@,
            ) == -1,
            r matches Err(e) ==> e == ErrorKind::NoTourWithID || e
                == ErrorKind::RepositoryNotInIndex || index_error(e) || vcs_error(e),
            r is Ok ==> tour_index_of(self.tours_model(), tour_id@) >= 0,
            tour_index_of(self.tours_model(), tour_id@) >= 0 && self.tours_model()[tour_index_of(
                self.tours_model(),
                tour_id@,
            )].repositories.len() == 0 ==> r == Ok::<bool, ErrorKind>(true),
    {
        let i = match self.find_tour(tour_id) {
            Some(i) => i,
            None => {
                return Err(ErrorKind::NoTourWithID);
            },
        };
        let t = &self.tours[i];
        proof {
            assert(self.tours_model()[i as int] == t@);
        }
        let mut k: usize = 0;
        while k < t.repositories.len()
            invariant
                tour_index_of(self.tours_model(), tour_id@) == i as int,
                0 <= i < self.tours@.len(),
                self.tours_model()[i as int].repositories.len() == t.repositories@.len(),
            decreases t.repositories@.len() - k,
        {
            let name = &t.repositories[k].0;
            let pinned = &t.repositories[k].1;
            let path = match self.index.get(name) {
                Ok(Some(p)) => p,
                Ok(None) => {
                    return Err(ErrorKind::RepositoryNotInIndex);
                },
                Err(e) => {
                    return Err(e);
                },
            };
            let curr = match self.vcs.get_current_version(&path) {
                Ok(v) => v,
                Err(e) => {
                    return Err(e);
                },
            };
            let dirty = match self.vcs.is_workspace_dirty(&path) {
                Ok(d) => d,
                Err(e) => {
                    return Err(e);
                },
            };
            if !strings_equal(&curr, pinned) || dirty {
                return Ok(false);
            }
            k = k + 1;
        }
        Ok(true)
    }

    /// Resolves an absolute path string against the indexed repositories:
    /// the relative remainder, the repository's name and its root.  The
    /// first registered root containing the path wins; `resolve_in_roots`
    /// states that choice exactly over a given listing.
    fn find_path_in_context(&self, path: String) -> (r: Result<
        (RelativePathBuf, String, AbsolutePathBuf),
        ErrorKind,
    >)
        ensures
            !absolute_shaped(path@) ==> r == Err::<
                (RelativePathBuf, String, AbsolutePathBuf),
                ErrorKind,
            >(ErrorKind::ExpectedAbsolutePath),
            r matches Err(e) ==> e == ErrorKind::ExpectedAbsolutePath && !absolute_shaped(path@)
                || e == ErrorKind::NoRepositoryForFile && absolute_shaped(path@) || index_error(e),
            r matches Ok(found) ==> absolute_shaped(path@) && found.2@.is_prefix_of(
                split_abs(path@),
            ) && found.0@ == split_abs(path@).skip(found.2@.len() as int),
    {
        let abs = match AbsolutePathBuf::new(path) {
            Some(a) => a,
            None => {
                return Err(ErrorKind::ExpectedAbsolutePath);
            },
        };
        let roots = match self.index.all() {
            Ok(r) => r,
            Err(e) => {
                return Err(e);
            },
        };
        match resolve_in_roots(&roots, &abs) {
            Some(found) => Ok(found),
            None => Err(ErrorKind::NoRepositoryForFile),
        }
    }

    /// Appends a new stop anchored at `line` of the file named by the
    /// absolute path `path`, and pins the containing repository at its
    /// current version.  Requires edit mode and an up-to-date tour.
    #[verifier::rlimit(100)]
    pub fn create_stop(&mut self, tour_id: TourId, title: String, path: String, line: usize) -> (r:
        Result<StopId, ErrorKind>)
        ensures
            final(self).edits_model() == old(self).edits_model(),
            !old(self).editable(tour_id@) ==> (match r {
                Err(e) => e == ErrorKind::TourNotEditable,
                _ => false,
            }),
            (match r {
                Err(e) => e == ErrorKind::TourNotEditable,
                _ => false,
            }) ==> !old(self).editable(tour_id@),
            r is Err ==> final(self).tours_model() == old(self).tours_model(),
            r is Ok ==> tour_index_of(old(self).tours_model(), tour_id@) >= 0,
            old(self).editable(tour_id@) ==> ((match r {
                Err(e) => e == ErrorKind::NoTourWithID,
                _ => false,
            }) <==> tour_index_of(old(self).tours_model(), tour_id@) == -1),
            (match r {
                Err(e) => e == ErrorKind::ExpectedAbsolutePath,
                _ => false,
            }) ==> !absolute_shaped(path@),
            (match r {
                Err(e) => e == ErrorKind::NoRepositoryForFile,
                _ => false,
            }) ==> absolute_shaped(path@),
            r matches Ok(id) ==> created_stop_outcome(
                old(self).tours_model(),
                final(self).tours_model(),
                tour_id@,
                id@,
                title@,
                path@,
                line,
            ),
            r is Ok ==> {
                let i = tour_index_of(old(self).tours_model(), tour_id@);
                old(self).tours_model()[i].repo_invariant() ==> final(self).tours_model()[i].repo_invariant()
            },
    {
        if !self.is_editable(&tour_id) {
            return Err(ErrorKind::TourNotEditable);
        }
        match self.is_up_to_date(&tour_id) {
            Ok(true) => {},
            Ok(false) => {
                return Err(ErrorKind::TourNotUpToDate);
            },
            Err(e) => {
                return Err(e);
            },
        }
        let id = fresh_id();
        let ghost pathm = path@;
        let (rel_path, repo, repo_path) = match self.find_path_in_context(path) {
            Ok(found) => found,
            Err(e) => {
                return Err(e);
            },
        };
        let ghost rootm = repo_path@;
        let ver = match self.vcs.get_current_version(&repo_path) {
            Ok(v) => v,
            Err(e) => {
                return Err(e);
            },
        };
        let ghost dv = self.tours_model();
        let i = match self.find_tour(&tour_id) {
            Some(i) => i,
            None => {
                return Err(ErrorKind::NoTourWithID);
            },
        };
        let mut t = self.tours[i].clone();
        proof {
            assert(t@ == dv[i as int]);
        }
        let ghost relm = rel_path@;
        let ghost repom = repo@;
        let ghost verm = ver@;
        let stop = Stop {
            id: id.clone(),
            title,
            description: String::new(),
            path: rel_path,
            repository: repo.clone(),
            line,
            children: Vec::new(),
            broken: None,
        };
        let ghost stopm = stop@;
        proof {
            assert(stopm.children =~= Seq::<StopRefModel>::empty());
        }
        let ghost stopsdv = t.stops.deep_view();
        t.stops.push(stop);
        proof {
            assert(t.stops.deep_view() =~= stopsdv.push(stopm));
        }
        pin_repo(&mut t.repositories, repo, ver);
        self.tours.set(i, t);
        proof {
            let newtour = with_new_stop(
                dv[i as int],
                id@,
                title@,
                line,
                relm,
                repom,
                verm,
            );
            assert(self.tours_model() =~= dv.update(i as int, newtour));
            assert(self.tours_model()[i as int] == newtour);
            // invariant preservation: the new stop's repository is pinned,
            // and no pin loses the stop that references it
            if dv[i as int].repo_invariant() {
                lemma_new_stop_invariant(dv[i as int], id@, title@, line, relm, repom, verm);
            }
            let idx = tour_index_of(dv, tour_id@);
            assert(idx == i as int);
            assert(created_stop_outcome(
                dv,
                self.tours_model(),
                tour_id@,
                id@,
                title@,
                pathm,
                line,
            )) by {
                assert(rootm.is_prefix_of(split_abs(pathm)));
                assert(relm == split_abs(pathm).skip(rootm.len() as int));
                assert(self.tours_model() == dv.update(
                    idx,
                    with_new_stop(
                        dv[idx],
                        id@,
                        title@,
                        line,
                        split_abs(pathm).skip(rootm.len() as int),
                        repom,
                        verm,
                    ),
                ));
            };
        }
        Ok(id)
    }

    /// Re-anchors the stop at `line` of the file named by the absolute path
    /// `path`, pinning the containing repository at its current version
    /// before the stop itself is touched, so that a failure partway through
    /// never leaves the tour half-updated.  Requires edit mode and an
    /// up-to-date tour; clears the broken mark on success.
    pub fn move_stop(&mut self, tour_id: TourId, stop_id: StopId, path: String, line: usize) -> (r:
        Result<(), ErrorKind>)
        ensures
            final(self).edits_model() == old(self).edits_model(),
            !old(self).editable(tour_id@) ==> (match r {
                Err(e) => e == ErrorKind::TourNotEditable,
                _ => false,
            }),
            (match r {
                Err(e) => e == ErrorKind::TourNotEditable,
                _ => false,
            }) ==> !old(self).editable(tour_id@),
            r is Err ==> final(self).tours_model() == old(self).tours_model(),
            r is Ok ==> tour_index_of(old(self).tours_model(), tour_id@) >= 0 && stop_index(
                old(self).tours_model()[tour_index_of(old(self).tours_model(), tour_id@)].stops,
                stop_id@,
            ) >= 0,
            old(self).editable(tour_id@) ==> ((match r {
                Err(e) => e == ErrorKind::NoTourWithID,
                _ => false,
            }) <==> tour_index_of(old(self).tours_model(), tour_id@) == -1),
            (match r {
                Err(e) => e == ErrorKind::ExpectedAbsolutePath,
                _ => false,
            }) ==> !absolute_shaped(path@),
            (match r {
                Err(e) => e == ErrorKind::NoRepositoryForFile,
                _ => false,
            }) ==> absolute_shaped(path@),
            r is Ok ==> moved_stop_outcome(
                old(self).tours_model(),
                final(self).tours_model(),
                tour_id@,
                stop_id@,
                path@,
                line,
            ),
    {
        if !self.is_editable(&tour_id) {
            return Err(ErrorKind::TourNotEditable);
        }
        match self.is_up_to_date(&tour_id) {
            Ok(true) => {},
            Ok(false) => {
                return Err(ErrorKind::TourNotUpToDate);
            },
            Err(e) => {
                return Err(e);
            },
        }
        let ghost pathm = path@;
        let (rel_path, repo, repo_path) = match self.find_path_in_context(path) {
            Ok(found) => found,
            Err(e) => {
                return Err(e);
            },
        };
        let ghost rootm = repo_path@;
        let ghost dv = self.tours_model();
        let i = match self.find_tour(&tour_id) {
            Some(i) => i,
            None => {
                return Err(ErrorKind::NoTourWithID);
            },
        };
        // validate everything before the first mutation
        let j = match find_stop(&self.tours[i].stops, &stop_id) {
            Some(j) => j,
            None => {
                return Err(ErrorKind::NoStopWithID);
            },
        };
        let ver = match self.vcs.get_current_version(&repo_path) {
            Ok(v) => v,
            Err(e) => {
                return Err(e);
            },
        };
        let mut t = self.tours[i].clone();
        proof {
            assert(t@ == dv[i as int]);
        }
        let ghost relm = rel_path@;
        let ghost repom = repo@;
        let ghost verm = ver@;
        pin_repo(&mut t.repositories, repo, ver);
        let ghost stopsdv = dv[i as int].stops;
        let mut s = t.stops[j].clone();
        proof {
            assert(s@ == stopsdv[j as int]);
        }
        s.path = rel_path;
        s.line = line;
        s.broken = None;
        t.stops.set(j, s);
        proof {
            assert(t.stops.deep_view() =~= stopsdv.update(
                j as int,
                StopModel { path: relm, line: line, broken: None, ..stopsdv[j as int] },
            ));
        }
        self.tours.set(i, t);
        proof {
            assert(self.tours_model() =~= dv.update(
                i as int,
                with_moved_stop(dv[i as int], j as int, line, relm, repom, verm),
            ));
            let idx = tour_index_of(dv, tour_id@);
            assert(idx == i as int);
            assert(stop_index(dv[idx].stops, stop_id@) == j as int);
            assert(moved_stop_outcome(
                dv,
                self.tours_model(),
                tour_id@,
                stop_id@,
                pathm,
                line,
            )) by {
                assert(rootm.is_prefix_of(split_abs(pathm)));
                assert(relm == split_abs(pathm).skip(rootm.len() as int));
                assert(self.tours_model() == dv.update(
                    idx,
                    with_moved_stop(
                        dv[idx],
                        stop_index(dv[idx].stops, stop_id@),
                        line,
                        split_abs(pathm).skip(rootm.len() as int),
                        repom,
                        verm,
                    ),
                ));
            };
        }
        Ok(())
    }

    /// Removes every stop with the given identifier, then prunes the pins to
    /// the repositories the remaining stops still reference.  Requires edit
    /// mode.
    #[verifier::rlimit(80)]
    pub fn remove_stop(&mut self, tour_id: TourId, stop_id: StopId) -> (r: Result<(), ErrorKind>)
        ensures
            final(self).edits_model() == old(self).edits_model(),
            !old(self).editable(tour_id@) ==> (match r {
                Err(e) => e == ErrorKind::TourNotEditable,
                _ => false,
            }),
            (match r {
                Err(e) => e == ErrorKind::TourNotEditable,
                _ => false,
            }) ==> !old(self).editable(tour_id@),
            r is Err ==> final(self).tours_model() == old(self).tours_model(),
            old(self).editable(tour_id@) ==> match r {
                Ok(()) => {
                    let dv = old(self).tours_model();
                    let i = tour_index_of(dv, tour_id@);
                    let kept = stops_removed(dv[i].stops, stop_id@);
                    &&& i >= 0
                    &&& stop_index(dv[i].stops, stop_id@) >= 0
                    &&& final(self).tours_model() == dv.update(
                        i,
                        TourModel {
                            stops: kept,
                            repositories: pins_pruned(dv[i].repositories, kept),
                            ..dv[i]
                        },
                    )
                },
                Err(e) => e == ErrorKind::NoTourWithID && tour_index_of(
                    old(self).tours_model(),
                    tour_id@,
                ) == -1 || e == ErrorKind::NoStopWithID && tour_index_of(
                    old(self).tours_model(),
                    tour_id@,
                ) >= 0 && stop_index(
                    old(self).tours_model()[tour_index_of(old(self).tours_model(), tour_id@)].stops,
                    stop_id@,
                ) == -1,
            },
            r is Ok ==> {
                let i = tour_index_of(old(self).tours_model(), tour_id@);
                old(self).tours_model()[i].repo_invariant() ==> final(self).tours_model()[i].repo_invariant()
            },
    {
        if !self.is_editable(&tour_id) {
            return Err(ErrorKind::TourNotEditable);
        }
        let ghost dv = self.tours_model();
        let i = match self.find_tour(&tour_id) {
            Some(i) => i,
            None => {
                return Err(ErrorKind::NoTourWithID);
            },
        };
        let mut t = self.tours[i].clone();
        proof {
            assert(t@ == dv[i as int]);
        }
        match find_stop(&t.stops, &stop_id) {
            Some(_) => {},
            None => {
                return Err(ErrorKind::NoStopWithID);
            },
        }
        let ghost stopsdv = t.stops.deep_view();
        let mut kept: Vec<Stop> = Vec::new();
        let mut k: usize = 0;
        while k < t.stops.len()
            invariant
                stopsdv == t.stops.deep_view(),
                stopsdv.len() == t.stops@.len(),
                0 <= k <= t.stops@.len(),
                kept.deep_view() == stops_removed(stopsdv.take(k as int), stop_id@),
            decreases t.stops@.len() - k,
        {
            proof {
                assert(stopsdv[k as int] == t.stops@[k as int]@);
                assert(stopsdv.take(k + 1).drop_last() =~= stopsdv.take(k as int));
                assert(stopsdv.take(k + 1).last() == stopsdv[k as int]);
            }
            if !strings_equal(&t.stops[k].id, &stop_id) {
                let ghost keptdv = kept.deep_view();
                let c = t.stops[k].clone();
                kept.push(c);
                proof {
                    assert(kept.deep_view() =~= keptdv.push(stopsdv[k as int]));
                }
            }
            k = k + 1;
        }
        proof {
            assert(stopsdv.take(stopsdv.len() as int) =~= stopsdv);
        }
        let ghost keptm = stops_removed(stopsdv, stop_id@);
        // prune the pins to the repositories still referenced
        let ghost reposdv = dv[i as int].repositories;
        let mut pins: Vec<(String, String)> = Vec::new();
        proof {
            assert(crate::types::repos_model_of(pins@) =~= Seq::<(Seq<char>, Seq<char>)>::empty());
            assert(reposdv.skip(0) =~= reposdv);
            assert(crate::types::repos_model_of(pins@) + pins_pruned(reposdv.skip(0), keptm)
                =~= pins_pruned(reposdv, keptm));
        }
        let mut k: usize = 0;
        while k < t.repositories.len()
            invariant
                reposdv == crate::types::repos_model_of(t.repositories@),
                reposdv.len() == t.repositories@.len(),
                0 <= k <= t.repositories@.len(),
                keptm == kept.deep_view(),
                crate::types::repos_model_of(pins@) + pins_pruned(
                    reposdv.skip(k as int),
                    keptm,
                ) =~= pins_pruned(reposdv, keptm),
            decreases t.repositories@.len() - k,
        {
            proof {
                assert(reposdv[k as int] == (t.repositories@[k as int].0@, t.repositories@[k as int].1@));
                let rest = reposdv.skip(k as int);
                assert(rest.first() == reposdv[k as int]);
                assert(rest.drop_first() =~= reposdv.skip(k + 1));
            }
            if stops_reference_exec(&kept, &t.repositories[k].0) {
                let ghost pinsm = crate::types::repos_model_of(pins@);
                pins.push((t.repositories[k].0.clone(), t.repositories[k].1.clone()));
                proof {
                    assert(crate::types::repos_model_of(pins@) =~= pinsm.push(reposdv[k as int]));
                    assert(pinsm.push(reposdv[k as int]) + pins_pruned(reposdv.skip(k + 1), keptm)
                        =~= pinsm + (seq![reposdv[k as int]] + pins_pruned(
                        reposdv.skip(k + 1),
                        keptm,
                    )));
                }
            }
            k = k + 1;
        }
        proof {
            assert(reposdv.skip(reposdv.len() as int) =~= Seq::<(Seq<char>, Seq<char>)>::empty());
            assert(crate::types::repos_model_of(pins@) + pins_pruned(
                reposdv.skip(reposdv.len() as int),
                keptm,
            ) =~= crate::types::repos_model_of(pins@));
        }
        t.stops = kept;
        t.repositories = pins;
        self.tours.set(i, t);
        proof {
            let newtour = TourModel {
                stops: keptm,
                repositories: pins_pruned(reposdv, keptm),
                ..dv[i as int]
            };
            assert(self.tours_model() =~= dv.update(i as int, newtour));
            if dv[i as int].repo_invariant() {
                lemma_remove_stop_invariant(dv[i as int], stop_id@);
            }
        }
        Ok(())
    }

    /// Registers the repository under `repo_name` (a provided path must be
    /// absolute), or unregisters it when no path is given.
    pub fn index_repository(&mut self, repo_name: String, path: Option<String>) -> (r: Result<
        (),
        ErrorKind,
    >)
        ensures
            final(self).tours_model() == old(self).tours_model(),
            final(self).edits_model() == old(self).edits_model(),
            match path {
                Some(p) => !(p@.len() > 0 && p@[0] == '/') ==> (match r {
                    Err(e) => e == ErrorKind::ExpectedAbsolutePath,
                    _ => false,
                }),
                None => true,
            },
    {
        match path {
            Some(p) => {
                match AbsolutePathBuf::new(p) {
                    Some(abs) => self.index.set(&repo_name, &abs),
                    None => Err(ErrorKind::ExpectedAbsolutePath),
                }
            },
            None => self.index.unset(&repo_name),
        }
    }

    /// Writes the tour to its assigned path, first assigning `path` when one
    /// is given.  Requires edit mode.
    pub fn save_tour(&mut self, tour_id: TourId, path: Option<String>) -> (r: Result<(), ErrorKind>)
        ensures
            final(self).tours_model() == old(self).tours_model(),
            final(self).edits_model() == old(self).edits_model(),
            !old(self).editable(tour_id@) ==> (match r {
                Err(e) => e == ErrorKind::TourNotEditable,
                _ => false,
            }),
            (match r {
                Err(e) => e == ErrorKind::TourNotEditable,
                _ => false,
            }) ==> !old(self).editable(tour_id@),
            old(self).editable(tour_id@) ==> (r == Err::<(), ErrorKind>(ErrorKind::NoTourWithID)
                <==> tour_index_of(old(self).tours_model(), tour_id@) == -1),
            r matches Err(e) ==> e == ErrorKind::TourNotEditable || e == ErrorKind::NoTourWithID
                || persistence_error(e),
    {
        if !self.is_editable(&tour_id) {
            return Err(ErrorKind::TourNotEditable);
        }
        match path {
            Some(p) => {
                self.manager.set_tour_path(tour_id.clone(), p);
            },
            None => {},
        }
        let i = match self.find_tour(&tour_id) {
            Some(i) => i,
            None => {
                return Err(ErrorKind::NoTourWithID);
            },
        };
        self.manager.save_tour(&self.tours[i])
    }

    /// Writes every open tour to its assigned path.
    pub fn save_all(&mut self) -> (r: Result<(), ErrorKind>)
        ensures
            final(self).tours_model() == old(self).tours_model(),
            final(self).edits_model() == old(self).edits_model(),
    {
        let mut i: usize = 0;
        while i < self.tours.len()
            invariant
                self.tours_model() == old(self).tours_model(),
                self.edits_model() == old(self).edits_model(),
                0 <= i <= self.tours@.len(),
            decreases self.tours@.len() - i,
        {
            match self.manager.save_tour(&self.tours[i]) {
                Ok(()) => {},
                Err(e) => {
                    return Err(e);
                },
            }
            i = i + 1;
        }
        Ok(())
    }

    /// Drops the tour from the session and deletes its saved form.  Requires
    /// edit mode.
    pub fn delete_tour(&mut self, tour_id: TourId) -> (r: Result<(), ErrorKind>)
        ensures
            final(self).edits_model() == old(self).edits_model(),
            !old(self).editable(tour_id@) ==> (match r {
                Err(e) => e == ErrorKind::TourNotEditable,
                _ => false,
            }) && final(self).tours_model() == old(self).tours_model(),
            (match r {
                Err(e) => e == ErrorKind::TourNotEditable,
                _ => false,
            }) ==> !old(self).editable(tour_id@),
            old(self).editable(tour_id@) ==> match r {
                Ok(()) => tour_index_of(old(self).tours_model(), tour_id@) >= 0 && final(self).tours_model() == old(self).tours_model().remove(
                    tour_index_of(old(self).tours_model(), tour_id@),
                ),
                Err(e) => (e == ErrorKind::NoTourWithID && tour_index_of(
                    old(self).tours_model(),
                    tour_id@,
                ) == -1 && final(self).tours_model() == old(self).tours_model()) || (
                persistence_error(e) && tour_index_of(old(self).tours_model(), tour_id@) >= 0
                    && final(self).tours_model() == old(self).tours_model().remove(
                    tour_index_of(old(self).tours_model(), tour_id@),
                )),
            },
    {
        if !self.is_editable(&tour_id) {
            return Err(ErrorKind::TourNotEditable);
        }
        match self.forget_tour(tour_id.clone()) {
            Ok(()) => {},
            Err(e) => {
                return Err(e);
            },
        }
        self.manager.delete_tour(&tour_id)
    }

    /// Re-anchors every stop of the tour against the diff from each pinned
    /// commit to `target` (or to the repository's current version when
    /// `target` is absent), then pins every repository at that target.  A
    /// failure partway through leaves the session unchanged.  Requires edit
    /// mode.
    pub fn refresh_tour(&mut self, tour_id: TourId, target: Option<String>) -> (r: Result<
        (),
        ErrorKind,
    >)
        ensures
            final(self).edits_model() == old(self).edits_model(),
            !old(self).editable(tour_id@) ==> (match r {
                Err(e) => e == ErrorKind::TourNotEditable,
                _ => false,
            }),
            (match r {
                Err(e) => e == ErrorKind::TourNotEditable,
                _ => false,
            }) ==> !old(self).editable(tour_id@),
            r is Err ==> final(self).tours_model() == old(self).tours_model(),
            old(self).editable(tour_id@) ==> (r == Err::<(), ErrorKind>(ErrorKind::NoTourWithID)
                <==> tour_index_of(old(self).tours_model(), tour_id@) == -1),
            old(self).editable(tour_id@) && tour_index_of(old(self).tours_model(), tour_id@) >= 0
                && old(self).tours_model()[tour_index_of(
                old(self).tours_model(),
                tour_id@,
            )].repositories.len() == 0 ==> r is Ok,
            r matches Err(e) ==> e == ErrorKind::TourNotEditable || e == ErrorKind::NoTourWithID
                || e == ErrorKind::RepositoryNotInIndex || index_error(e) || vcs_error(e),
            r is Ok ==> {
                let dv = old(self).tours_model();
                let i = tour_index_of(dv, tour_id@);
                let oldt = dv[i];
                let newt = final(self).tours_model()[i];
                &&& i >= 0
                &&& final(self).tours_model().len() == dv.len()
                &&& (forall|k: int| 0 <= k < dv.len() && k != i ==> final(self).tours_model()[k] == dv[k])
                &&& newt == (TourModel {
                    stops: newt.stops,
                    repositories: newt.repositories,
                    ..oldt
                })
                &&& newt.stops.len() == oldt.stops.len()
                &&& (forall|k: int|
                    0 <= k < oldt.stops.len() ==> #[trigger] newt.stops[k] == (StopModel {
                        line: newt.stops[k].line,
                        broken: newt.stops[k].broken,
                        ..oldt.stops[k]
                    }))
                &&& newt.repositories.len() == oldt.repositories.len()
                &&& (forall|k: int|
                    0 <= k < oldt.repositories.len() ==> (#[trigger] newt.repositories[k]).0
                        == oldt.repositories[k].0)
                &&& (target matches Some(c) ==> forall|k: int|
                    0 <= k < newt.repositories.len() ==> (#[trigger] newt.repositories[k]).1 == c@)
            },
    {
        if !self.is_editable(&tour_id) {
            return Err(ErrorKind::TourNotEditable);
        }
        let ghost dv = self.tours_model();
        let i = match self.find_tour(&tour_id) {
            Some(i) => i,
            None => {
                return Err(ErrorKind::NoTourWithID);
            },
        };
        let mut t = self.tours[i].clone();
        let ghost tm = dv[i as int];
        proof {
            assert(t@ == tm);
        }
        let mut k: usize = 0;
        while k < t.repositories.len()
            invariant
                self.tours_model() == old(self).tours_model(),
                self.edits_model() == old(self).edits_model(),
                old(self).editable(tour_id@),
                dv == old(self).tours_model(),
                tm == dv[i as int],
                0 <= i < dv.len(),
                i < self.tours@.len(),
                tour_index_of(dv, tour_id@) == i as int,
                0 <= k <= t.repositories@.len(),
                t@ == (TourModel { stops: t@.stops, repositories: t@.repositories, ..tm }),
                t@.repositories.len() == tm.repositories.len(),
                t.repositories@.len() == tm.repositories.len(),
                t@.stops.len() == tm.stops.len(),
                forall|m: int|
                    0 <= m < tm.stops.len() ==> #[trigger] t@.stops[m] == (StopModel {
                        line: t@.stops[m].line,
                        broken: t@.stops[m].broken,
                        ..tm.stops[m]
                    }),
                forall|m: int|
                    0 <= m < tm.repositories.len() ==> (#[trigger] t@.repositories[m]).0
                        == tm.repositories[m].0,
                forall|m: int|
                    k <= m < tm.repositories.len() ==> #[trigger] t@.repositories[m]
                        == tm.repositories[m],
                target matches Some(c) ==> forall|m: int|
                    0 <= m < k ==> (#[trigger] t@.repositories[m]).1 == c@,
            decreases t.repositories@.len() - k,
        {
            let ghost before = t@;
            proof {
                assert(t@.repositories[k as int] == (
                    t.repositories@[k as int].0@,
                    t.repositories@[k as int].1@,
                ));
                assert(t@.repositories[k as int] == tm.repositories[k as int]);
            }
            let name = t.repositories[k].0.clone();
            let pinned = t.repositories[k].1.clone();
            let path = match self.index.get(&name) {
                Ok(Some(p)) => p,
                Ok(None) => {
                    return Err(ErrorKind::RepositoryNotInIndex);
                },
                Err(e) => {
                    return Err(e);
                },
            };
            let version: String = match &target {
                Some(c) => c.clone(),
                None => {
                    match self.vcs.get_current_version(&path) {
                        Ok(v) => v,
                        Err(e) => {
                            return Err(e);
                        },
                    }
                },
            };
            let changes = match self.vcs.diff_with_version(&path, &pinned, &version) {
                Ok(c) => c,
                Err(e) => {
                    return Err(e);
                },
            };
            refresh_stops(&mut t.stops, &name, &changes);
            proof {
                assert forall|m: int| 0 <= m < tm.stops.len() implies #[trigger] t@.stops[m]
                    == (StopModel {
                    line: t@.stops[m].line,
                    broken: t@.stops[m].broken,
                    ..tm.stops[m]
                }) by {
                    assert(t@.stops[m] == refreshed_stop(before.stops[m], changes@, name@));
                };
            }
            let ghost mid = crate::types::repos_model_of(t.repositories@);
            t.repositories.set(k, (name, version));
            proof {
                assert(crate::types::repos_model_of(t.repositories@) =~= mid.update(
                    k as int,
                    (name@, version@),
                ));
                assert(name@ == tm.repositories[k as int].0);
                if target is Some {
                    assert(version@ == target->0@);
                }
            }
            k = k + 1;
        }
        self.tours.set(i, t);
        proof {
            assert(self.tours_model() =~= dv.update(i as int, t@));
            assert(self.tours_model()[i as int] == t@);
            assert(forall|m: int|
                0 <= m < dv.len() && m != i as int ==> #[trigger] self.tours_model()[m] == dv[m]);
        }
        Ok(())
    }

    /// Where the stop is found on disk right now: `None` for a broken stop;
    /// the stored position under `naive`; otherwise the position adjusted by
    /// the diff from the pinned commit to the live working tree.
    pub fn locate_stop(&self, tour_id: TourId, stop_id: StopId, naive: bool) -> (r: Result<
        Option<(AbsolutePathBuf, usize)>,
        ErrorKind,
    >)
        ensures
            (match r {
                Err(e) => e == ErrorKind::NoTourWithID,
                _ => false,
            }) <==> tour_index_of(self.tours_model(), tour_id@) == -1,
            tour_index_of(self.tours_model(), tour_id@) >= 0 ==> ((match r {
                Err(e) => e == ErrorKind::NoStopWithID,
                _ => false,
            }) <==> stop_index(
                self.tours_model()[tour_index_of(self.tours_model(), tour_id@)].stops,
                stop_id@,
            ) == -1),
            r matches Err(e) ==> e == ErrorKind::NoTourWithID || e == ErrorKind::NoStopWithID || e
                == ErrorKind::RepositoryNotInIndex || e == ErrorKind::NoVersionForRepository
                || index_error(e) || vcs_error(e),
            match r {
                Ok(found) => {
                    let i = tour_index_of(self.tours_model(), tour_id@);
                    let j = stop_index(self.tours_model()[i].stops, stop_id@);
                    &&& i >= 0
                    &&& j >= 0
                    &&& {
                        let s = self.tours_model()[i].stops[j];
                        match found {
                            Some(loc) => s.broken is None && (exists|root: Seq<Seq<char>>|
                                #![auto]
                                loc.0@ == root + s.path) && (naive ==> loc.1 == s.line),
                            None => s.broken is Some || !naive,
                        }
                    }
                },
                Err(_) => true,
            },
    {
        let i = match self.find_tour(&tour_id) {
            Some(i) => i,
            None => {
                return Err(ErrorKind::NoTourWithID);
            },
        };
        proof {
            assert(self.tours_model()[i as int].stops == self.tours@[i as int]@.stops);
        }
        let j = match find_stop(&self.tours[i].stops, &stop_id) {
            Some(j) => j,
            None => {
                return Err(ErrorKind::NoStopWithID);
            },
        };
        let stop = &self.tours[i].stops[j];
        proof {
            assert(stop@ == self.tours_model()[i as int].stops[j as int]);
        }
        let path = match self.index.get(&stop.repository) {
            Ok(Some(p)) => p,
            Ok(None) => {
                return Err(ErrorKind::RepositoryNotInIndex);
            },
            Err(e) => {
                return Err(e);
            },
        };
        match &stop.broken {
            Some(_) => {
                return Ok(None);
            },
            None => {},
        }
        if naive {
            let loc = path.join_rel(&stop.path);
            proof {
                assert(exists|root: Seq<Seq<char>>| #![auto] loc@ == root + stop@.path) by {
                    assert(loc@ == path@ + stop@.path);
                };
            }
            return Ok(Some((loc, stop.line)));
        }
        let version = match find_repo(&self.tours[i].repositories, &stop.repository) {
            Some(k) => self.tours[i].repositories[k].1.clone(),
            None => {
                return Err(ErrorKind::NoVersionForRepository);
            },
        };
        let changes = match self.vcs.diff_with_worktree(&path, &version) {
            Ok(c) => c,
            Err(e) => {
                return Err(e);
            },
        };
        match adjusted_location(stop, &changes) {
            Some(l) => {
                let loc = path.join_rel(&stop.path);
                proof {
                    assert(exists|root: Seq<Seq<char>>| #![auto] loc@ == root + stop@.path) by {
                        assert(loc@ == path@ + stop@.path);
                    };
                }
                Ok(Some((loc, l)))
            },
            None => Ok(None),
        }
    }

    /// A read-only view of one stop, its references resolved against the
    /// tours currently open: references into open tours carry titles, and
    /// fail when the referenced stop id does not exist there; references
    /// into tours that are not open carry only the raw identifiers.
    pub fn view_stop(&self, tour_id: TourId, stop_id: StopId) -> (r: Result<StopView, ErrorKind>)
        ensures
            match r {
                Ok(v) => {
                    let i = tour_index_of(self.tours_model(), tour_id@);
                    let j = stop_index(self.tours_model()[i].stops, stop_id@);
                    let s = self.tours_model()[i].stops[j];
                    &&& i >= 0
                    &&& j >= 0
                    &&& v.title@ == s.title
                    &&& v.description@ == s.description
                    &&& v.repository@ == s.repository
                    &&& v.children.deep_view().len() == s.children.len()
                    &&& (forall|k: int|
                        0 <= k < s.children.len() ==> resolve_ref(self.tours_model(), s.children[k])
                            == Some(#[trigger] v.children.deep_view()[k]))
                },
                Err(e) => {
                    let i = tour_index_of(self.tours_model(), tour_id@);
                    ||| (e == ErrorKind::NoTourWithID && i == -1)
                    ||| (e == ErrorKind::NoStopWithID && i >= 0 && {
                        let j = stop_index(self.tours_model()[i].stops, stop_id@);
                        j == -1 || (exists|k: int|
                            #![auto]
                            0 <= k < self.tours_model()[i].stops[j].children.len() && resolve_ref(
                                self.tours_model(),
                                self.tours_model()[i].stops[j].children[k],
                            ) is None)
                    })
                },
            },
    {
        let i = match self.find_tour(&tour_id) {
            Some(i) => i,
            None => {
                return Err(ErrorKind::NoTourWithID);
            },
        };
        proof {
            assert(self.tours_model()[i as int].stops == self.tours@[i as int]@.stops);
        }
        let j = match find_stop(&self.tours[i].stops, &stop_id) {
            Some(j) => j,
            None => {
                return Err(ErrorKind::NoStopWithID);
            },
        };
        let stop = &self.tours[i].stops[j];
        let ghost sm = self.tours_model()[i as int].stops[j as int];
        proof {
            assert(stop@ == sm);
        }
        let mut children: Vec<StopReferenceView> = Vec::new();
        let mut k: usize = 0;
        while k < stop.children.len()
            invariant
                tour_index_of(self.tours_model(), tour_id@) == i as int,
                0 <= i < self.tours@.len(),
                stop_index(self.tours_model()[i as int].stops, stop_id@) == j as int,
                0 <= (j as int) < self.tours_model()[i as int].stops.len(),
                sm == self.tours_model()[i as int].stops[j as int],
                sm == stop@,
                sm.children.len() == stop.children@.len(),
                0 <= k <= stop.children@.len(),
                children.deep_view().len() == k,
                forall|m: int|
                    0 <= m < k ==> resolve_ref(self.tours_model(), sm.children[m]) == Some(
                        #[trigger] children.deep_view()[m],
                    ),
            decreases stop.children@.len() - k,
        {
            proof {
                assert(sm.children[k as int] == stop.children@[k as int]@);
            }
            let c = &stop.children[k];
            let ghost cm = sm.children[k as int];
            let ghost childrendv = children.deep_view();
            let view: StopReferenceView = match self.find_tour(&c.tour_id) {
                None => {
                    StopReferenceView::Unresolved {
                        tour_id: c.tour_id.clone(),
                        stop_id: clone_opt_string(&c.stop_id),
                    }
                },
                Some(ti) => {
                    match &c.stop_id {
                        None => {
                            StopReferenceView::Resolved {
                                tour_id: c.tour_id.clone(),
                                tour_title: self.tours[ti].title.clone(),
                                stop_id: None,
                                stop_title: None,
                            }
                        },
                        Some(osid) => {
                            match find_stop(&self.tours[ti].stops, osid) {
                                Some(si) => {
                                    proof {
                                        assert(self.tours_model()[ti as int].stops[si as int]
                                            == self.tours@[ti as int]@.stops[si as int]);
                                    }
                                    StopReferenceView::Resolved {
                                        tour_id: c.tour_id.clone(),
                                        tour_title: self.tours[ti].title.clone(),
                                        stop_id: Some(osid.clone()),
                                        stop_title: Some(
                                            self.tours[ti].stops[si].title.clone(),
                                        ),
                                    }
                                },
                                None => {
                                    proof {
                                        assert(resolve_ref(self.tours_model(), cm) is None);
                                        assert(exists|m: int|
                                            #![auto]
                                            0 <= m < sm.children.len() && resolve_ref(
                                                self.tours_model(),
                                                sm.children[m],
                                            ) is None) by {
                                            assert(resolve_ref(
                                                self.tours_model(),
                                                sm.children[k as int],
                                            ) is None);
                                        };
                                    }
                                    return Err(ErrorKind::NoStopWithID);
                                },
                            }
                        },
                    }
                },
            };
            proof {
                assert(resolve_ref(self.tours_model(), cm) == Some(view@));
            }
            children.push(view);
            proof {
                assert(children.deep_view() =~= childrendv.push(
                    resolve_ref(self.tours_model(), cm)->0,
                ));
            }
            k = k + 1;
        }
        Ok(
            StopView {
                title: stop.title.clone(),
                description: stop.description.clone(),
                repository: stop.repository.clone(),
                children,
            },
        )
    }

    /// Checks out, in every repository the tour pins, the pinned commit.
    pub fn checkout_for_tour(&self, tour_id: TourId) -> (r: Result<(), ErrorKind>)
        ensures
            tour_index_of(self.tours_model(), tour_id@) == -1 ==> r == Err::<(), ErrorKind>(
                ErrorKind::NoTourWithID,
            ),
    {
        let i = match self.find_tour(&tour_id) {
            Some(i) => i,
            None => {
                return Err(ErrorKind::NoTourWithID);
            },
        };
        let t = &self.tours[i];
        let mut k: usize = 0;
        while k < t.repositories.len()
            invariant
                tour_index_of(self.tours_model(), tour_id@) >= 0,
            decreases t.repositories@.len() - k,
        {
            let name = &t.repositories[k].0;
            let ver = &t.repositories[k].1;
            let path = match self.index.get(name) {
                Ok(Some(p)) => p,
                Ok(None) => {
                    return Err(ErrorKind::RepositoryNotInIndex);
                },
                Err(e) => {
                    return Err(e);
                },
            };
            match self.vcs.checkout_version(&path, ver) {
                Ok(_) => {},
                Err(e) => {
                    return Err(e);
                },
            }
            k = k + 1;
        }
        Ok(())
    }
}

/// The components of an absolute path string: what `AbsolutePathBuf::new`
/// accepts it as.
pub open spec fn split_abs(p: Seq<char>) -> Seq<Seq<char>> {
    crate::paths::split_components(p, '/')
}

/// The note recorded on a stop whose anchored line is gone.
pub open spec fn broken_note() -> Seq<char> {
    "line was deleted"@
}

/// A stop after one refresh against the diff `cm` of repository `repo`:
/// stops of other repositories and stops of files the diff does not name are
/// untouched; otherwise the line is adjusted, clearing the broken mark, or
/// the stop is marked broken when the anchor is gone.
pub open spec fn refreshed_stop(
    s: StopModel,
    cm: Seq<(Seq<Seq<char>>, FileModel)>,
    repo: Seq<char>,
) -> StopModel {
    if s.repository == repo {
        match lookup_file(cm, s.path) {
            Some(fm) => match adjust_file(fm, s.line) {
                Some(v) => if v <= usize::MAX {
                    StopModel { line: v as usize, broken: None, ..s }
                } else {
                    StopModel { broken: Some(broken_note()), ..s }
                },
                None => StopModel { broken: Some(broken_note()), ..s },
            },
            None => s,
        }
    } else {
        s
    }
}

/// Applies one repository's diff to every stop of that repository, exactly
/// as `refreshed_stop` states it.
pub fn refresh_stops(stops: &mut Vec<Stop>, repo_name: &String, changes: &Changes)
    requires
        changes.wf(),
    ensures
        final(stops).deep_view().len() == old(stops).deep_view().len(),
        forall|k: int|
            0 <= k < old(stops).deep_view().len() ==> #[trigger] final(stops).deep_view()[k]
                == refreshed_stop(old(stops).deep_view()[k], changes@, repo_name@),
{
    let ghost olddv = stops.deep_view();
    let mut k: usize = 0;
    while k < stops.len()
        invariant
            changes.wf(),
            olddv.len() == stops@.len(),
            stops.deep_view().len() == olddv.len(),
            0 <= k <= stops@.len(),
            forall|m: int|
                0 <= m < k ==> #[trigger] stops.deep_view()[m] == refreshed_stop(
                    olddv[m],
                    changes@,
                    repo_name@,
                ),
            forall|m: int| k <= m < olddv.len() ==> #[trigger] stops.deep_view()[m] == olddv[m],
        decreases stops@.len() - k,
    {
        let ghost curdv = stops.deep_view();
        proof {
            assert(curdv[k as int] == stops@[k as int]@);
        }
        if strings_equal(&stops[k].repository, repo_name) {
            let adjusted: Option<Option<usize>> = match changes.for_file(&stops[k].path) {
                Some(fc) => {
                    proof {
                        crate::changes::lemma_entry_index_spec(changes@, curdv[k as int].path);
                        assert(fc@.wf());
                    }
                    Some(fc.adjust_line_checked(stops[k].line))
                },
                None => None,
            };
            match adjusted {
                Some(Some(l)) => {
                    let mut c = stops[k].clone();
                    c.line = l;
                    c.broken = None;
                    stops.set(k, c);
                    proof {
                        assert(stops.deep_view() =~= curdv.update(
                            k as int,
                            StopModel { line: l, broken: None, ..curdv[k as int] },
                        ));
                    }
                },
                Some(None) => {
                    let mut c = stops[k].clone();
                    c.broken = Some("line was deleted".to_owned());
                    stops.set(k, c);
                    proof {
                        assert(stops.deep_view() =~= curdv.update(
                            k as int,
                            StopModel { broken: Some(broken_note()), ..curdv[k as int] },
                        ));
                    }
                },
                None => {},
            }
        }
        k = k + 1;
    }
}

/// Where a stop is found once `changes` is taken into account: the adjusted
/// line when the diff names the stop's file, the stored line otherwise, and
/// nothing when the anchor is gone or its position cannot be represented.
pub fn adjusted_location(stop: &Stop, changes: &Changes) -> (r: Option<usize>)
    requires
        changes.wf(),
    ensures
        match lookup_file(changes@, stop@.path) {
            Some(fm) => (match adjust_file(fm, stop@.line) {
                Option::None => r is None,
                Option::Some(v) => if v <= usize::MAX {
                    r == Some(v as usize)
                } else {
                    r is None
                },
            }),
            None => r == Some(stop@.line),
        },
{
    match changes.for_file(&stop.path) {
        Some(fc) => {
            proof {
                crate::changes::lemma_entry_index_spec(changes@, stop@.path);
                assert(fc@.wf());
            }
            fc.adjust_line_checked(stop.line)
        },
        None => Some(stop.line),
    }
}

/// How one cross-tour reference reads against the open tours: unresolved
/// when the target tour is not open, resolved with titles when it is, and
/// nothing when a referenced stop id does not exist in its tour.
pub open spec fn resolve_ref(tours: Seq<TourModel>, c: StopRefModel) -> Option<RefViewModel> {
    let ti = tour_index_of(tours, c.tour_id);
    if ti < 0 {
        Some(RefViewModel::Unresolved { tour_id: c.tour_id, stop_id: c.stop_id })
    } else {
        match c.stop_id {
            None => Some(
                RefViewModel::Resolved {
                    tour_id: c.tour_id,
                    tour_title: tours[ti].title,
                    stop_id: None,
                    stop_title: None,
                },
            ),
            Some(sid) => {
                let si = stop_index(tours[ti].stops, sid);
                if si < 0 {
                    None
                } else {
                    Some(
                        RefViewModel::Resolved {
                            tour_id: c.tour_id,
                            tour_title: tours[ti].title,
                            stop_id: Some(sid),
                            stop_title: Some(tours[ti].stops[si].title),
                        },
                    )
                }
            },
        }
    }
}

} // verus!
