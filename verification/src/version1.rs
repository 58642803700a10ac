//! The first versioned form of a tour file: the record layout a serialized
//! tour carries, and the faithful conversions between it and the live tour
//! graph.  How the records reach and leave disk belongs to the caller.

use vstd::prelude::*;
use vstd::string::StrSliceExecFns;
use vstd::string::StringExecFns;

use crate::paths::join_sep;
use crate::paths::split_components;
use crate::paths::RelativePathBuf;
use crate::types;
use crate::types::StopRefModel;

verus! {

pub const PROTOCOL_VERSION: &'static str = "1.0";

/// A serialized cross-tour reference.
#[derive(Debug, PartialEq)]
pub struct Child {
    pub tour_id: String,
    pub stop_num: usize,
}

/// A serialized stop; its path is a single separated string.
#[derive(Debug, PartialEq)]
pub struct Stop {
    pub id: String,
    pub title: String,
    pub body: String,
    pub rel_path: String,
    pub repository: String,
    pub line: usize,
    pub child_stops: Vec<Child>,
}

/// A serialized repository pin.
#[derive(Debug, PartialEq)]
pub struct Repository {
    pub repository: String,
    pub commit: String,
}

/// A serialized tour.
#[derive(Debug, PartialEq)]
pub struct TourFile {
    pub protocol_version: String,
    pub id: String,
    pub title: String,
    pub description: String,
    pub stops: Vec<Stop>,
    pub repositories: Vec<Repository>,
    pub generator: Option<usize>,
}

/// `s` with every backslash turned into a forward slash: serialized paths
/// may carry either separator.
pub open spec fn slashes_normalized(s: Seq<char>) -> Seq<char> {
    s.map_values(
        |c: char|
            if c == '\\' {
                '/'
            } else {
                c
            },
    )
}

/// Replaces every backslash of `s` by a forward slash.
fn normalize_slashes(s: &str) -> (r: String)
    ensures
        r@ == slashes_normalized(s@),
{
    proof {
        reveal_strlit("/");
    }
    let len: usize = s.unicode_len();
    let mut out = String::new();
    let mut i: usize = 0;
    while i < len
        invariant
            len == s@.len(),
            0 <= i <= len,
            out@ =~= slashes_normalized(s@.take(i as int)),
        decreases len - i,
    {
        let c = s.get_char(i);
        if c == '\\' {
            out.append("/");
        } else {
            let piece: &str = s.substring_char(i, i + 1);
            out.append(piece);
        }
        proof {
            assert(out@ =~= slashes_normalized(s@.take(i + 1))) by {
                reveal_strlit("/");
                assert(s@.subrange(i as int, i + 1) =~= seq![s@[i as int]]);
                assert(s@.take(i + 1).drop_last() =~= s@.take(i as int));
                assert(s@.take(i + 1).last() == s@[i as int]);
                assert(slashes_normalized(s@.take(i + 1)) =~= slashes_normalized(
                    s@.take(i as int),
                ).push(
                    if s@[i as int] == '\\' {
                        '/'
                    } else {
                        s@[i as int]
                    },
                ));
            };
        }
        i = i + 1;
    }
    proof {
        assert(s@.take(len as int) =~= s@);
    }
    out
}

/// The path components a serialized path string denotes.
pub open spec fn parsed_rel_path(s: Seq<char>) -> Seq<Seq<char>> {
    split_components(slashes_normalized(s), '/')
}

/// The model of the stop a serialized stop denotes.
pub open spec fn parsed_stop(f: Stop) -> types::StopModel {
    types::StopModel {
        id: f.id@,
        title: f.title@,
        description: f.body@,
        path: parsed_rel_path(f.rel_path@),
        repository: f.repository@,
        line: f.line,
        children: f.child_stops@.map_values(
            |c: Child| StopRefModel { tour_id: c.tour_id@, stop_id: None },
        ),
        broken: None,
    }
}

impl TourFile {
    /// The live tour this file denotes: serialized paths are parsed into
    /// components (either slash accepted), child references link to the
    /// target tour's landing page, and every stop starts unbroken.
    pub fn into_tour(self) -> (r: types::Tour)
        ensures
            r@.protocol_version == self.protocol_version@,
            r@.id == self.id@,
            r@.title == self.title@,
            r@.description == self.description@,
            r@.generator == (match self.generator {
                Some(g) => g,
                None => 0usize,
            }),
            r@.stops.len() == self.stops@.len(),
            forall|k: int|
                0 <= k < self.stops@.len() ==> #[trigger] r@.stops[k] == parsed_stop(
                    self.stops@[k],
                ),
            r@.repositories.len() == self.repositories@.len(),
            forall|k: int|
                0 <= k < self.repositories@.len() ==> #[trigger] r@.repositories[k] == (
                    self.repositories@[k].repository@,
                    self.repositories@[k].commit@,
                ),
    {
        let TourFile { protocol_version, id, title, description, stops, repositories, generator } =
            self;
        let ghost stopsdv = stops@;
        let mut out_stops: Vec<types::Stop> = Vec::new();
        for s0 in it: stops
            invariant
                it.seq() == stopsdv,
                out_stops.deep_view().len() == it.index(),
                forall|m: int|
                    0 <= m < it.index() ==> #[trigger] out_stops.deep_view()[m] == parsed_stop(
                        stopsdv[m],
                    ),
        {
            let ghost f = it.seq()[it.index() as int];
            proof {
                assert(s0 == f);
            }
            let Stop { id, title, body, rel_path, repository, line, child_stops } = s0;
            let normalized = normalize_slashes(rel_path.as_str());
            let path = RelativePathBuf::from_string(normalized.as_str());
            let ghost childrendv = child_stops@;
            let mut children: Vec<types::StopReference> = Vec::new();
            for c0 in cit: child_stops
                invariant
                    cit.seq() == childrendv,
                    children.deep_view().len() == cit.index(),
                    forall|c: int|
                        0 <= c < cit.index() ==> #[trigger] children.deep_view()[c] == (
                        StopRefModel { tour_id: childrendv[c].tour_id@, stop_id: None }),
            {
                let ghost pre = children.deep_view();
                proof {
                    assert(c0 == childrendv[cit.index() as int]);
                }
                children.push(types::StopReference { tour_id: c0.tour_id, stop_id: None });
                proof {
                    assert(children.deep_view() =~= pre.push(
                        StopRefModel {
                            tour_id: childrendv[pre.len() as int].tour_id@,
                            stop_id: None,
                        },
                    ));
                }
            }
            let ghost pre = out_stops.deep_view();
            let built = types::Stop {
                id,
                title,
                description: body,
                path,
                repository,
                line,
                children,
                broken: None,
            };
            proof {
                assert(built@.children =~= parsed_stop(f).children);
                assert(built@ == parsed_stop(f));
            }
            out_stops.push(built);
            proof {
                assert(out_stops.deep_view() =~= pre.push(parsed_stop(f)));
            }
        }
        let ghost reposdv = repositories@;
        let mut out_repos: Vec<(String, String)> = Vec::new();
        for r0 in rit: repositories
            invariant
                rit.seq() == reposdv,
                out_repos@.len() == rit.index(),
                forall|m: int|
                    0 <= m < rit.index() ==> #[trigger] types::repos_model_of(out_repos@)[m] == (
                        reposdv[m].repository@,
                        reposdv[m].commit@,
                    ),
        {
            let ghost pre = types::repos_model_of(out_repos@);
            proof {
                assert(r0 == reposdv[rit.index() as int]);
            }
            out_repos.push((r0.repository, r0.commit));
            proof {
                assert(types::repos_model_of(out_repos@) =~= pre.push(
                    (reposdv[pre.len() as int].repository@, reposdv[pre.len() as int].commit@),
                ));
            }
        }
        let g: usize = match generator {
            Some(g) => g,
            None => 0,
        };
        let r = types::Tour {
            protocol_version,
            id,
            title,
            description,
            stops: out_stops,
            repositories: out_repos,
            generator: g,
        };
        proof {
            assert(r@.repositories =~= types::repos_model_of(out_repos@));
        }
        r
    }

    /// The serialized form of a live tour: paths are joined with forward
    /// slashes, and child references carry only their target tour.
    pub fn from_tour(tour: types::Tour) -> (r: TourFile)
        ensures
            r.protocol_version@ == tour@.protocol_version,
            r.id@ == tour@.id,
            r.title@ == tour@.title,
            r.description@ == tour@.description,
            r.generator == Some(tour@.generator),
            r.stops@.len() == tour@.stops.len(),
            forall|k: int|
                0 <= k < tour@.stops.len() ==> {
                    let s = tour@.stops[k];
                    let f = #[trigger] r.stops@[k];
                    &&& f.id@ == s.id
                    &&& f.title@ == s.title
                    &&& f.body@ == s.description
                    &&& f.rel_path@ == join_sep(s.path, '/')
                    &&& f.repository@ == s.repository
                    &&& f.line == s.line
                    &&& f.child_stops@.len() == s.children.len()
                    &&& (forall|c: int|
                        0 <= c < s.children.len() ==> (#[trigger] f.child_stops@[c]).tour_id@
                            == s.children[c].tour_id && f.child_stops@[c].stop_num == 0)
                },
            r.repositories@.len() == tour@.repositories.len(),
            forall|k: int|
                0 <= k < tour@.repositories.len() ==> (#[trigger] r.repositories@[k]).repository@
                    == tour@.repositories[k].0 && r.repositories@[k].commit@
                    == tour@.repositories[k].1,
    {
        let types::Tour { protocol_version, id, title, description, stops, repositories, generator } =
            tour;
        let ghost stopsdv = stops.deep_view();
        let ghost stopsexec = stops@;
        let ghost reposdv = types::repos_model_of(repositories@);
        let ghost reposexec = repositories@;
        let mut out_stops: Vec<Stop> = Vec::new();
        for s0 in it: stops
            invariant
                it.seq() == stopsexec,
                stopsdv.len() == stopsexec.len(),
                forall|m: int| 0 <= m < stopsexec.len() ==> #[trigger] stopsexec[m]@ == stopsdv[m],
                out_stops@.len() == it.index(),
                forall|m: int|
                    0 <= m < it.index() ==> {
                        let s = stopsdv[m];
                        let f = #[trigger] out_stops@[m];
                        &&& f.id@ == s.id
                        &&& f.title@ == s.title
                        &&& f.body@ == s.description
                        &&& f.rel_path@ == join_sep(s.path, '/')
                        &&& f.repository@ == s.repository
                        &&& f.line == s.line
                        &&& f.child_stops@.len() == s.children.len()
                        &&& (forall|c: int|
                            0 <= c < s.children.len() ==> (#[trigger] f.child_stops@[c]).tour_id@
                                == s.children[c].tour_id && f.child_stops@[c].stop_num == 0)
                    },
        {
            let ghost pos = it.index() as int;
            proof {
                assert(s0 == stopsexec[pos]);
                assert(s0@ == stopsdv[pos]);
            }
            let types::Stop {
                id,
                title,
                description,
                path,
                repository,
                line,
                children,
                broken: _,
            } = s0;
            let rel_path = path.as_git_path();
            let ghost childrendv = children.deep_view();
            let ghost childrenexec = children@;
            let mut child_stops: Vec<Child> = Vec::new();
            for c0 in cit: children
                invariant
                    cit.seq() == childrenexec,
                    childrendv.len() == childrenexec.len(),
                    forall|c: int|
                        0 <= c < childrenexec.len() ==> #[trigger] childrenexec[c]@
                            == childrendv[c],
                    child_stops@.len() == cit.index(),
                    forall|c: int|
                        0 <= c < cit.index() ==> (#[trigger] child_stops@[c]).tour_id@
                            == childrendv[c].tour_id && child_stops@[c].stop_num == 0,
            {
                let ghost cpos = cit.index() as int;
                proof {
                    assert(c0 == childrenexec[cpos]);
                    assert(c0@ == childrendv[cpos]);
                }
                child_stops.push(Child { tour_id: c0.tour_id, stop_num: 0 });
            }
            out_stops.push(
                Stop {
                    id,
                    title,
                    body: description,
                    rel_path,
                    repository,
                    line,
                    child_stops,
                },
            );
        }
        let mut out_repos: Vec<Repository> = Vec::new();
        for r0 in rit: repositories
            invariant
                rit.seq() == reposexec,
                reposdv.len() == reposexec.len(),
                forall|m: int|
                    0 <= m < reposexec.len() ==> #[trigger] reposdv[m] == (
                        reposexec[m].0@,
                        reposexec[m].1@,
                    ),
                out_repos@.len() == rit.index(),
                forall|m: int|
                    0 <= m < rit.index() ==> (#[trigger] out_repos@[m]).repository@ == reposdv[m].0
                        && out_repos@[m].commit@ == reposdv[m].1,
        {
            let ghost pos = rit.index() as int;
            proof {
                assert(r0 == reposexec[pos]);
            }
            out_repos.push(Repository { repository: r0.0, commit: r0.1 });
        }
        TourFile {
            protocol_version,
            id,
            title,
            description,
            stops: out_stops,
            repositories: out_repos,
            generator: Some(generator),
        }
    }
}

} // verus!
