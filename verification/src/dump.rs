//! Rendering a tour as a markdown document, optionally quoting the source
//! around each stop.  The quoted window is computed here; fetching the file
//! contents goes through the version-control interface.

use vstd::prelude::*;
use vstd::string::StrSliceExecFns;
use vstd::string::StringExecFns;

use crate::error::ErrorKind;
use crate::index::Index;
use crate::paths::join_sep;
use crate::paths::join_strings;
use crate::paths::lemma_next_sep;
use crate::paths::next_sep;
use crate::types::repo_lookup;
use crate::types::StopModel;
use crate::types::TourModel;
use crate::types::Stop;
use crate::types::Tour;
use crate::vcs::VCS;

verus! {

/// The lines of `s` from position `i` on: pieces between newlines, with no
/// empty piece after a final newline.
pub open spec fn lines_from(s: Seq<char>, i: int) -> Seq<Seq<char>>
    decreases s.len() - i + 1 via lines_from_decreases
{
    if i < 0 || i >= s.len() {
        Seq::empty()
    } else {
        let j = next_sep(s, '\n', i);
        seq![s.subrange(i, j)] + lines_from(s, j + 1)
    }
}

#[via_fn]
proof fn lines_from_decreases(s: Seq<char>, i: int) {
    if 0 <= i < s.len() {
        lemma_next_sep(s, '\n', i);
    }
}

/// The rendered window: the target line marked with an arrow, the lines of
/// the surrounding window indented, everything else dropped.
pub open spec fn rendered_lines(
    lines: Seq<Seq<char>>,
    target: int,
    low: int,
    hi: int,
) -> Seq<Seq<char>>
    decreases lines.len(),
{
    if lines.len() == 0 {
        Seq::empty()
    } else {
        let rest = rendered_lines(lines.drop_last(), target, low, hi);
        let k = lines.len() - 1;
        if k + 1 == target {
            rest.push(" -> "@ + lines.last())
        } else if low <= k + 1 && k < hi {
            rest.push("    "@ + lines.last())
        } else {
            rest
        }
    }
}

/// What `code_range` produces: the window of `above` lines above and
/// `below` lines below the 1-based `target` line, the target marked,
/// joined with newlines.
pub open spec fn code_range_spec(s: Seq<char>, target: int, above: int, below: int) -> Seq<char> {
    let low = if above <= target {
        target - above
    } else {
        0
    };
    join_sep(rendered_lines(lines_from(s, 0), target, low, target + below), '\n')
}

/// Splits `code` into its lines.
fn split_lines(s: &str) -> (r: Vec<String>)
    ensures
        r.deep_view() == lines_from(s@, 0),
{
    let len: usize = s.unicode_len();
    let mut parts: Vec<String> = Vec::new();
    let mut i: usize = 0;
    while i < len
        invariant
            len == s@.len(),
            0 <= i <= len,
            parts.deep_view() + lines_from(s@, i as int) =~= lines_from(s@, 0),
        decreases len - i,
    {
        let ghost start = i as int;
        let mut j: usize = i;
        while j < len && s.get_char(j) != '\n'
            invariant
                len == s@.len(),
                start <= j <= len,
                forall|k: int| start <= k < j ==> s@[k] != '\n',
            decreases len - j,
        {
            j = j + 1;
        }
        proof {
            lemma_next_sep(s@, '\n', start);
            assert(next_sep(s@, '\n', start) == j as int) by {
                lemma_next_sep(s@, '\n', start);
                let ns = next_sep(s@, '\n', start);
                if ns < j as int {
                    assert(s@[ns] == '\n');
                    assert(s@[ns] != '\n');
                }
                if ns > j as int {
                    assert((j as int) < s@.len());
                    assert(s@[j as int] != '\n');
                    assert(s@[j as int] == '\n');
                }
            };
        }
        let ghost old_dv = parts.deep_view();
        let piece: &str = s.substring_char(i, j);
        parts.push(piece.to_owned());
        proof {
            let line = s@.subrange(start, j as int);
            assert(parts.deep_view() =~= old_dv.push(line));
            assert(lines_from(s@, start) == seq![line] + lines_from(s@, j + 1));
            assert(old_dv.push(line) + lines_from(s@, j + 1) =~= old_dv + (seq![line] + lines_from(
                s@,
                j + 1,
            )));
        }
        if j < len {
            i = j + 1;
        } else {
            i = len;
        }
    }
    proof {
        assert(parts.deep_view() =~= parts.deep_view() + lines_from(s@, i as int));
    }
    parts
}

/// The window of `above` lines above and `below` lines below the 1-based
/// `target` line of `code`, the target line marked with an arrow, the rest
/// of the window indented.
pub fn code_range(code: String, target: usize, above: usize, below: usize) -> (r: String)
    ensures
        r@ == code_range_spec(code@, target as int, above as int, below as int),
{
    let lines = split_lines(code.as_str());
    let ghost linesdv = lines.deep_view();
    let low: usize = if above <= target {
        target - above
    } else {
        0
    };
    let hi: u128 = target as u128 + below as u128;
    let mut sel: Vec<String> = Vec::new();
    let mut k: usize = 0;
    while k < lines.len()
        invariant
            linesdv == lines.deep_view(),
            linesdv.len() == lines@.len(),
            0 <= k <= lines@.len(),
            low as int == (if above as int <= target as int {
                target - above
            } else {
                0
            }),
            hi == target as int + below as int,
            sel.deep_view() == rendered_lines(
                linesdv.take(k as int),
                target as int,
                low as int,
                hi as int,
            ),
        decreases lines@.len() - k,
    {
        proof {
            assert(linesdv[k as int] == lines@[k as int]@);
            assert(linesdv.take(k + 1).drop_last() =~= linesdv.take(k as int));
            assert(linesdv.take(k + 1).last() == linesdv[k as int]);
        }
        let ghost pre = sel.deep_view();
        if k + 1 == target {
            let mut piece = " -> ".to_owned();
            piece.append(lines[k].as_str());
            sel.push(piece);
            proof {
                assert(sel.deep_view().len() == pre.len() + 1);
                assert(forall|m: int| 0 <= m < pre.len() ==> sel.deep_view()[m] == pre[m]);
                assert(sel.deep_view()[pre.len() as int] == " -> "@ + linesdv[k as int]);
                assert(sel.deep_view() =~= pre.push(" -> "@ + linesdv[k as int]));
            }
        } else if low <= k + 1 && (k as u128) < hi {
            let mut piece = "    ".to_owned();
            piece.append(lines[k].as_str());
            sel.push(piece);
            proof {
                assert(sel.deep_view().len() == pre.len() + 1);
                assert(forall|m: int| 0 <= m < pre.len() ==> sel.deep_view()[m] == pre[m]);
                assert(sel.deep_view()[pre.len() as int] == "    "@ + linesdv[k as int]);
                assert(sel.deep_view() =~= pre.push("    "@ + linesdv[k as int]));
            }
        }
        k = k + 1;
    }
    proof {
        assert(linesdv.take(linesdv.len() as int) =~= linesdv);
        reveal_strlit("\n");
    }
    join_strings(&sel, "\n")
}

/// The digit character of `d`.
pub open spec fn digit_char(d: int) -> char {
    if d == 0 {
        '0'
    } else if d == 1 {
        '1'
    } else if d == 2 {
        '2'
    } else if d == 3 {
        '3'
    } else if d == 4 {
        '4'
    } else if d == 5 {
        '5'
    } else if d == 6 {
        '6'
    } else if d == 7 {
        '7'
    } else if d == 8 {
        '8'
    } else {
        '9'
    }
}

/// The decimal rendering of `n`.
pub open spec fn dec_str(n: int) -> Seq<char>
    decreases n,
{
    if n < 10 {
        seq![digit_char(n)]
    } else {
        dec_str(n / 10) + seq![digit_char(n % 10)]
    }
}

/// Renders `n` in decimal.
pub fn usize_to_string(n: usize) -> (r: String)
    ensures
        r@ == dec_str(n as int),
    decreases n,
{
    let d: &str = match n % 10 {
        0 => "0",
        1 => "1",
        2 => "2",
        3 => "3",
        4 => "4",
        5 => "5",
        6 => "6",
        7 => "7",
        8 => "8",
        _ => "9",
    };
    proof {
        reveal_strlit("0");
        reveal_strlit("1");
        reveal_strlit("2");
        reveal_strlit("3");
        reveal_strlit("4");
        reveal_strlit("5");
        reveal_strlit("6");
        reveal_strlit("7");
        reveal_strlit("8");
        reveal_strlit("9");
        assert(d@ =~= seq![digit_char(n as int % 10)]);
    }
    if n < 10 {
        d.to_owned()
    } else {
        let mut s = usize_to_string(n / 10);
        s.append(d);
        s
    }
}

/// How a tour is dumped: either plain, or quoting `above`/`below` lines of
/// context around each stop, read from the repositories.
pub enum Dump<V: VCS, I: Index> {
    Context { vcs: V, index: I, above: usize, below: usize },
    NoContext,
}

impl<V: VCS, I: Index> Dump<V, I> {
    /// The lines quoted above each stop; zero without context.
    pub open spec fn ctx_above(&self) -> usize {
        match self {
            Dump::Context { above, .. } => *above,
            Dump::NoContext => 0,
        }
    }

    /// The lines quoted below each stop; zero without context.
    pub open spec fn ctx_below(&self) -> usize {
        match self {
            Dump::Context { below, .. } => *below,
            Dump::NoContext => 0,
        }
    }

    /// A dump without source context.
    pub fn new() -> (r: Self)
        ensures
            r is NoContext,
    {
        Dump::NoContext
    }

    /// A dump quoting `above` lines above and `below` lines below each stop.
    pub fn with_context(vcs: V, index: I, above: usize, below: usize) -> (r: Self)
        ensures
            r is Context,
            r.ctx_above() == above,
            r.ctx_below() == below,
    {
        Dump::Context { vcs, index, above, below }
    }

    /// The quoted source context of one stop: its file at `commit`, windowed
    /// around the stop's line, fenced; empty for a dump without context.
    pub fn extract_context(&self, stop: &Stop, commit: &String) -> (r: Result<String, ErrorKind>)
        ensures
            self is NoContext ==> (r matches Ok(s) && s@ == Seq::<char>::empty()),
            self is Context ==> (r matches Ok(s) ==> exists|content: Seq<char>|
                s@ == fenced(
                    #[trigger] code_range_spec(
                        content,
                        stop@.line as int,
                        self.ctx_above() as int,
                        self.ctx_below() as int,
                    ),
                )),
    {
        match self {
            Dump::Context { vcs, index, above, below } => {
                let repo_path = match index.get(&stop.repository) {
                    Ok(Some(p)) => p,
                    Ok(None) => {
                        return Err(ErrorKind::RepositoryNotInIndex);
                    },
                    Err(e) => {
                        return Err(e);
                    },
                };
                let content = match vcs.lookup_file_contents(&repo_path, commit, &stop.path) {
                    Ok(c) => c,
                    Err(e) => {
                        return Err(e);
                    },
                };
                let ghost contentm = content@;
                let windowed = code_range(content, stop.line, *above, *below);
                let mut out = "\n\n```\n".to_owned();
                out.append(windowed.as_str());
                out.append("\n```");
                proof {
                    assert(out@ =~= fenced(
                        code_range_spec(
                            contentm,
                            stop@.line as int,
                            self.ctx_above() as int,
                            self.ctx_below() as int,
                        ),
                    ));
                }
                Ok(out)
            },
            Dump::NoContext => {
                let r = String::new();
                Ok(r)
            },
        }
    }

    /// One stop rendered as a markdown section: heading, position line, the
    /// stop's description, and its source context.
    pub fn process_stop(&self, stop: &Stop, commit: &String) -> (r: Result<String, ErrorKind>)
        ensures
            r matches Ok(s) ==> exists|ctx: Seq<char>| s@ == #[trigger] rendered_stop(stop@, ctx),
            self is NoContext ==> r is Ok && (r matches Ok(s) ==> s@ == rendered_stop(
                stop@,
                Seq::<char>::empty(),
            )),
    {
        let context = match self.extract_context(stop, commit) {
            Ok(c) => c,
            Err(e) => {
                return Err(e);
            },
        };
        let ghost ctxm = context@;
        let mut out = "## ".to_owned();
        out.append(stop.title.as_str());
        out.append("\n*");
        out.append(stop.repository.as_str());
        out.append(":");
        let p = stop.path.as_git_path();
        out.append(p.as_str());
        out.append(" - line ");
        let l = usize_to_string(stop.line);
        out.append(l.as_str());
        out.append("*\n\n");
        out.append(stop.description.as_str());
        out.append(context.as_str());
        proof {
            assert(out@ =~= rendered_stop(stop@, ctxm));
        }
        Ok(out)
    }

    /// The whole tour rendered as one markdown document: title, description,
    /// the stops in order, then the repository pins.  Fails with
    /// `NoVersionForRepository` when some stop's repository has no pin.
    pub fn process(&self, tour: &Tour) -> (r: Result<String, ErrorKind>)
        ensures
            self is NoContext ==> ((match r {
                Err(e) => e == ErrorKind::NoVersionForRepository,
                _ => false,
            }) <==> (exists|k: int|
                0 <= k < tour@.stops.len() && repo_lookup(
                    tour@.repositories,
                    (#[trigger] tour@.stops[k]).repository,
                ) is None)),
            self is NoContext ==> (r matches Err(e) ==> e == ErrorKind::NoVersionForRepository),
            r matches Ok(s) ==> exists|ctxs: Seq<Seq<char>>|
                #![trigger stop_sections(tour@.stops, ctxs)]
                ctxs.len() == tour@.stops.len() && (self is NoContext ==> (forall|k: int|
                    0 <= k < ctxs.len() ==> ctxs[k] == Seq::<char>::empty())) && s@
                    == rendered_tour(
                    tour@,
                    join_with(stop_sections(tour@.stops, ctxs), "\n\n-----\n\n"@),
                    join_sep(pin_lines(tour@.repositories), '\n'),
                ),
    {
        let mut repo_lines: Vec<String> = Vec::new();
        let mut k: usize = 0;
        while k < tour.repositories.len()
            invariant
                0 <= k <= tour.repositories@.len(),
                repo_lines.deep_view() == pin_lines(tour@.repositories).take(k as int),
            decreases tour.repositories@.len() - k,
        {
            proof {
                assert(tour@.repositories[k as int] == (
                    tour.repositories@[k as int].0@,
                    tour.repositories@[k as int].1@,
                ));
            }
            let mut line = String::new();
            line.append(tour.repositories[k].0.as_str());
            line.append(" is on commit ");
            line.append(tour.repositories[k].1.as_str());
            proof {
                assert(line@ == pin_line(tour@.repositories[k as int]));
            }
            let ghost pre = repo_lines.deep_view();
            repo_lines.push(line);
            proof {
                assert(repo_lines.deep_view().len() == pre.len() + 1);
                assert(forall|m: int| 0 <= m < pre.len() ==> repo_lines.deep_view()[m] == pre[m]);
                assert(repo_lines.deep_view()[pre.len() as int] == pin_line(
                    tour@.repositories[k as int],
                ));
                assert(repo_lines.deep_view() =~= pin_lines(tour@.repositories).take(k + 1));
            }
            k = k + 1;
        }
        proof {
            reveal_strlit("\n");
            assert(pin_lines(tour@.repositories).take(tour@.repositories.len() as int)
                =~= pin_lines(tour@.repositories));
        }
        let repos = join_strings(&repo_lines, "\n");
        let mut sections: Vec<String> = Vec::new();
        let ghost mut ctxs: Seq<Seq<char>> = Seq::empty();
        let mut k: usize = 0;
        while k < tour.stops.len()
            invariant
                0 <= k <= tour.stops@.len(),
                ctxs.len() == k,
                sections.deep_view().len() == k,
                forall|m: int|
                    0 <= m < k ==> #[trigger] sections.deep_view()[m] == rendered_stop(
                        tour@.stops[m],
                        ctxs[m],
                    ),
                self is NoContext ==> (forall|m: int|
                    0 <= m < k ==> ctxs[m] == Seq::<char>::empty()),
                forall|m: int|
                    0 <= m < k ==> repo_lookup(
                        tour@.repositories,
                        (#[trigger] tour@.stops[m]).repository,
                    ) is Some,
            decreases tour.stops@.len() - k,
        {
            proof {
                assert(tour@.stops[k as int] == tour.stops@[k as int]@);
            }
            let commit: String = match crate::types::find_repo(
                &tour.repositories,
                &tour.stops[k].repository,
            ) {
                Some(i) => tour.repositories[i].1.clone(),
                None => {
                    proof {
                        assert(repo_lookup(tour@.repositories, tour@.stops[k as int].repository)
                            is None);
                    }
                    return Err(ErrorKind::NoVersionForRepository);
                },
            };
            let section = match self.process_stop(&tour.stops[k], &commit) {
                Ok(s) => s,
                Err(e) => {
                    return Err(e);
                },
            };
            let ghost ctxm: Seq<char> = if self is NoContext {
                Seq::empty()
            } else {
                choose|c: Seq<char>| section@ == rendered_stop(tour.stops@[k as int]@, c)
            };
            proof {
                assert(section@ == rendered_stop(tour.stops@[k as int]@, ctxm));
                assert(section@ == rendered_stop(tour@.stops[k as int], ctxm));
            }
            let ghost pre = sections.deep_view();
            let ghost ctxs0 = ctxs;
            sections.push(section);
            proof {
                ctxs = ctxs0.push(ctxm);
                assert(ctxs.len() == ctxs0.len() + 1);
                assert(forall|m: int| 0 <= m < ctxs0.len() ==> #[trigger] ctxs[m] == ctxs0[m]);
                assert(ctxs[ctxs0.len() as int] == ctxm);
                assert(sections.deep_view().len() == pre.len() + 1);
                assert(forall|m: int|
                    0 <= m < pre.len() ==> #[trigger] sections.deep_view()[m] == pre[m]);
                assert(sections.deep_view()[pre.len() as int] == rendered_stop(
                    tour@.stops[k as int],
                    ctxm,
                ));
                assert forall|m: int|
                    0 <= m < k + 1 implies #[trigger] sections.deep_view()[m] == rendered_stop(
                        tour@.stops[m],
                        ctxs[m],
                    ) by {
                    if m < k {
                        assert(sections.deep_view()[m] == pre[m]);
                        assert(ctxs[m] == ctxs0[m]);
                        assert(pre[m] == rendered_stop(tour@.stops[m], ctxs0[m]));
                    } else {
                        assert(sections.deep_view()[m] == rendered_stop(
                            tour@.stops[k as int],
                            ctxm,
                        ));
                        assert(ctxs[m] == ctxm);
                    }
                };
            }
            k = k + 1;
        }
        proof {
            assert(sections.deep_view() =~= stop_sections(tour@.stops, ctxs));
        }
        let sep = "\n\n-----\n\n";
        let stops = join_long(&sections, sep);
        let mut out = "# ".to_owned();
        out.append(tour.title.as_str());
        out.append("\n\n");
        out.append(tour.description.as_str());
        out.append("\n\n# Stops\n\n");
        out.append(stops.as_str());
        out.append("\n\n# Repositories\n\n");
        out.append(repos.as_str());
        proof {
            assert(out@ =~= rendered_tour(
                tour@,
                join_with(stop_sections(tour@.stops, ctxs), "\n\n-----\n\n"@),
                join_sep(pin_lines(tour@.repositories), '\n'),
            ));
        }
        Ok(out)
    }
}

/// A quoted context block: the rendered window inside a fenced code block.
pub open spec fn fenced(ctx: Seq<char>) -> Seq<char> {
    "\n\n```\n"@ + ctx + "\n```"@
}

/// One stop as a markdown section: heading, position line, description, and
/// its context block.
pub open spec fn rendered_stop(s: StopModel, ctx: Seq<char>) -> Seq<char> {
    "## "@ + s.title + "\n*"@ + s.repository + ":"@ + join_sep(s.path, '/') + " - line "@
        + dec_str(s.line as int) + "*\n\n"@ + s.description + ctx
}

/// A tour as one markdown document: title, description, the stop sections,
/// then the repository pins.
pub open spec fn rendered_tour(t: TourModel, stops_part: Seq<char>, repos_part: Seq<char>) -> Seq<
    char,
> {
    "# "@ + t.title + "\n\n"@ + t.description + "\n\n# Stops\n\n"@ + stops_part
        + "\n\n# Repositories\n\n"@ + repos_part
}

/// `parts` joined with the separator string `sep` between consecutive
/// parts.
pub open spec fn join_with(parts: Seq<Seq<char>>, sep: Seq<char>) -> Seq<char>
    decreases parts.len(),
{
    if parts.len() == 0 {
        Seq::empty()
    } else if parts.len() == 1 {
        parts[0]
    } else {
        join_with(parts.drop_last(), sep) + sep + parts.last()
    }
}

/// One pin rendered as a line of the repository section.
pub open spec fn pin_line(p: (Seq<char>, Seq<char>)) -> Seq<char> {
    p.0 + " is on commit "@ + p.1
}

/// The repository section's lines, one per pin, in order.
pub open spec fn pin_lines(repos: Seq<(Seq<char>, Seq<char>)>) -> Seq<Seq<char>> {
    repos.map_values(|p: (Seq<char>, Seq<char>)| pin_line(p))
}

/// The stop sections of a rendered tour: each stop with its own context.
pub open spec fn stop_sections(stops: Seq<StopModel>, ctxs: Seq<Seq<char>>) -> Seq<Seq<char>> {
    Seq::new(stops.len(), |k: int| rendered_stop(stops[k], ctxs[k]))
}

/// Joins `parts` with the separator string `sep` between consecutive parts.
fn join_long(parts: &Vec<String>, sep: &str) -> (r: String)
    ensures
        r@ == join_with(parts.deep_view(), sep@),
{
    let mut out = String::new();
    let mut i: usize = 0;
    while i < parts.len()
        invariant
            0 <= i <= parts@.len(),
            out@ == join_with(parts.deep_view().take(i as int), sep@),
        decreases parts@.len() - i,
    {
        if i > 0 {
            out.append(sep);
        }
        out.append(parts[i].as_str());
        proof {
            let dv = parts.deep_view();
            assert(dv.take(i + 1).drop_last() =~= dv.take(i as int));
            assert(dv.take(i + 1).last() == dv[i as int]);
            if i == 0 {
                assert(out@ =~= join_with(dv.take(1), sep@));
            } else {
                assert(out@ =~= join_with(dv.take(i + 1), sep@));
            }
        }
        i = i + 1;
    }
    proof {
        assert(parts.deep_view().take(parts.deep_view().len() as int) =~= parts.deep_view());
    }
    out
}

} // verus!
