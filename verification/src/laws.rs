//! Properties the library guarantees, stated once and proved against the
//! models the public contracts use.

use vstd::prelude::*;

use crate::changes::adjust_lines;
use crate::changes::count_lt;
use crate::changes::moved_to;
use crate::changes::shifted;
use crate::changes::LineModel;
use crate::engine::clamp_spec;
use crate::engine::refreshed_stop;
use crate::types::StopModel;

verus! {

/// Deletion dominance: a line recorded as deleted adjusts to nothing,
/// whatever the other fields of the change set hold.
pub proof fn lemma_deletion_dominates(m: LineModel, line: usize)
    requires
        m.deleted.contains(line),
    ensures
        adjust_lines(m, line) is None,
{
}

/// Explicit pairing wins: a line the diff explicitly paired adjusts to its
/// paired position, however it sits among the additions, and among the
/// deletions of other lines.
pub proof fn lemma_pairing_wins(m: LineModel, line: usize, dest: usize)
    requires
        !m.deleted.contains(line),
        moved_to(m.moved, line) == Some(dest),
    ensures
        adjust_lines(m, line) == Some(dest as int),
{
}

/// Pure shift: with no pairings and no deletions and a single addition at
/// `a`, a line before the insertion point keeps its position, and a line at
/// or after it moves down by exactly one.
pub proof fn lemma_pure_shift_single_addition(m: LineModel, a: usize, line: usize)
    requires
        m.moved == Seq::<(usize, usize)>::empty(),
        m.deleted == Seq::<usize>::empty(),
        m.added == seq![a],
    ensures
        line < a ==> adjust_lines(m, line) == Some(line as int),
        line >= a ==> adjust_lines(m, line) == Some(line + 1 as int),
{
    assert(count_lt(m.deleted, line) == 0);
    assert(moved_to(m.moved, line) is None);
    assert(m.added.first() == a);
    assert(m.added.drop_first() =~= Seq::<usize>::empty());
    if a <= line {
        assert(shifted(m.added, line as int) == shifted(m.added.drop_first(), line + 1));
    }
}

/// Round-trip stability: refreshing a tour to its own pinned commit diffs a
/// commit against itself, an empty change set; under an empty change set
/// every stop keeps its line and its broken state.
pub proof fn lemma_refresh_to_same_pin_stable(s: StopModel, repo: Seq<char>)
    ensures
        refreshed_stop(s, Seq::empty(), repo) == s,
{
}

/// Reorder clamping: an arbitrarily large negative delta lands on the first
/// position, an arbitrarily large positive delta on the last, and a zero
/// delta stays put.
pub proof fn lemma_reorder_clamps(idx: int, delta: int, len: int)
    requires
        0 <= idx < len,
    ensures
        idx + delta <= 0 ==> clamp_spec(idx + delta, 0, len - 1) == 0,
        idx + delta >= len - 1 ==> clamp_spec(idx + delta, 0, len - 1) == len - 1,
        delta == 0 ==> clamp_spec(idx + delta, 0, len - 1) == idx,
{
}

/// A reorder with delta zero exchanges a stop with itself, which leaves the
/// stop list unchanged.
pub proof fn lemma_self_swap_is_noop(stops: Seq<StopModel>, i: int)
    requires
        0 <= i < stops.len(),
    ensures
        stops.update(i, stops[i]).update(i, stops[i]) == stops,
{
    assert(stops.update(i, stops[i]).update(i, stops[i]) =~= stops);
}

} // verus!
