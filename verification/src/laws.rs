//! What the rules of the game guarantee, stated over the field's model and
//! proved from the definitions.

use crate::cell::Contains;
use crate::game::{result_after, GameResult, GameState, Rejection, Session};
use crate::geometry::{box_set, lemma_box_size};
use crate::index::{adjacent, FieldIndex};
use crate::minefield::Minefield;
use crate::opening::{indices_of, OpenOutcome};
use crate::settings::{is_fraction, lemma_target_bounds, mine_target, Safety};
use vstd::prelude::*;

verus! {

/// Where there are enough candidates, placement puts exactly the targeted
/// number of mines on the field.
pub proof fn law_mine_count(before: Minefield, first: FieldIndex, placed: Minefield)
    requires
        before.placement_of(first, &placed),
        mine_target(before.total(), before.density()) <= before.candidates(first).len(),
    ensures
        placed.mine_count() == mine_target(before.total(), before.density()),
{
}

/// Where there are fewer candidates than the target, every candidate gets a
/// mine and no other cell does.
pub proof fn law_crowded_field(before: Minefield, first: FieldIndex, placed: Minefield)
    requires
        before.wf(),
        before.placement_of(first, &placed),
        mine_target(before.total(), before.density()) > before.candidates(first).len(),
    ensures
        placed.mine_set() == before.candidates(first),
{
    let mines = placed.mine_set();
    let free = before.candidates(first);
    before.lemma_axes_bounded();
    lemma_box_size(before.shape());
    assert(free.subset_of(box_set(before.shape())));
    vstd::set_lib::lemma_set_subset_finite(box_set(before.shape()), free);
    assert(mines.subset_of(free));
    vstd::set_lib::lemma_subset_equality(mines, free);
}

/// Under the policy `Random` every cell is a candidate, so the number of
/// mines is always the targeted one.
pub proof fn law_random_policy_is_exact(before: Minefield, first: FieldIndex, placed: Minefield)
    requires
        before.wf(),
        before.safety() == Safety::Random,
        before.placement_of(first, &placed),
    ensures
        placed.mine_count() == mine_target(before.total(), before.density()),
{
    before.lemma_axes_bounded();
    lemma_box_size(before.shape());
    assert(before.candidates(first) =~= box_set(before.shape()));
    lemma_target_bounds(before.total() as int, before.density().0 as int, before.density().1 as int);
}

/// Under `Safe` the cell opened first holds no mine. Under `Clear` neither
/// it nor any cell around it holds one, so it has no mine around it.
pub proof fn law_first_move_protected(before: Minefield, first: FieldIndex, placed: Minefield)
    requires
        before.in_bounds(first),
        before.placement_of(first, &placed),
    ensures
        before.safety() == Safety::Safe ==> !placed.is_mine(first),
        before.safety() == Safety::Clear ==> !placed.is_mine(first) && placed.is_blank(first)
            && forall|q: FieldIndex| adjacent(first, q) ==> !placed.is_mine(q),
{
    if before.safety() == Safety::Clear {
        assert(placed.neighbor_mines(first) =~= Set::empty());
        assert(placed.in_bounds(first) && !placed.is_mine(first));
        assert(placed.cell(first).contains is Empty);
    }
}

/// Every count on a well-formed field is the number of mines among the cells
/// that surround the counting cell, and is at most 26.
pub proof fn law_counts(field: Minefield, p: FieldIndex)
    requires
        field.wf(),
        field.is_safe(p),
    ensures
        field.cell(p).contains == (Contains::Empty {
            adjacent_mines: field.neighbor_mines(p).len() as u8,
        }),
        field.neighbor_mines(p).len() <= 26,
{
    crate::geometry::lemma_surrounding_subset(p, field.neighbor_mines(p));
    assert(field.cell(p).contains is Empty);
}

/// A spreading reveal never uncovers a mine, nor a cell that was uncovered
/// before.
pub proof fn law_spread_spares_mines(field: Minefield, seed: FieldIndex, p: FieldIndex)
    requires
        field.reaches(seed, p),
    ensures
        field.is_safe(p),
        field.is_hidden(p),
        p != seed,
{
    let path = choose|path: Seq<FieldIndex>|
        #[trigger] field.spreads_along(seed, path) && path.last() == p;
    assert(field.is_hidden(path[path.len() - 1]));
}

/// Every cell that a spreading reveal uncovers surrounds a cell without any
/// mine around it that the reveal started from or uncovered: the uncovered
/// region is connected, and cells with a count lie only on its border.
pub proof fn law_spread_is_connected(field: Minefield, seed: FieldIndex, p: FieldIndex)
    requires
        field.reaches(seed, p),
    ensures
        exists|r: FieldIndex|
            (r == seed || field.reaches(seed, r)) && field.is_blank(r) && #[trigger] adjacent(r, p),
{
    let path = choose|path: Seq<FieldIndex>|
        #[trigger] field.spreads_along(seed, path) && path.last() == p;
    let n = path.len() as int;
    let r = path[n - 2];
    assert(field.is_blank(r) && adjacent(r, path[n - 2 + 1]));
    if n > 2 {
        let shorter = path.drop_last();
        assert forall|i: int| 0 <= i < shorter.len() - 1 implies field.is_blank(
            #[trigger] shorter[i],
        ) && adjacent(shorter[i], shorter[i + 1]) by {
            assert(shorter[i] == path[i]);
            assert(shorter[i + 1] == path[i + 1]);
        }
        assert forall|i: int| 1 <= i < shorter.len() implies field.is_hidden(
            #[trigger] shorter[i],
        ) && field.is_safe(shorter[i]) && shorter[i] != seed by {
            assert(shorter[i] == path[i]);
        }
        assert(field.spreads_along(seed, shorter));
        assert(shorter.last() == r);
    }
    assert(adjacent(r, p));
}

/// The region that a spreading reveal uncovers is as large as it can be:
/// around the opened cell, and around every uncovered cell of the region that
/// has no mine around it, no cell without a mine is left covered.
pub proof fn law_spread_is_maximal(
    before: Minefield,
    index: FieldIndex,
    after: Minefield,
    outcome: OpenOutcome,
    r: FieldIndex,
    q: FieldIndex,
)
    requires
        before.in_bounds(index),
        before.is_hidden(index),
        before.opens_to(index, &after, outcome),
        before.is_blank(index),
        r == index || indices_of(outcome.region@).contains(r),
        before.is_blank(r),
        adjacent(r, q),
        before.is_safe(q),
    ensures
        after.cell(q).revealed,
{
    if q != index && before.is_hidden(q) {
        before.lemma_reach_extend(index, r, q);
    }
    assert(after.cell(q) == before.cell(q) || after.cell(q) == before.cell(q).uncovered());
}

/// The cell next to `p` on the way to `seed`: `p` moved by one along the
/// first axis on which the two differ.
pub open spec fn step_toward(seed: FieldIndex, p: FieldIndex) -> FieldIndex {
    if p.x() != seed.x() {
        FieldIndex(((if p.x() < seed.x() { p.x() + 1 } else { p.x() - 1 }) as usize, p.0.1, p.0.2))
    } else if p.y() != seed.y() {
        FieldIndex((p.0.0, (if p.y() < seed.y() { p.y() + 1 } else { p.y() - 1 }) as usize, p.0.2))
    } else {
        FieldIndex((p.0.0, p.0.1, (if p.z() < seed.z() { p.z() + 1 } else { p.z() - 1 }) as usize))
    }
}

/// The number of single steps along the axes from `seed` to `p`.
pub open spec fn steps_between(seed: FieldIndex, p: FieldIndex) -> nat {
    (vstd::math::abs(p.x() - seed.x()) + vstd::math::abs(p.y() - seed.y()) + vstd::math::abs(
        p.z() - seed.z(),
    )) as nat
}

/// On a covered field without mines a reveal spreads from any cell to every
/// other cell.
pub proof fn lemma_reveal_crosses_open_field(field: Minefield, seed: FieldIndex, p: FieldIndex)
    requires
        field.in_bounds(seed),
        field.in_bounds(p),
        p != seed,
        forall|q: FieldIndex| field.in_bounds(q) ==> field.is_blank(q),
        forall|q: FieldIndex| field.in_bounds(q) && q != seed ==> field.is_hidden(q),
    ensures
        field.reaches(seed, p),
    decreases steps_between(seed, p),
{
    let q = step_toward(seed, p);
    assert(field.in_bounds(q));
    assert(adjacent(q, p));
    assert(steps_between(seed, q) < steps_between(seed, p));
    if q != seed {
        lemma_reveal_crosses_open_field(field, seed, q);
    }
    field.lemma_reach_extend(seed, q, p);
}

/// On a covered field without mines, opening any cell uncovers every cell
/// and wins the game.
pub proof fn law_open_field_is_cleared(
    before: Minefield,
    index: FieldIndex,
    after: Minefield,
    outcome: OpenOutcome,
)
    requires
        before.wf(),
        before.in_bounds(index),
        forall|p: FieldIndex| !before.is_mine(p),
        forall|p: FieldIndex| before.in_bounds(p) ==> before.is_hidden(p),
        before.opens_to(index, &after, outcome),
    ensures
        forall|p: FieldIndex| after.in_bounds(p) ==> after.cell(p).revealed,
        after.cleared(),
        outcome.victory,
        outcome.region@.len() + 1 == before.total(),
{
    assert forall|q: FieldIndex| before.in_bounds(q) implies before.is_blank(q) by {
        assert(before.neighbor_mines(q) =~= Set::empty());
        assert(!before.is_mine(q));
        assert(before.cell(q).contains is Empty);
    }
    assert forall|p: FieldIndex| before.in_bounds(p) && p != index implies before.spreads_to(
        index,
        p,
    ) by {
        lemma_reveal_crosses_open_field(before, index, p);
    }
    assert forall|p: FieldIndex| after.in_bounds(p) implies after.cell(p).revealed by {
        assert(after.cell(p) == before.cell(p).uncovered());
    }
    let listed = indices_of(outcome.region@);
    assert forall|p: FieldIndex| listed.contains(p) <==> before.in_bounds(p) && p != index by {
        if before.spreads_to(index, p) {
            law_spread_spares_mines(before, index, p);
        }
    }
    before.lemma_axes_bounded();
    lemma_box_size(before.shape());
    assert(listed.to_set() =~= box_set(before.shape()).remove(index));
    listed.unique_seq_to_set();
}

/// A move is a victory exactly when it opened a cell without a mine and left
/// no cell without a mine covered; it is a failure exactly when it opened a
/// mine, whatever else is covered.
pub proof fn law_victory(before: Minefield, index: FieldIndex, after: Minefield, outcome: OpenOutcome)
    requires
        before.in_bounds(index),
        before.open_gives(index, &after, outcome),
    ensures
        result_after(outcome) == GameResult::Victory <==> !after.is_mine(index) && after.cleared(),
        result_after(outcome) == GameResult::Failure <==> after.is_mine(index),
{
    if before.populated() {
        assert(after.cell(index) == before.cell(index).uncovered());
    } else {
        let placed = choose|placed: Minefield|
            #[trigger] before.placement_of(index, &placed) && placed.opens_to(index, &after, outcome);
        assert(after.cell(index) == placed.cell(index).uncovered());
    }
}

/// Under `Safe` and `Clear` the first move of a session never fails.
pub proof fn law_first_move_survives(
    before: Minefield,
    index: FieldIndex,
    after: Minefield,
    outcome: OpenOutcome,
)
    requires
        before.in_bounds(index),
        !before.populated(),
        before.safety() != Safety::Random,
        before.open_gives(index, &after, outcome),
    ensures
        outcome.contents is Empty,
        result_after(outcome) != GameResult::Failure,
{
    let placed = choose|placed: Minefield|
        #[trigger] before.placement_of(index, &placed) && placed.opens_to(index, &after, outcome);
    law_first_move_protected(before, index, placed);
}

/// While a session is on, a mark command on an uncovered cell and an open
/// command on a marked cell are refused.
pub proof fn law_refused_commands(session: Session, index: FieldIndex)
    requires
        session.state() != GameState::Ended,
        session.field().in_bounds(index),
    ensures
        session.field().cell(index).revealed ==> session.mark_refusal(index) == Some(
            Rejection::AlreadyRevealed,
        ),
        !session.field().cell(index).revealed && session.field().cell(index).marked
            ==> session.open_refusal(index) == Some(Rejection::Marked),
{
}

/// The density of a well-formed field never calls for more mines than the
/// field has cells.
pub proof fn law_target_fits(field: Minefield)
    requires
        field.wf(),
    ensures
        mine_target(field.total(), field.density()) <= field.total(),
{
    assert(is_fraction(field.density()));
    lemma_target_bounds(field.total() as int, field.density().0 as int, field.density().1 as int);
}

} // verus!
