use sweeper_3d::cell::{Cell, Contains};
use sweeper_3d::display::BlockDisplay;
use sweeper_3d::index::{is_adjacent, FieldIndex};
use sweeper_3d::minefield::Minefield;
use sweeper_3d::opening::{EndReveal, OpenOutcome, Revealed};
use sweeper_3d::settings::{Density, Safety};

fn field_with(size: [usize; 3], mines: &[(usize, usize, usize)]) -> Minefield {
    let mut field = Minefield::new(size, Density::zero(), Safety::Clear).unwrap();
    field.lay_mines(&mines.iter().map(|m| FieldIndex(*m)).collect());
    field
}

fn revealed_cells(field: &Minefield) -> Vec<FieldIndex> {
    field.positions().into_iter().filter(|p| field.get(*p).unwrap().revealed).collect()
}

#[test]
fn opening_the_corner_opposite_a_single_mine() {
    let mine = FieldIndex((2, 2, 2));
    let mut field = field_with([3, 3, 3], &[(2, 2, 2)]);
    let outcome = field.uncover(FieldIndex((0, 0, 0)));
    assert_eq!(outcome.contents, Contains::Empty { adjacent_mines: 0 });
    // the opened corner and the cells around it hold no mine
    for q in field.adjacent_cells(FieldIndex((0, 0, 0))) {
        assert_ne!(field.get(q).unwrap().contains, Contains::Mine);
    }
    // every cell but the mine is uncovered, the opened one apart from the region
    assert_eq!(outcome.region.len(), 25);
    assert!(!outcome.region.iter().any(|r| r.index == FieldIndex((0, 0, 0))));
    assert!(!outcome.region.iter().any(|r| r.index == mine));
    assert!(!field.get(mine).unwrap().revealed);
    for p in field.positions() {
        let cell = field.get(p).unwrap();
        assert_eq!(cell.revealed, p != mine);
        if is_adjacent(p, mine) {
            // the fill stops at the cells next to the mine: they are shown with their count
            assert_eq!(cell.contains, Contains::Empty { adjacent_mines: 1 });
            assert!(outcome.region.contains(&Revealed { index: p, contents: cell.contains }));
        }
    }
    assert_eq!(outcome.region.iter().filter(|r| r.contents == Contains::Empty { adjacent_mines: 1 }).count(), 7);
    assert!(outcome.victory);
}

#[test]
fn a_reveal_does_not_spread_through_a_cell_with_a_count() {
    let mut field = field_with([1, 1, 6], &[(0, 0, 3)]);
    let outcome = field.uncover(FieldIndex((0, 0, 0)));
    assert_eq!(
        outcome,
        OpenOutcome {
            contents: Contains::Empty { adjacent_mines: 0 },
            region: vec![
                Revealed { index: FieldIndex((0, 0, 1)), contents: Contains::Empty { adjacent_mines: 0 } },
                Revealed { index: FieldIndex((0, 0, 2)), contents: Contains::Empty { adjacent_mines: 1 } },
            ],
            victory: false,
        }
    );
    assert_eq!(
        revealed_cells(&field),
        vec![FieldIndex((0, 0, 0)), FieldIndex((0, 0, 1)), FieldIndex((0, 0, 2))]
    );
    assert!(!field.fully_revealed());
}

#[test]
fn opening_a_cell_with_a_count_uncovers_only_that_cell() {
    let mut field = field_with([1, 1, 6], &[(0, 0, 3)]);
    let outcome = field.uncover(FieldIndex((0, 0, 4)));
    assert_eq!(
        outcome,
        OpenOutcome { contents: Contains::Empty { adjacent_mines: 1 }, region: vec![], victory: false }
    );
    assert_eq!(revealed_cells(&field), vec![FieldIndex((0, 0, 4))]);
}

#[test]
fn opening_a_mine_uncovers_it_and_nothing_else() {
    let mut field = field_with([3, 3, 3], &[(1, 1, 1)]);
    let outcome = field.uncover(FieldIndex((1, 1, 1)));
    assert_eq!(outcome, OpenOutcome { contents: Contains::Mine, region: vec![], victory: false });
    assert_eq!(revealed_cells(&field), vec![FieldIndex((1, 1, 1))]);
}

#[test]
fn opening_a_mine_is_no_victory_even_when_nothing_else_is_covered() {
    let mut field = field_with([1, 1, 2], &[(0, 0, 0)]);
    let first = field.uncover(FieldIndex((0, 0, 1)));
    assert!(first.victory);
    let second = field.uncover(FieldIndex((0, 0, 0)));
    assert_eq!(second.contents, Contains::Mine);
    assert!(!second.victory);
    let mut all_mines = field_with([1, 1, 1], &[(0, 0, 0)]);
    assert!(all_mines.fully_revealed());
    assert!(!all_mines.uncover(FieldIndex((0, 0, 0))).victory);
}

#[test]
fn victory_comes_with_the_last_safe_cell() {
    let mut field = field_with([1, 1, 5], &[(0, 0, 2)]);
    assert!(!field.uncover(FieldIndex((0, 0, 0))).victory);
    assert!(!field.fully_revealed());
    assert!(!field.uncover(FieldIndex((0, 0, 3))).victory);
    assert!(field.uncover(FieldIndex((0, 0, 4))).victory);
    assert!(field.fully_revealed());
    assert!(!field.get(FieldIndex((0, 0, 2))).unwrap().revealed);
}

#[test]
fn a_reveal_spreads_through_marked_cells() {
    let mut field = field_with([1, 1, 6], &[(0, 0, 5)]);
    assert!(field.mark(FieldIndex((0, 0, 1))));
    assert!(field.mark(FieldIndex((0, 0, 4))));
    let outcome = field.uncover(FieldIndex((0, 0, 0)));
    assert_eq!(outcome.region.len(), 4);
    assert_eq!(
        field.get(FieldIndex((0, 0, 1))),
        Some(Cell {
            contains: Contains::Empty { adjacent_mines: 0 },
            revealed: true,
            marked: true,
            block: None
        })
    );
    assert!(field.get(FieldIndex((0, 0, 4))).unwrap().revealed);
    assert!(outcome.victory);
}

#[test]
fn a_reveal_spreads_diagonally() {
    // Two empty corners of a 2 x 2 x 1 slab touch only at an edge; mines fill a far plane.
    let mut field = field_with([3, 3, 3], &[(2, 0, 0), (2, 0, 1), (2, 0, 2), (2, 1, 0), (2, 1, 1), (2, 1, 2), (2, 2, 0), (2, 2, 1), (2, 2, 2)]);
    let outcome = field.uncover(FieldIndex((0, 2, 2)));
    assert_eq!(outcome.region.len(), 17);
    for p in field.positions() {
        assert_eq!(field.get(p).unwrap().revealed, p.0 .0 < 2);
    }
    assert!(outcome.victory);
}

#[test]
fn a_region_lists_each_cell_once_with_its_contents() {
    let mut field = field_with([5, 5, 5], &[(0, 0, 0), (4, 4, 4), (2, 2, 2), (0, 4, 2)]);
    let before: Vec<(FieldIndex, Cell)> =
        field.positions().into_iter().map(|p| (p, field.get(p).unwrap())).collect();
    let outcome = field.uncover(FieldIndex((4, 0, 0)));
    assert!(outcome.region.len() < 125);
    for (n, r) in outcome.region.iter().enumerate() {
        assert!(!outcome.region[..n].iter().any(|s| s.index == r.index));
        assert_ne!(r.contents, Contains::Mine);
        assert_eq!(field.get(r.index).unwrap().contents_pair(), (r.contents, true));
    }
    for (p, cell) in before {
        let now = field.get(p).unwrap();
        let shown = p == FieldIndex((4, 0, 0)) || outcome.region.iter().any(|r| r.index == p);
        assert_eq!(now, Cell { revealed: shown, ..cell });
    }
}

trait ContentsPair {
    fn contents_pair(&self) -> (Contains, bool);
}

impl ContentsPair for Cell {
    fn contents_pair(&self) -> (Contains, bool) {
        (self.contains, self.revealed)
    }
}

#[test]
fn a_region_is_closed_under_spreading() {
    let mut field = field_with([6, 6, 2], &[(0, 3, 0), (1, 3, 1), (2, 3, 0), (3, 3, 0), (3, 2, 1), (3, 1, 0), (3, 0, 1)]);
    let seed = FieldIndex((0, 0, 0));
    let outcome = field.uncover(seed);
    assert_eq!(outcome.contents, Contains::Empty { adjacent_mines: 0 });
    for p in field.positions() {
        let cell = field.get(p).unwrap();
        if cell.revealed && cell.contains == (Contains::Empty { adjacent_mines: 0 }) {
            for q in field.adjacent_cells(p) {
                let around = field.get(q).unwrap();
                assert!(around.revealed);
                assert_ne!(around.contains, Contains::Mine);
            }
        }
        if cell.revealed && p != seed {
            assert!(field.adjacent_cells(p).into_iter().any(|q| {
                let c = field.get(q).unwrap();
                c.revealed && c.contains == (Contains::Empty { adjacent_mines: 0 })
            }));
        }
    }
    assert!(!field.get(FieldIndex((5, 5, 1))).unwrap().revealed);
    assert!(!outcome.victory);
}

#[test]
fn flood_fill_from_an_uncovered_blank_cell() {
    let mut field = field_with([1, 4, 1], &[(0, 3, 0)]);
    let seed = FieldIndex((0, 0, 0));
    // uncover the seed by hand, then spread
    let mut other = field_with([1, 4, 1], &[(0, 3, 0)]);
    let whole = other.uncover(seed);
    assert!(field.uncover(FieldIndex((0, 2, 0))).region.is_empty());
    let outcome = field.uncover(seed);
    // the cell with the count was uncovered before and is not listed again
    assert_eq!(
        outcome.region,
        vec![Revealed { index: FieldIndex((0, 1, 0)), contents: Contains::Empty { adjacent_mines: 0 } }]
    );
    assert_eq!(whole.region.len(), 2);
    assert!(outcome.victory);
}

#[test]
fn flood_fill_on_a_field_without_mines_uncovers_everything() {
    let mut field = Minefield::new([4, 3, 2], Density::zero(), Safety::Clear).unwrap();
    field.lay_mines(&Vec::new());
    let seed = FieldIndex((3, 2, 1));
    let first = field.uncover(seed);
    assert_eq!(first.region.len(), 23);
    assert!(first.victory);
    let again = field.flood_fill(seed);
    assert!(again.is_empty());
}

#[test]
fn marks_flip_on_covered_cells_only() {
    let mut field = field_with([1, 1, 3], &[(0, 0, 2)]);
    let p = FieldIndex((0, 0, 1));
    assert!(field.mark(p));
    assert!(field.get(p).unwrap().marked);
    assert!(!field.mark(p));
    assert!(!field.get(p).unwrap().marked);
    field.uncover(p);
    let before = field.get(p);
    assert!(!field.mark(p));
    assert_eq!(field.get(p), before);
    // a mark changes neither the mines nor the win condition
    assert!(field.mark(FieldIndex((0, 0, 2))));
    assert_eq!(field.get(FieldIndex((0, 0, 2))).unwrap().contains, Contains::Mine);
    assert!(!field.fully_revealed());
}

#[test]
fn reveal_all_shows_what_was_covered() {
    let mut field = field_with([1, 1, 4], &[(0, 0, 2), (0, 0, 3)]);
    field.mark(FieldIndex((0, 0, 3)));
    field.uncover(FieldIndex((0, 0, 0)));
    let shown = field.reveal_all();
    assert_eq!(shown.len(), 2);
    assert!(shown.contains(&EndReveal {
        index: FieldIndex((0, 0, 2)),
        contents: Contains::Mine,
        was_marked: false
    }));
    assert!(shown.contains(&EndReveal {
        index: FieldIndex((0, 0, 3)),
        contents: Contains::Mine,
        was_marked: true
    }));
    assert_eq!(revealed_cells(&field).len(), 4);
    assert!(field.get(FieldIndex((0, 0, 3))).unwrap().marked);
    assert!(field.reveal_all().is_empty());
}

#[test]
fn open_places_the_mines_on_the_first_move() {
    for _ in 0..30 {
        let mut field = Minefield::new([4, 4, 4], Density::new(1, 5).unwrap(), Safety::Clear).unwrap();
        let first = FieldIndex((1, 2, 3));
        let outcome = field.open(first);
        assert!(field.is_populated());
        assert_eq!(outcome.contents, Contains::Empty { adjacent_mines: 0 });
        assert!(outcome.region.len() >= field.adjacent_cells(first).len());
        let mines = field
            .positions()
            .into_iter()
            .filter(|p| field.get(*p).unwrap().contains == Contains::Mine)
            .count();
        assert_eq!(mines, 13);
    }
}

#[test]
fn open_leaves_placed_mines_where_they_are() {
    let mut field = field_with([2, 2, 2], &[(1, 1, 1)]);
    let outcome = field.open(FieldIndex((1, 1, 1)));
    assert_eq!(outcome.contents, Contains::Mine);
    let mines = field
        .positions()
        .into_iter()
        .filter(|p| field.get(*p).unwrap().contains == Contains::Mine)
        .count();
    assert_eq!(mines, 1);
}

#[test]
fn cells_are_displayed_by_their_state() {
    let hidden = Cell::default();
    assert_eq!(BlockDisplay::during_play(&hidden), BlockDisplay::Hidden);
    assert_eq!(BlockDisplay::during_play(&Cell { marked: true, ..hidden }), BlockDisplay::Marked);
    assert_eq!(
        BlockDisplay::during_play(&Cell {
            revealed: true,
            contains: Contains::Empty { adjacent_mines: 4 },
            ..hidden
        }),
        BlockDisplay::Revealed { adjacent_mines: 4 }
    );
    assert_eq!(
        BlockDisplay::during_play(&Cell { revealed: true, marked: true, contains: Contains::Mine, ..hidden }),
        BlockDisplay::RevealedMine
    );
}

#[test]
fn cells_are_displayed_as_they_are_uncovered_or_marked() {
    assert_eq!(BlockDisplay::uncovered(Contains::Mine), BlockDisplay::RevealedMine);
    assert_eq!(
        BlockDisplay::uncovered(Contains::Empty { adjacent_mines: 26 }),
        BlockDisplay::Revealed { adjacent_mines: 26 }
    );
    assert_eq!(BlockDisplay::covered(true), BlockDisplay::Marked);
    assert_eq!(BlockDisplay::covered(false), BlockDisplay::Hidden);
}

#[test]
fn mines_are_displayed_at_the_end_by_what_the_player_did() {
    assert_eq!(BlockDisplay::end_of_round(Contains::Mine, true, false), BlockDisplay::MissedMine);
    assert_eq!(BlockDisplay::end_of_round(Contains::Mine, true, true), BlockDisplay::MissedMine);
    assert_eq!(BlockDisplay::end_of_round(Contains::Mine, false, true), BlockDisplay::MarkedMine);
    assert_eq!(BlockDisplay::end_of_round(Contains::Mine, false, false), BlockDisplay::RevealedMine);
    assert_eq!(
        BlockDisplay::end_of_round(Contains::Empty { adjacent_mines: 3 }, false, true),
        BlockDisplay::Revealed { adjacent_mines: 3 }
    );
}
