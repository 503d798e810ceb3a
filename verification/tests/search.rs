use hex_match::game::{Element, GameState, Piece};

fn board_of(tiles: &[(Piece, usize, usize)]) -> GameState {
    let mut gs = GameState::new();
    for (p, x, y) in tiles {
        assert!(gs.set_piece(Some(*p), *x, *y).is_ok());
    }
    gs
}

fn replay_clears(start: &GameState, moves: &Vec<[usize; 4]>) -> bool {
    let mut gs = start.clone();
    let (last, steps) = match moves.split_last() {
        Some(parts) => parts,
        None => return false,
    };
    for m in steps {
        if !gs.remove_pair(m[0], m[1], m[2], m[3]) {
            return false;
        }
    }
    *last == [5, 5, 5, 5] && gs.is_solved()
}

const AIR: Piece = Piece::Element(Element::Air);
const FIRE: Piece = Piece::Element(Element::Fire);

#[test]
fn cleared_board_gives_the_closing_entry() {
    let mut gs = GameState::new();
    assert_eq!(gs.solve(), Some(vec![[5, 5, 5, 5]]));
    let mut gs = board_of(&[(Piece::Metal(5), 5, 5)]);
    assert_eq!(gs.solve(), Some(vec![[5, 5, 5, 5]]));
}

#[test]
fn single_leftover_tile_is_unsolvable() {
    for (x, y) in [(0, 5), (5, 6), (10, 5), (3, 3), (7, 8)] {
        let mut gs = board_of(&[(AIR, x, y)]);
        assert_eq!(gs.solve(), None);
    }
    let mut gs = board_of(&[(Piece::Salt, 2, 9)]);
    assert_eq!(gs.solve(), None);
}

#[test]
fn two_matching_tiles_give_one_step() {
    let mut gs = board_of(&[(AIR, 3, 4), (AIR, 7, 6)]);
    assert_eq!(gs.solve(), Some(vec![[3, 4, 7, 6], [5, 5, 5, 5]]));
    let mut gs = board_of(&[(AIR, 5, 6), (AIR, 5, 7)]);
    assert_eq!(gs.solve(), Some(vec![[5, 6, 5, 7], [5, 5, 5, 5]]));
}

#[test]
fn two_tiles_that_do_not_pair_are_unsolvable() {
    let mut gs = board_of(&[(AIR, 3, 4), (FIRE, 7, 6)]);
    assert_eq!(gs.solve(), None);
    let mut gs = board_of(&[(Piece::Quicksilver, 3, 4), (Piece::Salt, 7, 6)]);
    assert_eq!(gs.solve(), None);
}

#[test]
fn solve_restores_the_board_after_success() {
    let tiles = [
        (AIR, 3, 4),
        (AIR, 7, 6),
        (Piece::Metal(0), 2, 8),
        (Piece::Quicksilver, 8, 2),
        (Piece::Vitae, 0, 7),
        (Piece::Mors, 9, 5),
    ];
    let mut gs = board_of(&tiles);
    let reference = board_of(&tiles);
    let solution = gs.solve();
    assert!(solution.is_some());
    assert_eq!(gs, reference);
    assert_eq!(gs.metals_taken(), 0);
    for x in 0..11 {
        for y in 0..11 {
            assert_eq!(gs.get_piece(x, y), reference.get_piece(x, y));
        }
    }
}

#[test]
fn solve_restores_the_board_after_failure() {
    let tiles = [
        (AIR, 3, 4),
        (AIR, 7, 6),
        (Piece::Metal(0), 2, 8),
        (Piece::Quicksilver, 8, 2),
        (Piece::Vitae, 0, 7),
    ];
    let mut gs = board_of(&tiles);
    let reference = board_of(&tiles);
    assert_eq!(gs.solve(), None);
    assert_eq!(gs, reference);
    assert_eq!(gs.metals_taken(), 0);
}

#[test]
fn solve_takes_pairs_in_scan_order() {
    let mut gs = board_of(&[
        (AIR, 3, 4),
        (Piece::Salt, 5, 8),
        (AIR, 7, 6),
        (Piece::Salt, 9, 3),
    ]);
    assert_eq!(
        gs.solve(),
        Some(vec![[3, 4, 5, 8], [7, 6, 9, 3], [5, 5, 5, 5]])
    );
}

#[test]
fn solve_backtracks_out_of_a_dead_end() {
    // Pairing the first salt with the air strands the second air.
    let tiles = [
        (Piece::Salt, 1, 5),
        (AIR, 3, 5),
        (AIR, 5, 7),
        (Piece::Salt, 7, 5),
        (FIRE, 9, 3),
        (FIRE, 9, 5),
    ];
    let mut gs = board_of(&tiles);
    let reference = board_of(&tiles);
    let solution = gs.solve().expect("the board can be cleared");
    assert_eq!(solution.len(), 4);
    assert!(replay_clears(&reference, &solution));
    assert_eq!(gs, reference);
}

#[test]
fn solve_takes_metals_in_order_of_rank() {
    let tiles = [
        (Piece::Metal(1), 1, 5),
        (Piece::Quicksilver, 3, 5),
        (Piece::Metal(0), 5, 7),
        (Piece::Quicksilver, 7, 5),
    ];
    let mut gs = board_of(&tiles);
    let reference = board_of(&tiles);
    let solution = gs.solve().expect("the board can be cleared");
    assert_eq!(
        solution,
        vec![[3, 5, 5, 7], [1, 5, 7, 5], [5, 5, 5, 5]]
    );
    assert!(replay_clears(&reference, &solution));
    assert_eq!(gs.metals_taken(), 0);
}

#[test]
fn metal_out_of_turn_blocks_the_board() {
    let mut gs = board_of(&[(Piece::Metal(1), 1, 5), (Piece::Quicksilver, 3, 5)]);
    assert_eq!(gs.solve(), None);
}

#[test]
fn enclosed_tiles_are_freed_by_earlier_removals() {
    // The fire at the centre of the ring is open only once three salts
    // in a row have left.
    let mut tiles = vec![(FIRE, 5, 5), (FIRE, 0, 5)];
    for (x, y) in [(6, 5), (6, 4), (5, 4), (4, 5), (4, 6), (5, 6)] {
        tiles.push((Piece::Salt, x, y));
    }
    let mut gs = board_of(&tiles);
    let reference = board_of(&tiles);
    let solution = gs.solve().expect("the board can be cleared");
    assert_eq!(solution.len(), 5);
    assert!(replay_clears(&reference, &solution));
    assert_eq!(gs, reference);
}

#[test]
fn tile_in_the_padding_can_never_leave() {
    let mut gs = board_of(&[(AIR, 0, 0), (AIR, 5, 6)]);
    assert_eq!(gs.solve(), None);
}

#[test]
fn remove_pair_refuses_what_the_rules_forbid() {
    let tiles = [(AIR, 3, 4), (FIRE, 7, 6), (AIR, 9, 2)];
    let mut gs = board_of(&tiles);
    let reference = board_of(&tiles);
    assert!(!gs.remove_pair(3, 4, 3, 4));
    assert!(!gs.remove_pair(3, 4, 7, 6));
    assert!(!gs.remove_pair(3, 4, 5, 5));
    assert!(!gs.remove_pair(11, 4, 3, 4));
    assert_eq!(gs, reference);
    assert!(gs.remove_pair(9, 2, 3, 4));
    assert_eq!(gs.get_piece(3, 4), None);
    assert_eq!(gs.get_piece(9, 2), None);
    assert_eq!(gs.get_piece(7, 6), Some(&FIRE));
    assert_eq!(gs.metals_taken(), 0);
}

#[test]
fn remove_pair_counts_metals() {
    let mut gs = board_of(&[
        (Piece::Metal(0), 1, 5),
        (Piece::Quicksilver, 3, 5),
        (Piece::Vitae, 5, 7),
        (Piece::Mors, 7, 5),
    ]);
    assert!(gs.remove_pair(5, 7, 7, 5));
    assert_eq!(gs.metals_taken(), 0);
    assert!(gs.remove_pair(3, 5, 1, 5));
    assert_eq!(gs.metals_taken(), 1);
}
