use hex_match::game::{Element, GameState, Piece};
use hex_match::game_reader::{
    click_targets, get_screen_coords, get_screen_coords_center, place_candidates,
};
use hex_match::screenshot::rgba_from_bgra;

#[test]
fn corner_of_a_cell_on_screen() {
    assert_eq!(get_screen_coords(0, 0), (456, 675));
    assert_eq!(get_screen_coords(1, 0), (522, 675));
    assert_eq!(get_screen_coords(0, 1), (489, 618));
    assert_eq!(get_screen_coords(5, 5), (951, 390));
    assert_eq!(get_screen_coords(10, 10), (1446, 105));
    assert_eq!(get_screen_coords(10, 11), (1479, 48));
}

#[test]
fn middle_of_a_cell_on_screen() {
    assert_eq!(get_screen_coords_center(0, 0), (482, 701));
    assert_eq!(get_screen_coords_center(5, 5), (977, 416));
    assert_eq!(get_screen_coords_center(10, 0), (1142, 701));
}

#[test]
fn clicks_follow_the_solution() {
    let solution = vec![[3, 4, 7, 6], [5, 5, 5, 5]];
    assert_eq!(
        click_targets(&solution),
        vec![(812, 473), (1142, 359), (977, 416), (977, 416)]
    );
    assert_eq!(click_targets(&Vec::new()), Vec::new());
}

#[test]
fn clicks_of_a_found_solution() {
    let mut gs = GameState::new();
    let air = Some(Piece::Element(Element::Air));
    assert!(gs.set_piece(air, 0, 5).is_ok());
    assert!(gs.set_piece(air, 10, 5).is_ok());
    let solution = gs.solve().expect("two matching tiles");
    assert_eq!(
        click_targets(&solution),
        vec![(647, 416), (1307, 416), (977, 416), (977, 416)]
    );
}

#[test]
fn frame_bytes_are_reordered() {
    let frame = [1u8, 2, 3, 4, 5, 6, 7, 8, 9, 9];
    assert_eq!(rgba_from_bgra(2, 1, &frame), vec![3, 2, 1, 255, 7, 6, 5, 255]);
    assert_eq!(rgba_from_bgra(1, 2, &frame), vec![3, 2, 1, 255, 7, 6, 5, 255]);
    assert_eq!(rgba_from_bgra(1, 1, &frame), vec![3, 2, 1, 255]);
    assert_eq!(rgba_from_bgra(0, 7, &frame), Vec::<u8>::new());
    assert_eq!(rgba_from_bgra(3, 0, &[]), Vec::<u8>::new());
}

#[test]
fn first_candidate_settles_a_cell() {
    let fire = Some(Piece::Element(Element::Fire));
    let water = Some(Piece::Element(Element::Water));
    let gs = place_candidates(&vec![
        (fire, 5, 5),
        (water, 5, 5),
        (None, 5, 6),
        (Some(Piece::Salt), 5, 6),
        (water, 4, 6),
    ]);
    assert_eq!(gs.get_piece(5, 5), Some(&Piece::Element(Element::Fire)));
    assert_eq!(gs.get_piece(5, 6), None);
    assert_eq!(gs.get_piece(4, 6), Some(&Piece::Element(Element::Water)));
    assert_eq!(gs.metals_taken(), 0);
    let mut expected = GameState::new();
    assert!(expected.set_piece(fire, 5, 5).is_ok());
    assert!(expected.set_piece(water, 4, 6).is_ok());
    assert_eq!(gs, expected);
}

#[test]
fn no_candidates_give_an_empty_board() {
    assert_eq!(place_candidates(&Vec::new()), GameState::new());
}

#[test]
fn a_kind_out_of_stock_is_passed_over() {
    let lead = Some(Piece::Metal(0));
    let gs = place_candidates(&vec![
        (lead, 2, 5),
        (lead, 3, 5),
        (Some(Piece::Vitae), 3, 5),
        (Some(Piece::Metal(6)), 4, 5),
        (Some(Piece::Mors), 4, 5),
    ]);
    assert_eq!(gs.get_piece(2, 5), Some(&Piece::Metal(0)));
    assert_eq!(gs.get_piece(3, 5), Some(&Piece::Vitae));
    assert_eq!(gs.get_piece(4, 5), Some(&Piece::Mors));
}

#[test]
fn stock_of_each_kind() {
    let kinds = [
        (Piece::Element(Element::Fire), 8),
        (Piece::Element(Element::Water), 8),
        (Piece::Element(Element::Earth), 8),
        (Piece::Element(Element::Air), 8),
        (Piece::Salt, 4),
        (Piece::Metal(0), 1),
        (Piece::Metal(1), 1),
        (Piece::Metal(2), 1),
        (Piece::Metal(3), 1),
        (Piece::Metal(4), 1),
        (Piece::Metal(5), 1),
        (Piece::Metal(6), 0),
        (Piece::Metal(255), 0),
        (Piece::Quicksilver, 5),
        (Piece::Vitae, 4),
        (Piece::Mors, 4),
    ];
    for (piece, stock) in kinds {
        let mut candidates = Vec::new();
        for y in 0..11 {
            candidates.push((Some(piece), 5, y));
        }
        let gs = place_candidates(&candidates);
        for y in 0..11 {
            let expected = if y < stock { Some(&piece) } else { None };
            assert_eq!(gs.get_piece(5, y), expected, "{:?} at row {}", piece, y);
        }
    }
}

#[test]
fn a_cell_found_empty_stays_empty() {
    let gs = place_candidates(&vec![(None, 0, 0), (Some(Piece::Salt), 0, 0), (None, 10, 10)]);
    assert_eq!(gs, GameState::new());
}

#[test]
fn dump_of_an_empty_board() {
    let text = GameState::new().render();
    let mut expected = String::new();
    for y in (0..11).rev() {
        expected.push_str(&" ".repeat(y));
        expected.push_str(&"  ".repeat(11));
        expected.push('\n');
    }
    assert_eq!(text, expected);
}

#[test]
fn dump_shows_each_tile_in_its_row() {
    let mut gs = GameState::new();
    assert!(gs.set_piece(Some(Piece::Element(Element::Fire)), 0, 10).is_ok());
    assert!(gs.set_piece(Some(Piece::Metal(3)), 5, 5).is_ok());
    assert!(gs.set_piece(Some(Piece::Metal(12)), 10, 0).is_ok());
    assert!(gs.set_piece(Some(Piece::Quicksilver), 1, 0).is_ok());
    let text = gs.render();
    let lines: Vec<&str> = text.split('\n').collect();
    assert_eq!(lines.len(), 12);
    assert_eq!(lines[11], "");
    assert_eq!(lines[0], format!("{}F {}", " ".repeat(10), "  ".repeat(10)));
    assert_eq!(
        lines[5],
        format!("{}{}3 {}", " ".repeat(5), "  ".repeat(5), "  ".repeat(5))
    );
    assert_eq!(lines[10], format!("  Q {}12 ", "  ".repeat(8)));
    assert_eq!(lines[1], format!("{}{}", " ".repeat(9), "  ".repeat(11)));
}

#[test]
fn dump_of_the_sample_layout() {
    let text = GameState::example().render();
    let lines: Vec<&str> = text.split('\n').collect();
    assert_eq!(lines[0], "          W         F           ");
    assert_eq!(lines[1], "           F 3 2 F 0           ");
    assert_eq!(lines[4], "        M A F     E   W     ");
    assert_eq!(lines[5], "     A E V F   5   A M Q A ");
    assert_eq!(lines[10], "          E         A ");
}
