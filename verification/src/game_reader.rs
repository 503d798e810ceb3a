//! Where the cells of the board lie on a 1440 by 900 screen, and where a
//! solution asks for clicks.

use crate::game::{BoardView, Element, GameState, Piece};
use vstd::prelude::*;

verus! {

/// Horizontal pixel position of the top left corner of the marble in cell
/// `(x, y)`: columns are 66 pixels apart, and each row is shifted right by
/// 33.
pub open spec fn screen_x(x: int, y: int) -> int {
    456 + 66 * x + 33 * y
}

/// Vertical pixel position of the top left corner of the marble in a cell
/// of row `y`: rows are 57 pixels apart, row 0 lowest.
pub open spec fn screen_y(y: int) -> int {
    675 - 57 * y
}

/// Whether the corner of cell `(x, y)`, moved `margin` pixels right and
/// down, can be computed in 32-bit signed arithmetic without passing zero
/// or the largest number.
pub open spec fn on_screen(x: int, y: int, margin: int) -> bool {
    x >= 0 && 0 <= y <= 11 && screen_x(x, y) + margin <= 0x7fff_ffff
}

/// Converts board coordinates to the screen coordinates of the top left
/// corner of the marble.
pub fn get_screen_coords(xi: usize, yi: usize) -> (pos: (u32, u32))
    requires
        on_screen(xi as int, yi as int, 0),
    ensures
        pos.0 == screen_x(xi as int, yi as int),
        pos.1 == screen_y(yi as int),
{
    let x = xi as u32;
    let y = yi as u32;
    (456 + 66 * x + 33 * y, 675 - 57 * y)
}

/// Converts board coordinates to the screen coordinates of the middle of
/// the marble, which is 52 pixels wide and high.
pub fn get_screen_coords_center(xi: usize, yi: usize) -> (pos: (u32, u32))
    requires
        on_screen(xi as int, yi as int, 26),
    ensures
        pos.0 == screen_x(xi as int, yi as int) + 26,
        pos.1 == screen_y(yi as int) + 26,
{
    let corner = get_screen_coords(xi, yi);
    (corner.0 + 52 / 2, corner.1 + 52 / 2)
}

/// Whether both cells of every entry of `solution` can be placed on the
/// screen.
pub open spec fn all_on_screen(solution: Seq<[usize; 4]>) -> bool {
    forall|k: int|
        0 <= k < solution.len() ==> on_screen(
            (#[trigger] solution[k])[0] as int,
            solution[k][1] as int,
            26,
        ) && on_screen(solution[k][2] as int, solution[k][3] as int, 26)
}

/// The points to click, in order, to play a solution: for each entry the
/// middle of its first cell, then the middle of its second.
pub fn click_targets(solution: &Vec<[usize; 4]>) -> (targets: Vec<(u32, u32)>)
    requires
        all_on_screen(solution@),
    ensures
        targets.len() == 2 * solution.len(),
        forall|k: int|
            #![trigger solution[k]]
            0 <= k < solution.len() ==> {
                &&& targets[2 * k].0 == screen_x(solution[k][0] as int, solution[k][1] as int) + 26
                &&& targets[2 * k].1 == screen_y(solution[k][1] as int) + 26
                &&& targets[2 * k + 1].0 == screen_x(solution[k][2] as int, solution[k][3] as int)
                    + 26
                &&& targets[2 * k + 1].1 == screen_y(solution[k][3] as int) + 26
            },
{
    let mut targets: Vec<(u32, u32)> = Vec::new();
    let mut i: usize = 0;
    while i < solution.len()
        invariant
            i <= solution.len(),
            all_on_screen(solution@),
            targets.len() == 2 * i,
            forall|k: int|
                #![trigger solution[k]]
                0 <= k < i ==> {
                    &&& targets[2 * k].0 == screen_x(solution[k][0] as int, solution[k][1] as int)
                        + 26
                    &&& targets[2 * k].1 == screen_y(solution[k][1] as int) + 26
                    &&& targets[2 * k + 1].0 == screen_x(
                        solution[k][2] as int,
                        solution[k][3] as int,
                    ) + 26
                    &&& targets[2 * k + 1].1 == screen_y(solution[k][3] as int) + 26
                },
        decreases solution.len() - i,
    {
        let action = solution[i];
        assert(on_screen(solution[i as int][0] as int, solution[i as int][1] as int, 26));
        targets.push(get_screen_coords_center(action[0], action[1]));
        targets.push(get_screen_coords_center(action[2], action[3]));
        i += 1;
    }
    targets
}

/// How far a reading of the board has come: the cells filled so far, which
/// cells are settled (a settled cell may have been found empty), and how
/// many tiles of each kind are still to be found.
pub struct Placement {
    pub cells: Seq<Option<Piece>>,
    pub settled: Seq<bool>,
    pub left: Seq<int>,
}

/// The place of a kind of tile in the stock. A metal above rank 5 has
/// none: the game holds no such tile.
pub open spec fn stock_slot(p: Piece) -> Option<int> {
    match p {
        Piece::Element(Element::Fire) => Some(0),
        Piece::Element(Element::Water) => Some(1),
        Piece::Element(Element::Earth) => Some(2),
        Piece::Element(Element::Air) => Some(3),
        Piece::Salt => Some(4),
        Piece::Metal(rank) => if rank <= 5 {
            Some(5 + rank)
        } else {
            None
        },
        Piece::Quicksilver => Some(11),
        Piece::Vitae => Some(12),
        Piece::Mors => Some(13),
    }
}

/// The tiles of a full board: eight of each element, four salts, one metal
/// of each rank, five quicksilvers, four vitae and four mors.
pub open spec fn full_stock() -> Seq<int> {
    seq![8, 8, 8, 8, 4, 1, 1, 1, 1, 1, 1, 5, 4, 4]
}

/// Whether a cell may still be read as `piece`: as empty always, as a tile
/// while the stock holds one of its kind.
pub open spec fn in_stock(left: Seq<int>, piece: Option<Piece>) -> bool {
    match piece {
        None => true,
        Some(p) => match stock_slot(p) {
            Some(slot) => left[slot] > 0,
            None => false,
        },
    }
}

/// The stock after a cell was read as `piece`.
pub open spec fn stock_after(left: Seq<int>, piece: Option<Piece>) -> Seq<int> {
    match piece {
        None => left,
        Some(p) => match stock_slot(p) {
            Some(slot) => left.update(slot, left[slot] - 1),
            None => left,
        },
    }
}

impl Placement {
    /// Nothing read yet.
    pub open spec fn start() -> Placement {
        Placement {
            cells: BoardView::empty().cells,
            settled: Seq::new(121, |i: int| false),
            left: full_stock(),
        }
    }

    /// Takes one candidate into account: it settles its cell if the cell is
    /// not settled yet and the stock allows the reading; else it is passed
    /// over.
    pub open spec fn with_candidate(self, c: (Option<Piece>, usize, usize)) -> Placement {
        let cell = c.1 * 11 + c.2;
        if !self.settled[cell] && in_stock(self.left, c.0) {
            Placement {
                cells: self.cells.update(cell, c.0),
                settled: self.settled.update(cell, true),
                left: stock_after(self.left, c.0),
            }
        } else {
            self
        }
    }

    /// Takes the candidates into account one after the other.
    pub open spec fn of(candidates: Seq<(Option<Piece>, usize, usize)>) -> Placement
        decreases candidates.len(),
    {
        if candidates.len() == 0 {
            Placement::start()
        } else {
            Placement::of(candidates.drop_last()).with_candidate(candidates.last())
        }
    }
}

/// The place of a kind of tile in the stock, if it has one.
fn slot_of(p: &Piece) -> (slot: Option<usize>)
    ensures
        match stock_slot(*p) {
            Some(i) => slot == Some(i as usize) && 0 <= i < 14,
            None => slot is None,
        },
{
    match p {
        Piece::Element(Element::Fire) => Some(0),
        Piece::Element(Element::Water) => Some(1),
        Piece::Element(Element::Earth) => Some(2),
        Piece::Element(Element::Air) => Some(3),
        Piece::Salt => Some(4),
        Piece::Metal(rank) => if *rank <= 5 {
            Some(5 + *rank as usize)
        } else {
            None
        },
        Piece::Quicksilver => Some(11),
        Piece::Vitae => Some(12),
        Piece::Mors => Some(13),
    }
}

/// Reads a board from candidate readings of its cells, best first. Each
/// candidate says what a cell may hold, a tile or nothing. A candidate
/// settles its cell unless the cell is settled already or the full stock of
/// that kind of tile is on the board. Every candidate must name a cell of
/// the square array.
pub fn place_candidates(candidates: &Vec<(Option<Piece>, usize, usize)>) -> (gs: GameState)
    requires
        forall|k: int|
            0 <= k < candidates.len() ==> (#[trigger] candidates[k]).1 < 11 && candidates[k].2
                < 11,
    ensures
        gs@.cells == Placement::of(candidates@).cells,
        gs@.metals_taken == 0,
{
    let mut gs = GameState::new();
    let mut settled: [bool; 121] = [false; 121];
    let mut left: [u8; 14] = [8, 8, 8, 8, 4, 1, 1, 1, 1, 1, 1, 5, 4, 4];
    let mut n: usize = 0;
    assert(candidates@.take(0) =~= Seq::empty());
    assert(settled@ =~= Placement::start().settled);
    assert(left@.map_values(|v: u8| v as int) =~= full_stock());
    while n < candidates.len()
        invariant
            n <= candidates.len(),
            forall|k: int|
                0 <= k < candidates.len() ==> (#[trigger] candidates[k]).1 < 11 && candidates[k].2
                    < 11,
            gs@.cells == Placement::of(candidates@.take(n as int)).cells,
            gs@.metals_taken == 0,
            settled@ == Placement::of(candidates@.take(n as int)).settled,
            left@.map_values(|v: u8| v as int) == Placement::of(candidates@.take(n as int)).left,
        decreases candidates.len() - n,
    {
        let (piece, x, y) = candidates[n];
        let ghost so_far = Placement::of(candidates@.take(n as int));
        proof {
            assert(candidates@.take(n + 1).drop_last() =~= candidates@.take(n as int));
            assert(candidates@.take(n + 1).last() == candidates[n as int]);
            assert(left@.map_values(|v: u8| v as int).len() == 14);
        }
        if !settled[x * 11 + y] {
            let slot = match &piece {
                Some(p) => slot_of(p),
                None => None,
            };
            let free = match (&piece, slot) {
                (None, _) => true,
                (Some(_), Some(i)) => left[i] > 0,
                (Some(_), None) => false,
            };
            assert(free == in_stock(so_far.left, piece)) by {
                if let Some(i) = slot {
                    assert(left@.map_values(|v: u8| v as int)[i as int] == left@[i as int]);
                }
            }
            if free {
                settled[x * 11 + y] = true;
                if let Some(i) = slot {
                    let ghost before = left@;
                    left[i] = left[i] - 1;
                    assert(left@.map_values(|v: u8| v as int) =~= before.map_values(
                        |v: u8| v as int,
                    ).update(i as int, before[i as int] - 1));
                }
                let _ = gs.set_piece(piece, x, y);
            }
        }
        n += 1;
    }
    assert(candidates@.take(n as int) =~= candidates@);
    gs
}

} // verus!
