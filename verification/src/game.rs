//! The board model: tiles, the hexagonal grid, and the rules of pairing
//! and removability.

use vstd::prelude::*;

verus! {

/// The four elements. They are compared by equality only.
#[derive(PartialEq, Eq, Structural, Copy, Clone, Debug, Hash)]
pub enum Element {
    Water,
    Fire,
    Earth,
    Air,
}

/// A tile. A metal carries its rank, 0 for the basest.
#[derive(PartialEq, Eq, Structural, Copy, Clone, Debug, Hash)]
pub enum Piece {
    Element(Element),
    Salt,
    Metal(u8),
    Quicksilver,
    Vitae,
    Mors,
}

/// The message of the error that `set_piece` gives outside the square array.
pub const OUT_OF_BOUNDS: &'static str = "Attempted to place piece out of bounds";

/// The type-level pairing relation: equal elements, salt with an element or
/// with salt, a metal with quicksilver, vitae with mors. Ranks play no part.
pub open spec fn legal_pair_spec(a: Piece, b: Piece) -> bool {
    match (a, b) {
        (Piece::Element(e), Piece::Element(f)) => e == f,
        (Piece::Element(_), Piece::Salt) => true,
        (Piece::Salt, Piece::Element(_)) => true,
        (Piece::Salt, Piece::Salt) => true,
        (Piece::Metal(_), Piece::Quicksilver) => true,
        (Piece::Quicksilver, Piece::Metal(_)) => true,
        (Piece::Vitae, Piece::Mors) => true,
        (Piece::Mors, Piece::Vitae) => true,
        _ => false,
    }
}

/// Pairing does not depend on the order of the two tiles.
pub proof fn lemma_legal_pair_symmetric(a: Piece, b: Piece)
    ensures
        legal_pair_spec(a, b) == legal_pair_spec(b, a),
{
}

/// The character of a decimal digit.
pub open spec fn digit_char(d: nat) -> char {
    if d == 0 {
        '0'
    } else if d == 1 {
        '1'
    } else if d == 2 {
        '2'
    } else if d == 3 {
        '3'
    } else if d == 4 {
        '4'
    } else if d == 5 {
        '5'
    } else if d == 6 {
        '6'
    } else if d == 7 {
        '7'
    } else if d == 8 {
        '8'
    } else {
        '9'
    }
}

/// A number written in decimal, without leading zeros.
pub open spec fn decimal(n: nat) -> Seq<char>
    decreases n,
{
    if n < 10 {
        seq![digit_char(n)]
    } else {
        decimal(n / 10).push(digit_char(n % 10))
    }
}

/// The glyph of a tile: a letter for each kind, and for a metal its rank
/// in decimal.
pub open spec fn glyph(p: Piece) -> Seq<char> {
    match p {
        Piece::Element(Element::Fire) => seq!['F'],
        Piece::Element(Element::Water) => seq!['W'],
        Piece::Element(Element::Earth) => seq!['E'],
        Piece::Element(Element::Air) => seq!['A'],
        Piece::Salt => seq!['S'],
        Piece::Metal(rank) => decimal(rank as nat),
        Piece::Quicksilver => seq!['Q'],
        Piece::Vitae => seq!['V'],
        Piece::Mors => seq!['M'],
    }
}

/// Formats a rank with std's `format!`, that is with `Display` for `u8`,
/// which writes the number in decimal without sign, padding or leading
/// zeros. This contract is taken from std's documentation, not proved.
#[verifier::external_body]
fn rank_string(rank: u8) -> (s: String)
    ensures
        s@ == decimal(rank as nat),
{
    format!("{}", rank)
}

/// Whether `(x, y)` is a cell of the hexagon: inside the square array and
/// inside the band `5 <= x + y <= 15`.
pub open spec fn on_board_spec(x: int, y: int) -> bool {
    0 <= x < 11 && 0 <= y < 11 && 5 <= x + y <= 15
}

/// The neighbour of `(x, y)` in direction `k`, counted cyclically.
pub open spec fn neighbor(x: int, y: int, k: int) -> (int, int) {
    let d = k % 6;
    if d == 0 {
        (x + 1, y)
    } else if d == 1 {
        (x + 1, y - 1)
    } else if d == 2 {
        (x, y - 1)
    } else if d == 3 {
        (x - 1, y)
    } else if d == 4 {
        (x - 1, y + 1)
    } else {
        (x, y + 1)
    }
}

/// The place of a cell in the scan order.
pub open spec fn cell_index(c: (usize, usize)) -> int {
    c.0 * 11 + c.1
}

/// The coordinates `(x, y)` as a pair of machine integers.
pub open spec fn cell_at(x: int, y: int) -> (usize, usize) {
    (x as usize, y as usize)
}

/// How many of the cells hold a tile.
pub open spec fn count_tiles(cells: Seq<Option<Piece>>) -> nat
    decreases cells.len(),
{
    if cells.len() == 0 {
        0
    } else {
        count_tiles(cells.drop_last()) + if cells.last() is Some {
            1nat
        } else {
            0nat
        }
    }
}

/// Emptying an occupied cell leaves one tile fewer.
pub proof fn lemma_count_after_clearing(cells: Seq<Option<Piece>>, i: int)
    requires
        0 <= i < cells.len(),
        cells[i] is Some,
    ensures
        count_tiles(cells.update(i, None)) + 1 == count_tiles(cells),
    decreases cells.len(),
{
    let cleared = cells.update(i, None);
    if i == cells.len() - 1 {
        assert(cleared.drop_last() =~= cells.drop_last());
    } else {
        assert(cleared.drop_last() =~= cells.drop_last().update(i, None));
        lemma_count_after_clearing(cells.drop_last(), i);
    }
}

/// The cells of the sample layout, in the order `x * 11 + y`: a full
/// opening position, with the noblest metal on the anchor cell.
pub open spec fn example_cells() -> Seq<Option<Piece>> {
    seq![
        None, None, None, None, None, Some(Piece::Element(Element::Air)), None, None, None, None, Some(Piece::Element(Element::Water)),
        None, None, None, None, None, Some(Piece::Element(Element::Earth)), Some(Piece::Mors), Some(Piece::Salt), Some(Piece::Metal(4)), Some(Piece::Element(Element::Fire)), None,
        None, None, None, None, Some(Piece::Element(Element::Water)), Some(Piece::Vitae), Some(Piece::Element(Element::Air)), None, Some(Piece::Quicksilver), Some(Piece::Metal(3)), None,
        None, None, None, Some(Piece::Vitae), None, Some(Piece::Element(Element::Fire)), Some(Piece::Element(Element::Fire)), Some(Piece::Element(Element::Earth)), Some(Piece::Metal(1)), Some(Piece::Metal(2)), None,
        None, None, Some(Piece::Mors), Some(Piece::Element(Element::Air)), Some(Piece::Element(Element::Air)), None, None, Some(Piece::Element(Element::Fire)), None, Some(Piece::Element(Element::Fire)), None,
        Some(Piece::Element(Element::Earth)), Some(Piece::Element(Element::Earth)), Some(Piece::Element(Element::Earth)), Some(Piece::Element(Element::Earth)), None, Some(Piece::Metal(5)), None, Some(Piece::Salt), Some(Piece::Element(Element::Water)), Some(Piece::Metal(0)), Some(Piece::Element(Element::Fire)),
        None, Some(Piece::Vitae), None, Some(Piece::Salt), None, None, Some(Piece::Element(Element::Earth)), Some(Piece::Element(Element::Air)), Some(Piece::Mors), None, None,
        None, Some(Piece::Quicksilver), Some(Piece::Element(Element::Earth)), Some(Piece::Element(Element::Water)), Some(Piece::Element(Element::Water)), Some(Piece::Element(Element::Air)), None, Some(Piece::Element(Element::Water)), None, None, None,
        None, Some(Piece::Element(Element::Water)), Some(Piece::Element(Element::Fire)), None, Some(Piece::Quicksilver), Some(Piece::Mors), Some(Piece::Element(Element::Water)), None, None, None, None,
        None, Some(Piece::Quicksilver), Some(Piece::Vitae), Some(Piece::Element(Element::Fire)), Some(Piece::Salt), Some(Piece::Quicksilver), None, None, None, None, None,
        Some(Piece::Element(Element::Air)), None, None, None, None, Some(Piece::Element(Element::Air)), None, None, None, None, None,
    ]
}

/// What a board is, mathematically: the 121 cells in the order
/// `x * 11 + y`, and the number of metals already removed.
pub struct BoardView {
    pub cells: Seq<Option<Piece>>,
    pub metals_taken: nat,
}

impl BoardView {
    /// The board with no tile on it and no metal taken.
    pub open spec fn empty() -> BoardView {
        BoardView { cells: Seq::new(121, |i: int| None), metals_taken: 0 }
    }

    /// The tile at `(x, y)`; nothing outside the square array.
    pub open spec fn piece_at(self, x: int, y: int) -> Option<Piece> {
        if 0 <= x < 11 && 0 <= y < 11 {
            self.cells[x * 11 + y]
        } else {
            None
        }
    }

    /// A neighbouring position counts as absent when it is off the hexagon
    /// or holds no tile.
    pub open spec fn absent(self, x: int, y: int) -> bool {
        !on_board_spec(x, y) || self.piece_at(x, y) is None
    }

    /// Whether the neighbour of `(x, y)` in direction `k` is absent.
    pub open spec fn absent_toward(self, x: int, y: int, k: int) -> bool {
        self.absent(neighbor(x, y, k).0, neighbor(x, y, k).1)
    }

    /// Three absent neighbours in a row, starting at direction `k`.
    pub open spec fn gap_from(self, x: int, y: int, k: int) -> bool {
        self.absent_toward(x, y, k) && self.absent_toward(x, y, k + 1) && self.absent_toward(
            x,
            y,
            k + 2,
        )
    }

    /// Whether a metal of this rank is the one whose turn it is. Other tiles
    /// are never held back.
    pub open spec fn unlocked(self, p: Piece) -> bool {
        match p {
            Piece::Metal(r) => r as nat == self.metals_taken,
            _ => true,
        }
    }

    /// The removability rule: the cell is on the hexagon and occupied, its
    /// tile is not a metal out of turn, and three neighbours in a row are
    /// absent.
    pub open spec fn is_open(self, x: int, y: int) -> bool {
        &&& on_board_spec(x, y)
        &&& self.piece_at(x, y) is Some
        &&& self.unlocked(self.piece_at(x, y)->0)
        &&& exists|k: int| 0 <= k < 6 && #[trigger] self.gap_from(x, y, k)
    }

    /// This board with the cell `(x, y)` holding `piece`.
    pub open spec fn with_piece(self, x: int, y: int, piece: Option<Piece>) -> BoardView {
        BoardView { cells: self.cells.update(x * 11 + y, piece), metals_taken: self.metals_taken }
    }

    /// The open cells among the first `n` of the scan with `x` outside and
    /// `y` inside, in that order.
    pub open spec fn open_list_upto(self, n: int) -> Seq<(usize, usize)>
        decreases n,
    {
        if n <= 0 {
            Seq::empty()
        } else if self.is_open((n - 1) / 11, (n - 1) % 11) {
            self.open_list_upto(n - 1).push(cell_at((n - 1) / 11, (n - 1) % 11))
        } else {
            self.open_list_upto(n - 1)
        }
    }

    /// The open cells of the board in scan order.
    pub open spec fn open_list(self) -> Seq<(usize, usize)> {
        self.open_list_upto(121)
    }

    /// Whether `open` lists exactly the open cells, each once, in the order
    /// of a scan with `x` outside and `y` inside.
    pub open spec fn open_cells(self, open: Seq<(usize, usize)>) -> bool {
        &&& forall|k: int|
            0 <= k < open.len() ==> self.is_open((#[trigger] open[k]).0 as int, open[k].1 as int)
        &&& forall|k: int, l: int|
            0 <= k < l < open.len() ==> cell_index(#[trigger] open[k]) < cell_index(
                #[trigger] open[l],
            )
        &&& forall|x: int, y: int| self.is_open(x, y) ==> open.contains(#[trigger] cell_at(x, y))
    }

    /// The number of tiles on the board.
    pub open spec fn tile_count(self) -> nat {
        count_tiles(self.cells)
    }

    /// A stored tile is read back from its cell, and no other cell of the
    /// square array changes.
    pub proof fn lemma_with_piece(self, x: int, y: int, piece: Option<Piece>, a: int, b: int)
        requires
            self.cells.len() == 121,
            0 <= x < 11,
            0 <= y < 11,
        ensures
            self.with_piece(x, y, piece).piece_at(x, y) == piece,
            !(a == x && b == y) ==> self.with_piece(x, y, piece).piece_at(a, b) == self.piece_at(
                a,
                b,
            ),
    {
    }

    /// The first `n` cells of the scan give their open cells in scan order,
    /// each once, and leave none out.
    pub proof fn lemma_open_list_upto(self, n: int)
        requires
            0 <= n <= 121,
        ensures
            forall|k: int|
                0 <= k < self.open_list_upto(n).len() ==> {
                    &&& self.is_open(
                        (#[trigger] self.open_list_upto(n)[k]).0 as int,
                        self.open_list_upto(n)[k].1 as int,
                    )
                    &&& cell_index(self.open_list_upto(n)[k]) < n
                },
            forall|k: int, l: int|
                0 <= k < l < self.open_list_upto(n).len() ==> cell_index(
                    #[trigger] self.open_list_upto(n)[k],
                ) < cell_index(#[trigger] self.open_list_upto(n)[l]),
            forall|x: int, y: int|
                self.is_open(x, y) && x * 11 + y < n ==> self.open_list_upto(n).contains(
                    #[trigger] cell_at(x, y),
                ),
        decreases n,
    {
        if n > 0 {
            self.lemma_open_list_upto(n - 1);
            let shorter = self.open_list_upto(n - 1);
            let list = self.open_list_upto(n);
            let (cx, cy) = ((n - 1) / 11, (n - 1) % 11);
            assert forall|x: int, y: int| self.is_open(x, y) && x * 11 + y < n implies list.contains(
                #[trigger] cell_at(x, y),
            ) by {
                if x * 11 + y < n - 1 {
                    assert(shorter.contains(cell_at(x, y)));
                    let k = choose|k: int| 0 <= k < shorter.len() && shorter[k] == cell_at(x, y);
                    assert(list[k] == cell_at(x, y));
                } else {
                    assert(x == cx && y == cy);
                    assert(list[list.len() - 1] == cell_at(x, y));
                }
            }
        }
    }

    /// The list of open cells holds exactly the open cells, in scan order.
    pub proof fn lemma_open_list(self)
        ensures
            self.open_cells(self.open_list()),
    {
        self.lemma_open_list_upto(121);
    }

    /// A tile with a tile in each of its six neighbouring cells is not open.
    pub proof fn lemma_enclosed(self, x: int, y: int)
        requires
            forall|k: int| 0 <= k < 6 ==> !#[trigger] self.absent_toward(x, y, k),
        ensures
            !self.is_open(x, y),
    {
        assert forall|k: int| 0 <= k < 6 implies !#[trigger] self.gap_from(x, y, k) by {
            assert(!self.absent_toward(x, y, k));
        }
    }

    /// A tile on the hexagon that is not a metal out of turn is open as
    /// soon as three neighbours in a row, from any direction on, are
    /// absent.
    pub proof fn lemma_gap_opens(self, x: int, y: int, k: int)
        requires
            on_board_spec(x, y),
            self.piece_at(x, y) is Some,
            self.unlocked(self.piece_at(x, y)->0),
            0 <= k < 6,
            self.absent_toward(x, y, k),
            self.absent_toward(x, y, k + 1),
            self.absent_toward(x, y, k + 2),
        ensures
            self.is_open(x, y),
    {
        assert(self.gap_from(x, y, k));
    }

    /// Metals leave in order of rank: a metal whose rank is not the number
    /// of metals already taken is not open, wherever it lies. The metal
    /// whose turn it is is open exactly when it lies on the hexagon with
    /// three absent neighbours in a row.
    pub proof fn lemma_metal_order(self, x: int, y: int, rank: u8)
        requires
            self.piece_at(x, y) == Some(Piece::Metal(rank)),
        ensures
            rank as nat != self.metals_taken ==> !self.is_open(x, y),
            rank as nat == self.metals_taken ==> (self.is_open(x, y) <==> on_board_spec(x, y) && (
            exists|k: int| 0 <= k < 6 && #[trigger] self.gap_from(x, y, k))),
    {
    }

    /// The text of one cell in a dump of the board: the glyph of its tile,
    /// or a blank, and a blank after it.
    pub open spec fn cell_text(self, x: int, y: int) -> Seq<char> {
        match self.piece_at(x, y) {
            Some(p) => glyph(p).push(' '),
            None => seq![' ', ' '],
        }
    }

    /// The text of the first `n` cells of row `y`.
    pub open spec fn cells_text(self, y: int, n: int) -> Seq<char>
        decreases n,
    {
        if n <= 0 {
            Seq::empty()
        } else {
            self.cells_text(y, n - 1) + self.cell_text(n - 1, y)
        }
    }

    /// The line of row `y`: as many blanks as the row's number, which
    /// slants the square into a hexagon, the cells, and a line feed.
    pub open spec fn row_text(self, y: int) -> Seq<char> {
        Seq::new(y as nat, |i: int| ' ') + self.cells_text(y, 11) + seq!['\n']
    }

    /// The lines of the `n` highest rows, the highest first.
    pub open spec fn rows_text(self, n: int) -> Seq<char>
        decreases n,
    {
        if n <= 0 {
            Seq::empty()
        } else {
            self.rows_text(n - 1) + self.row_text(11 - n)
        }
    }

    /// Every cell but the anchor `(5, 5)` is empty.
    pub open spec fn is_solved(self) -> bool {
        forall|x: int, y: int|
            0 <= x < 11 && 0 <= y < 11 && !(x == 5 && y == 5) ==> #[trigger] self.piece_at(x, y)
                is None
    }
}

/// The board: a hexagon of side 6 laid into an 11 by 11 square, and the
/// count of metals removed so far.
#[derive(Clone, Debug, PartialEq, Eq)]
pub struct GameState {
    board: [Option<Piece>; 121],
    metals_taken: usize,
}

impl View for GameState {
    type V = BoardView;

    closed spec fn view(&self) -> BoardView {
        BoardView { cells: self.board@, metals_taken: self.metals_taken as nat }
    }
}

impl Piece {
    /// Decides the pairing relation.
    pub fn legal_pair(&self, other: &Piece) -> (legal: bool)
        ensures
            legal == legal_pair_spec(*self, *other),
    {
        match (self, other) {
            (Piece::Element(a), Piece::Element(b)) => a == b,
            (Piece::Element(_), Piece::Salt) => true,
            (Piece::Salt, Piece::Element(_)) => true,
            (Piece::Salt, Piece::Salt) => true,
            (Piece::Metal(_), Piece::Quicksilver) => true,
            (Piece::Quicksilver, Piece::Metal(_)) => true,
            (Piece::Vitae, Piece::Mors) => true,
            (Piece::Mors, Piece::Vitae) => true,
            _ => false,
        }
    }

    /// The glyph of the tile, as a string.
    pub fn tochar(&self) -> (s: String)
        ensures
            s@ == glyph(*self),
    {
        proof {
            reveal_strlit("F");
            reveal_strlit("W");
            reveal_strlit("E");
            reveal_strlit("A");
            reveal_strlit("S");
            reveal_strlit("Q");
            reveal_strlit("V");
            reveal_strlit("M");
        }
        let s = match self {
            Piece::Element(Element::Fire) => "F".to_string(),
            Piece::Element(Element::Water) => "W".to_string(),
            Piece::Element(Element::Earth) => "E".to_string(),
            Piece::Element(Element::Air) => "A".to_string(),
            Piece::Salt => "S".to_string(),
            Piece::Metal(x) => rank_string(*x),
            Piece::Quicksilver => "Q".to_string(),
            Piece::Vitae => "V".to_string(),
            Piece::Mors => "M".to_string(),
        };
        assert(s@ =~= glyph(*self));
        s
    }
}

impl GameState {
    /// A board with no tile on it and no metal taken.
    pub fn new() -> (gs: GameState)
        ensures
            gs@ == BoardView::empty(),
    {
        let gs = GameState { board: [None; 121], metals_taken: 0 };
        assert(gs@.cells =~= BoardView::empty().cells);
        gs
    }

    /// The sample layout, with no metal taken.
    pub fn example() -> (gs: GameState)
        ensures
            gs@.cells == example_cells(),
            gs@.metals_taken == 0,
    {
        let gs = GameState {
            board: [
                None, None, None, None, None, Some(Piece::Element(Element::Air)), None, None, None, None, Some(Piece::Element(Element::Water)),
                None, None, None, None, None, Some(Piece::Element(Element::Earth)), Some(Piece::Mors), Some(Piece::Salt), Some(Piece::Metal(4)), Some(Piece::Element(Element::Fire)), None,
                None, None, None, None, Some(Piece::Element(Element::Water)), Some(Piece::Vitae), Some(Piece::Element(Element::Air)), None, Some(Piece::Quicksilver), Some(Piece::Metal(3)), None,
                None, None, None, Some(Piece::Vitae), None, Some(Piece::Element(Element::Fire)), Some(Piece::Element(Element::Fire)), Some(Piece::Element(Element::Earth)), Some(Piece::Metal(1)), Some(Piece::Metal(2)), None,
                None, None, Some(Piece::Mors), Some(Piece::Element(Element::Air)), Some(Piece::Element(Element::Air)), None, None, Some(Piece::Element(Element::Fire)), None, Some(Piece::Element(Element::Fire)), None,
                Some(Piece::Element(Element::Earth)), Some(Piece::Element(Element::Earth)), Some(Piece::Element(Element::Earth)), Some(Piece::Element(Element::Earth)), None, Some(Piece::Metal(5)), None, Some(Piece::Salt), Some(Piece::Element(Element::Water)), Some(Piece::Metal(0)), Some(Piece::Element(Element::Fire)),
                None, Some(Piece::Vitae), None, Some(Piece::Salt), None, None, Some(Piece::Element(Element::Earth)), Some(Piece::Element(Element::Air)), Some(Piece::Mors), None, None,
                None, Some(Piece::Quicksilver), Some(Piece::Element(Element::Earth)), Some(Piece::Element(Element::Water)), Some(Piece::Element(Element::Water)), Some(Piece::Element(Element::Air)), None, Some(Piece::Element(Element::Water)), None, None, None,
                None, Some(Piece::Element(Element::Water)), Some(Piece::Element(Element::Fire)), None, Some(Piece::Quicksilver), Some(Piece::Mors), Some(Piece::Element(Element::Water)), None, None, None, None,
                None, Some(Piece::Quicksilver), Some(Piece::Vitae), Some(Piece::Element(Element::Fire)), Some(Piece::Salt), Some(Piece::Quicksilver), None, None, None, None, None,
                Some(Piece::Element(Element::Air)), None, None, None, None, Some(Piece::Element(Element::Air)), None, None, None, None, None,
            ],
            metals_taken: 0,
        };
        assert(gs@.cells =~= example_cells());
        gs
    }

    /// Decides membership of the hexagon.
    pub fn on_board(xi: usize, yi: usize) -> (b: bool)
        ensures
            b == on_board_spec(xi as int, yi as int),
    {
        xi < 11 && yi < 11 && xi + yi >= 5 && xi + yi <= 15
    }

    /// The tile at `(x, y)`. Coordinates outside the square array give
    /// nothing rather than fail.
    pub fn get_piece(&self, x: usize, y: usize) -> (p: Option<&Piece>)
        ensures
            p is Some <==> self@.piece_at(x as int, y as int) is Some,
            p is Some ==> *p->0 == self@.piece_at(x as int, y as int)->0,
    {
        if x >= 11 || y >= 11 {
            None
        } else {
            self.board[x * 11 + y].as_ref()
        }
    }

    /// Stores a tile, or emptiness, at `(x, y)` and hands back what is now
    /// there. Outside the square array nothing is stored.
    pub fn set_piece(&mut self, piece: Option<Piece>, x: usize, y: usize) -> (r: Result<
        Option<&Piece>,
        String,
    >)
        ensures
            r is Err <==> x >= 11 || y >= 11,
            r is Err ==> final(self)@ == old(self)@ && r->Err_0@ == OUT_OF_BOUNDS@,
            r is Ok ==> final(self)@ == old(self)@.with_piece(x as int, y as int, piece),
            r is Ok ==> (r->Ok_0 is Some <==> piece is Some),
            r is Ok && piece is Some ==> *r->Ok_0->0 == piece->0,
    {
        if x >= 11 || y >= 11 {
            Err(OUT_OF_BOUNDS.to_string())
        } else {
            self.board[x * 11 + y] = piece;
            Ok(self.board[x * 11 + y].as_ref())
        }
    }

    /// A board's cells are always the 121 of the square array.
    pub proof fn lemma_view_cells(&self)
        ensures
            self@.cells.len() == 121,
    {
    }

    /// Two boards with the same cells and the same count are the same board.
    pub proof fn lemma_view_decides(&self, other: &GameState)
        requires
            self@ == other@,
        ensures
            *self == *other,
    {
        assert(self.board =~= other.board);
    }

    /// Replaces the count of metals removed.
    pub(crate) fn set_metals_taken(&mut self, n: usize)
        ensures
            final(self)@ == (BoardView { cells: old(self)@.cells, metals_taken: n as nat }),
    {
        self.metals_taken = n;
    }

    /// The number of metals removed so far.
    pub fn metals_taken(&self) -> (n: usize)
        ensures
            n == self@.metals_taken,
    {
        self.metals_taken
    }

    /// Whether the neighbour of `(x, y)` in direction `k` is absent.
    fn neighbor_absent(&self, x: usize, y: usize, k: u8) -> (a: bool)
        requires
            x < 11,
            y < 11,
            k < 6,
        ensures
            a == self@.absent_toward(x as int, y as int, k as int),
    {
        if (k == 1 || k == 2) && y == 0 {
            return true;
        }
        if (k == 3 || k == 4) && x == 0 {
            return true;
        }
        let nx: usize = if k == 0 || k == 1 {
            x + 1
        } else if k == 3 || k == 4 {
            x - 1
        } else {
            x
        };
        let ny: usize = if k == 1 || k == 2 {
            y - 1
        } else if k == 4 || k == 5 {
            y + 1
        } else {
            y
        };
        !Self::on_board(nx, ny) || self.get_piece(nx, ny).is_none()
    }

    /// Decides the removability rule for the cell `(x, y)`.
    pub fn is_open(&self, x: usize, y: usize) -> (open: bool)
        ensures
            open == self@.is_open(x as int, y as int),
    {
        if !Self::on_board(x, y) {
            return false;
        }
        match self.get_piece(x, y) {
            None => false,
            Some(p) => {
                if let Piece::Metal(r) = p {
                    if *r as usize != self.metals_taken {
                        return false;
                    }
                }
                let a0 = self.neighbor_absent(x, y, 0);
                let a1 = self.neighbor_absent(x, y, 1);
                let a2 = self.neighbor_absent(x, y, 2);
                let a3 = self.neighbor_absent(x, y, 3);
                let a4 = self.neighbor_absent(x, y, 4);
                let a5 = self.neighbor_absent(x, y, 5);
                proof {
                    let v = self@;
                    let (xi, yi) = (x as int, y as int);
                    assert(v.absent_toward(xi, yi, 6) == a0);
                    assert(v.absent_toward(xi, yi, 7) == a1);
                    assert(v.gap_from(xi, yi, 0) == (a0 && a1 && a2));
                    assert(v.gap_from(xi, yi, 1) == (a1 && a2 && a3));
                    assert(v.gap_from(xi, yi, 2) == (a2 && a3 && a4));
                    assert(v.gap_from(xi, yi, 3) == (a3 && a4 && a5));
                    assert(v.gap_from(xi, yi, 4) == (a4 && a5 && a0));
                    assert(v.gap_from(xi, yi, 5) == (a5 && a0 && a1));
                }
                (a0 && a1 && a2) || (a1 && a2 && a3) || (a2 && a3 && a4) || (a3 && a4 && a5) || (a4
                    && a5 && a0) || (a5 && a0 && a1)
            },
        }
    }

    /// The open cells, scanned with `x` outside and `y` inside.
    pub fn open_pieces(&self) -> (open: Vec<(usize, usize)>)
        ensures
            open@ == self@.open_list(),
            self@.open_cells(open@),
    {
        let mut open: Vec<(usize, usize)> = Vec::new();
        let mut x: usize = 0;
        while x < 11
            invariant
                x <= 11,
                open@ == self@.open_list_upto(x * 11),
            decreases 11 - x,
        {
            let mut y: usize = 0;
            while y < 11
                invariant
                    x < 11,
                    y <= 11,
                    open@ == self@.open_list_upto(x * 11 + y),
                decreases 11 - y,
            {
                assert((x * 11 + y) / 11 == x && (x * 11 + y) % 11 == y);
                if self.is_open(x, y) {
                    open.push((x, y));
                }
                y += 1;
            }
            x += 1;
        }
        proof {
            self@.lemma_open_list();
        }
        open
    }

    /// A dump of the board as text, for a look at it: one line to the row,
    /// the highest row first.
    pub fn render(&self) -> (text: String)
        ensures
            text@ == self@.rows_text(11),
    {
        proof {
            reveal_strlit(" ");
            reveal_strlit("\n");
        }
        let mut text = String::new();
        let mut done: usize = 0;
        while done < 11
            invariant
                done <= 11,
                " "@ == seq![' '],
                "\n"@ == seq!['\n'],
                text@ == self@.rows_text(done as int),
            decreases 11 - done,
        {
            let y: usize = 10 - done;
            let ghost above = text@;
            let mut blanks: usize = 0;
            while blanks < y
                invariant
                    blanks <= y,
                    " "@ == seq![' '],
                    text@ == above + Seq::new(blanks as nat, |i: int| ' '),
                decreases y - blanks,
            {
                text.append(" ");
                blanks += 1;
                assert(text@ =~= above + Seq::new(blanks as nat, |i: int| ' '));
            }
            let ghost indented = text@;
            let mut x: usize = 0;
            while x < 11
                invariant
                    x <= 11,
                    y < 11,
                    " "@ == seq![' '],
                    text@ == indented + self@.cells_text(y as int, x as int),
                decreases 11 - x,
            {
                let ghost before = text@;
                match self.get_piece(x, y) {
                    Some(p) => {
                        let g = p.tochar();
                        text.append(g.as_str());
                    },
                    None => {
                        text.append(" ");
                    },
                }
                text.append(" ");
                x += 1;
                assert(text@ =~= before + self@.cell_text(x - 1, y as int));
                assert(text@ =~= indented + self@.cells_text(y as int, x as int));
            }
            text.append("\n");
            done += 1;
            assert(text@ =~= above + self@.row_text(y as int));
        }
        text
    }

    /// Decides whether the board is cleared: nothing is left but, possibly,
    /// the tile on the anchor cell.
    pub fn is_solved(&self) -> (solved: bool)
        ensures
            solved == self@.is_solved(),
    {
        let mut x: usize = 0;
        while x < 11
            invariant
                x <= 11,
                forall|a: int, b: int|
                    0 <= a < x && 0 <= b < 11 && !(a == 5 && b == 5) ==> #[trigger] self@.piece_at(
                        a,
                        b,
                    ) is None,
            decreases 11 - x,
        {
            let mut y: usize = 0;
            while y < 11
                invariant
                    x < 11,
                    y <= 11,
                    forall|a: int, b: int|
                        (0 <= a < x && 0 <= b < 11 || a == x && 0 <= b < y) && !(a == 5 && b == 5)
                            ==> #[trigger] self@.piece_at(a, b) is None,
                decreases 11 - y,
            {
                if !(x == 5 && y == 5) && self.get_piece(x, y).is_some() {
                    return false;
                }
                y += 1;
            }
            x += 1;
        }
        true
    }
}

/// Runs the library's self-check: a few pairings that must be legal or
/// illegal, a store outside the square array that must be refused, and a
/// store that must be read back. It reports whether all of it held.
pub fn test() -> (passed: bool)
    ensures
        passed,
{
    let a = Piece::Element(Element::Fire);
    let b = Piece::Element(Element::Water);
    let c = Piece::Salt;
    let d = Piece::Quicksilver;
    let pairs = a.legal_pair(&a) && a.legal_pair(&c) && c.legal_pair(&a) && !a.legal_pair(&b)
        && !c.legal_pair(&d) && !d.legal_pair(&d);

    let mut gs = GameState::new();
    let refused = gs.set_piece(Some(a), 11, 11).is_err();
    let stored = gs.set_piece(Some(a), 5, 6).is_ok();
    let read_back = match gs.get_piece(5, 6) {
        Some(Piece::Element(e)) => *e == Element::Fire,
        _ => false,
    };
    pairs && refused && stored && read_back
}

} // verus!
