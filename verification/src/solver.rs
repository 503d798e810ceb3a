//! Removing pairs of tiles, and the exhaustive search for an order of
//! removals that clears the board.

use crate::game::{
    cell_at, cell_index, legal_pair_spec, lemma_count_after_clearing, BoardView, GameState, Piece,
};
use vstd::prelude::*;

verus! {

/// Whether a cell holds a metal.
pub open spec fn holds_metal(p: Option<Piece>) -> bool {
    match p {
        Some(Piece::Metal(_)) => true,
        _ => false,
    }
}

impl BoardView {
    /// A removal may be made when the two cells differ, both are open, and
    /// their tiles pair.
    pub open spec fn valid_move(self, x1: int, y1: int, x2: int, y2: int) -> bool {
        &&& !(x1 == x2 && y1 == y2)
        &&& self.is_open(x1, y1)
        &&& self.is_open(x2, y2)
        &&& legal_pair_spec(self.piece_at(x1, y1)->0, self.piece_at(x2, y2)->0)
    }

    /// A removal uses up a metal when exactly one of its tiles is a metal.
    pub open spec fn consumes_metal(self, x1: int, y1: int, x2: int, y2: int) -> bool {
        holds_metal(self.piece_at(x1, y1)) != holds_metal(self.piece_at(x2, y2))
    }

    /// The board after the removal: both cells empty, and the count of
    /// metals one higher if the removal used one up.
    pub open spec fn after_move(self, x1: int, y1: int, x2: int, y2: int) -> BoardView {
        BoardView {
            cells: self.cells.update(x1 * 11 + y1, None).update(x2 * 11 + y2, None),
            metals_taken: if self.consumes_metal(x1, y1, x2, y2) {
                self.metals_taken + 1
            } else {
                self.metals_taken
            },
        }
    }

    /// Whether `moves` clears the board: each entry but the last is a
    /// removal that may be made on the board as the earlier ones left it,
    /// and the last is the closing entry on the anchor cell, reached with
    /// the board cleared.
    pub open spec fn valid_solution(self, moves: Seq<[usize; 4]>) -> bool
        decreases moves.len(),
    {
        if moves.len() == 0 {
            false
        } else if moves.len() == 1 {
            self.is_solved() && moves[0] == closing_entry()
        } else {
            let m = moves[0];
            self.valid_move(m[0] as int, m[1] as int, m[2] as int, m[3] as int)
                && self.after_move(
                m[0] as int,
                m[1] as int,
                m[2] as int,
                m[3] as int,
            ).valid_solution(moves.drop_first())
        }
    }

    /// What the search finds when it goes on from the pair of the `i`-th and
    /// the `j`-th open cell: the first pair, with `i` in the outer round and
    /// `j` in the inner, whose removal may be made and leaves a board that
    /// the search clears, followed by what the search finds there.
    pub open spec fn search(self, open: Seq<(usize, usize)>, i: int, j: int) -> Option<
        Seq<[usize; 4]>,
    >
        decreases self.tile_count(), 0int, open.len() - i, open.len() - j,
        when self.cells.len() == 121 && 0 <= i && 0 <= j
    {
        if i >= open.len() {
            None
        } else if j >= open.len() {
            self.search(open, i + 1, 0)
        } else if self.valid_move(
            open[i].0 as int,
            open[i].1 as int,
            open[j].0 as int,
            open[j].1 as int,
        ) {
            proof {
                lemma_move_takes_two(
                    self,
                    open[i].0 as int,
                    open[i].1 as int,
                    open[j].0 as int,
                    open[j].1 as int,
                );
            }
            match self.after_move(
                open[i].0 as int,
                open[i].1 as int,
                open[j].0 as int,
                open[j].1 as int,
            ).first_solution() {
                Some(rest) => Some(seq![step_entry(open[i], open[j])] + rest),
                None => self.search(open, i, j + 1),
            }
        } else {
            self.search(open, i, j + 1)
        }
    }

    /// The solution that the depth-first search comes upon first, if it
    /// comes upon any.
    pub open spec fn first_solution(self) -> Option<Seq<[usize; 4]>>
        decreases self.tile_count(), 1int, 0int, 0int,
        when self.cells.len() == 121
    {
        if self.is_solved() {
            Some(seq![closing_entry()])
        } else {
            self.search(self.open_list(), 0, 0)
        }
    }

    /// Whether removing the tiles at `c1` and `c2` may be made and leaves a
    /// board that can be cleared.
    pub open spec fn wins_by(self, c1: (usize, usize), c2: (usize, usize)) -> bool {
        self.valid_move(c1.0 as int, c1.1 as int, c2.0 as int, c2.1 as int) && self.after_move(
            c1.0 as int,
            c1.1 as int,
            c2.0 as int,
            c2.1 as int,
        ).solvable()
    }

    /// Whether some order of removals clears the board.
    pub open spec fn solvable(self) -> bool {
        exists|moves: Seq<[usize; 4]>| self.valid_solution(moves)
    }
}

/// The entry of a solution that removes the tiles at `c1` and `c2`.
pub open spec fn step_entry(c1: (usize, usize), c2: (usize, usize)) -> [usize; 4] {
    [c1.0, c1.1, c2.0, c2.1]
}

/// The entry that ends every solution: the anchor cell, twice.
pub open spec fn closing_entry() -> [usize; 4] {
    [5, 5, 5, 5]
}

/// Whether the search's outcome is the one named.
pub open spec fn is_outcome(found: Option<Vec<[usize; 4]>>, named: Option<Seq<[usize; 4]>>) -> bool {
    match (found, named) {
        (Some(moves), Some(entries)) => moves@ == entries,
        (None, None) => true,
        _ => false,
    }
}

/// A removal that may be made takes two tiles off the board.
pub proof fn lemma_move_takes_two(v: BoardView, x1: int, y1: int, x2: int, y2: int)
    requires
        v.cells.len() == 121,
        v.valid_move(x1, y1, x2, y2),
    ensures
        v.after_move(x1, y1, x2, y2).tile_count() + 2 == v.tile_count(),
{
    lemma_count_after_clearing(v.cells, x1 * 11 + y1);
    lemma_count_after_clearing(v.cells.update(x1 * 11 + y1, None), x2 * 11 + y2);
}

/// A board that is not cleared and on which no removal may be made cannot
/// be cleared.
pub proof fn lemma_stuck_board(v: BoardView)
    requires
        !v.is_solved(),
        forall|x1: int, y1: int, x2: int, y2: int| !v.valid_move(x1, y1, x2, y2),
    ensures
        !v.solvable(),
{
}

/// A single tile that lies off the anchor cell cannot be cleared: it has
/// nothing to pair with.
pub proof fn lemma_single_tile(v: BoardView, x: int, y: int)
    requires
        v.cells.len() == 121,
        v.tile_count() == 1,
        v.piece_at(x, y) is Some,
        !(x == 5 && y == 5),
    ensures
        !v.solvable(),
{
    assert forall|x1: int, y1: int, x2: int, y2: int| !v.valid_move(x1, y1, x2, y2) by {
        if v.valid_move(x1, y1, x2, y2) {
            lemma_move_takes_two(v, x1, y1, x2, y2);
        }
    }
    lemma_stuck_board(v);
}

/// Two tiles that may be removed together, with nothing else off the
/// anchor cell, are cleared in one step.
pub proof fn lemma_one_step(v: BoardView, c1: (usize, usize), c2: (usize, usize))
    requires
        v.valid_move(c1.0 as int, c1.1 as int, c2.0 as int, c2.1 as int),
        v.after_move(c1.0 as int, c1.1 as int, c2.0 as int, c2.1 as int).is_solved(),
    ensures
        v.valid_solution(seq![step_entry(c1, c2), closing_entry()]),
        v.solvable(),
{
    let moves = seq![step_entry(c1, c2), closing_entry()];
    assert(moves.drop_first() =~= seq![closing_entry()]);
    assert(v.after_move(c1.0 as int, c1.1 as int, c2.0 as int, c2.1 as int).valid_solution(
        moves.drop_first(),
    ));
}

/// Whether no pair of open cells from the `i`-th with the `j`-th on, in the
/// order of the search, wins.
pub open spec fn none_wins_from(v: BoardView, open: Seq<(usize, usize)>, i: int, j: int) -> bool {
    forall|k: int, l: int|
        0 <= k < open.len() && 0 <= l < open.len() && (k > i || (k == i && l >= j))
            ==> !#[trigger] v.wins_by(open[k], open[l])
}

/// What the search finds from a pair on clears the board; and where it
/// finds nothing, no later pair wins. This holds together with
/// `lemma_first_solution` for the boards with fewer tiles.
proof fn lemma_search(v: BoardView, open: Seq<(usize, usize)>, i: int, j: int)
    requires
        v.cells.len() == 121,
        0 <= i,
        0 <= j,
    ensures
        match v.search(open, i, j) {
            Some(moves) => v.valid_solution(moves),
            None => none_wins_from(v, open, i, j),
        },
    decreases v.tile_count(), 0int, open.len() - i, open.len() - j,
{
    if i >= open.len() {
    } else if j >= open.len() {
        lemma_search(v, open, i + 1, 0);
    } else {
        let (x1, y1, x2, y2) = (
            open[i].0 as int,
            open[i].1 as int,
            open[j].0 as int,
            open[j].1 as int,
        );
        if v.valid_move(x1, y1, x2, y2) {
            lemma_move_takes_two(v, x1, y1, x2, y2);
            let next = v.after_move(x1, y1, x2, y2);
            lemma_first_solution(next);
            match next.first_solution() {
                Some(rest) => {
                    let moves = seq![step_entry(open[i], open[j])] + rest;
                    assert(moves.drop_first() =~= rest);
                    assert(moves[0] == step_entry(open[i], open[j]));
                },
                None => {
                    lemma_search(v, open, i, j + 1);
                    assert(!v.wins_by(open[i], open[j]));
                },
            }
        } else {
            lemma_search(v, open, i, j + 1);
            assert(!v.wins_by(open[i], open[j]));
        }
    }
}

/// The search is sound and complete: it finds a solution exactly on the
/// boards that can be cleared, and what it finds clears the board.
pub proof fn lemma_first_solution(v: BoardView)
    requires
        v.cells.len() == 121,
    ensures
        v.first_solution() is Some <==> v.solvable(),
        v.first_solution() is Some ==> v.valid_solution(v.first_solution()->0),
    decreases v.tile_count(), 1int, 0int, 0int,
{
    if v.is_solved() {
        assert(v.valid_solution(seq![closing_entry()]));
    } else {
        let open = v.open_list();
        v.lemma_open_list();
        lemma_search(v, open, 0, 0);
        if v.search(open, 0, 0) is None {
            assert forall|moves: Seq<[usize; 4]>| !v.valid_solution(moves) by {
                if v.valid_solution(moves) {
                    let m = moves[0];
                    let (ax, ay, bx, by) = (m[0] as int, m[1] as int, m[2] as int, m[3] as int);
                    assert(v.valid_move(ax, ay, bx, by));
                    assert(v.after_move(ax, ay, bx, by).valid_solution(moves.drop_first()));
                    assert(open.contains(cell_at(ax, ay)));
                    assert(open.contains(cell_at(bx, by)));
                    let k = choose|k: int| 0 <= k < open.len() && open[k] == cell_at(ax, ay);
                    let l = choose|l: int| 0 <= l < open.len() && open[l] == cell_at(bx, by);
                    assert(v.wins_by(open[k], open[l]));
                }
            }
        }
    }
}

/// Of two cells of the list of open cells: each holds a tile, and the
/// removal of the two may be made exactly when they are two cells and their
/// tiles pair.
proof fn lemma_open_pair(v: BoardView, i: int, j: int)
    requires
        0 <= i < v.open_list().len(),
        0 <= j < v.open_list().len(),
    ensures
        v.piece_at(v.open_list()[i].0 as int, v.open_list()[i].1 as int) is Some,
        v.piece_at(v.open_list()[j].0 as int, v.open_list()[j].1 as int) is Some,
        v.valid_move(
            v.open_list()[i].0 as int,
            v.open_list()[i].1 as int,
            v.open_list()[j].0 as int,
            v.open_list()[j].1 as int,
        ) <==> i != j && legal_pair_spec(
            v.piece_at(v.open_list()[i].0 as int, v.open_list()[i].1 as int)->0,
            v.piece_at(v.open_list()[j].0 as int, v.open_list()[j].1 as int)->0,
        ),
{
    let open = v.open_list();
    v.lemma_open_list();
    assert(v.is_open(open[i].0 as int, open[i].1 as int));
    assert(v.is_open(open[j].0 as int, open[j].1 as int));
    if i < j {
        assert(cell_index(open[i]) < cell_index(open[j]));
    } else if j < i {
        assert(cell_index(open[j]) < cell_index(open[i]));
    }
}

impl GameState {
    /// Takes the two tiles off the board. The removal must be one that may
    /// be made.
    fn take_pair(&mut self, x1: usize, y1: usize, x2: usize, y2: usize)
        requires
            old(self)@.valid_move(x1 as int, y1 as int, x2 as int, y2 as int),
        ensures
            final(self)@ == old(self)@.after_move(x1 as int, y1 as int, x2 as int, y2 as int),
    {
        let first_metal = match self.get_piece(x1, y1) {
            Some(Piece::Metal(_)) => true,
            _ => false,
        };
        let second_metal = match self.get_piece(x2, y2) {
            Some(Piece::Metal(_)) => true,
            _ => false,
        };
        let taken = self.metals_taken();
        let _ = self.set_piece(None, x1, y1);
        let _ = self.set_piece(None, x2, y2);
        if first_metal != second_metal {
            self.set_metals_taken(taken + 1);
        }
    }

    /// Puts back the two tiles that a removal took, and the count of metals
    /// as it was.
    fn put_pair(
        &mut self,
        x1: usize,
        y1: usize,
        a: Piece,
        x2: usize,
        y2: usize,
        b: Piece,
        Ghost(before): Ghost<BoardView>,
    )
        requires
            before.cells.len() == 121,
            before.valid_move(x1 as int, y1 as int, x2 as int, y2 as int),
            before.piece_at(x1 as int, y1 as int) == Some(a),
            before.piece_at(x2 as int, y2 as int) == Some(b),
            old(self)@ == before.after_move(x1 as int, y1 as int, x2 as int, y2 as int),
        ensures
            final(self)@ == before,
    {
        let taken = self.metals_taken();
        let _ = self.set_piece(Some(a), x1, y1);
        let _ = self.set_piece(Some(b), x2, y2);
        let first_metal = match a {
            Piece::Metal(_) => true,
            _ => false,
        };
        let second_metal = match b {
            Piece::Metal(_) => true,
            _ => false,
        };
        if first_metal != second_metal {
            self.set_metals_taken(taken - 1);
        }
        assert(self@.cells =~= before.cells);
    }

    /// Removes the pair of tiles at `(x1, y1)` and `(x2, y2)` if the rules
    /// allow it, and says whether it did. A refused removal leaves the
    /// board as it was.
    pub fn remove_pair(&mut self, x1: usize, y1: usize, x2: usize, y2: usize) -> (removed: bool)
        ensures
            removed == old(self)@.valid_move(x1 as int, y1 as int, x2 as int, y2 as int),
            removed ==> final(self)@ == old(self)@.after_move(
                x1 as int,
                y1 as int,
                x2 as int,
                y2 as int,
            ),
            !removed ==> *final(self) == *old(self),
    {
        if (x1 == x2 && y1 == y2) || !self.is_open(x1, y1) || !self.is_open(x2, y2) {
            return false;
        }
        let a = *self.get_piece(x1, y1).unwrap();
        let b = *self.get_piece(x2, y2).unwrap();
        if !a.legal_pair(&b) {
            return false;
        }
        self.take_pair(x1, y1, x2, y2);
        true
    }

    /// Searches the board that is left when the tiles `a` at `(x1, y1)` and
    /// `b` at `(x2, y2)` are removed, and puts the two tiles back.
    fn solve_without(
        &mut self,
        x1: usize,
        y1: usize,
        a: Piece,
        x2: usize,
        y2: usize,
        b: Piece,
    ) -> (found: Option<Vec<[usize; 4]>>)
        requires
            old(self)@.valid_move(x1 as int, y1 as int, x2 as int, y2 as int),
            old(self)@.piece_at(x1 as int, y1 as int) == Some(a),
            old(self)@.piece_at(x2 as int, y2 as int) == Some(b),
        ensures
            *final(self) == *old(self),
            is_outcome(
                found,
                old(self)@.after_move(
                    x1 as int,
                    y1 as int,
                    x2 as int,
                    y2 as int,
                ).first_solution(),
            ),
            found is Some <==> old(self)@.after_move(
                x1 as int,
                y1 as int,
                x2 as int,
                y2 as int,
            ).solvable(),
            found is Some ==> old(self)@.after_move(
                x1 as int,
                y1 as int,
                x2 as int,
                y2 as int,
            ).valid_solution(found->0@),
        decreases old(self)@.tile_count(), 0int,
    {
        let ghost start = self@;
        let ghost initial = *self;
        proof {
            self.lemma_view_cells();
            lemma_move_takes_two(start, x1 as int, y1 as int, x2 as int, y2 as int);
        }
        self.take_pair(x1, y1, x2, y2);
        let found = self.solve();
        self.put_pair(x1, y1, a, x2, y2, b, Ghost(start));
        proof {
            self.lemma_view_decides(&initial);
        }
        found
    }

    /// Searches, depth first, for an order of removals that clears the
    /// board. The open cells are tried in pairs, the first of a pair in the
    /// outer round and the second in the inner, and the first order found
    /// is returned: each removal as `[x1, y1, x2, y2]`, and the closing
    /// entry on the anchor cell at the end. `None` says that no order
    /// clears the board. Whatever the outcome, the board is handed back as
    /// it was.
    pub fn solve(&mut self) -> (solution: Option<Vec<[usize; 4]>>)
        ensures
            *final(self) == *old(self),
            is_outcome(solution, old(self)@.first_solution()),
            solution is Some <==> old(self)@.solvable(),
            solution is Some ==> old(self)@.valid_solution(solution->0@),
        decreases old(self)@.tile_count(), 1int,
    {
        let ghost start = self@;
        let ghost initial = *self;
        proof {
            self.lemma_view_cells();
            lemma_first_solution(start);
        }
        if self.is_solved() {
            let closing: [usize; 4] = [5, 5, 5, 5];
            let moves = vec![closing];
            assert(moves@ =~= seq![closing_entry()]);
            return Some(moves);
        }
        let open = self.open_pieces();
        let n = open.len();
        let mut i: usize = 0;
        while i < n
            invariant
                *self == initial,
                initial == *old(self),
                self@ == start,
                start.cells.len() == 121,
                open@ == start.open_list(),
                n == open.len(),
                start.first_solution() == start.search(open@, i as int, 0),
            decreases n - i,
        {
            let (x1, y1) = open[i];
            proof {
                lemma_open_pair(start, i as int, i as int);
            }
            let a = *self.get_piece(x1, y1).unwrap();
            let mut j: usize = 0;
            while j < n
                invariant
                    *self == initial,
                    initial == *old(self),
                    self@ == start,
                    start.cells.len() == 121,
                    open@ == start.open_list(),
                    n == open.len(),
                    i < n,
                    start.first_solution() == start.search(open@, i as int, j as int),
                    open[i as int] == (x1, y1),
                    start.piece_at(x1 as int, y1 as int) == Some(a),
                decreases n - j,
            {
                let (x2, y2) = open[j];
                proof {
                    lemma_open_pair(start, i as int, j as int);
                }
                if j != i {
                    let b = *self.get_piece(x2, y2).unwrap();
                    if a.legal_pair(&b) {
                        let found = self.solve_without(x1, y1, a, x2, y2, b);
                        if let Some(mut moves) = found {
                            let ghost rest = moves@;
                            let step: [usize; 4] = [x1, y1, x2, y2];
                            moves.insert(0, step);
                            proof {
                                assert(step == step_entry(open[i as int], open[j as int]));
                                assert(moves@ =~= seq![step] + rest);
                                lemma_first_solution(start);
                            }
                            return Some(moves);
                        }
                    }
                }
                j += 1;
            }
            i += 1;
        }
        proof {
            lemma_first_solution(start);
        }
        None
    }
}

} // verus!
