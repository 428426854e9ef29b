//! The game state: the board, the side to move and the selected square,
//! with move application, turn alternation and the two-click protocol.
use vstd::prelude::*;
use crate::board::{cell, initial_occupant, Board, Occupant, Side, Square, BOARD_SIZE};
use crate::rules::{is_destination, lemma_origin_not_destination};

verus! {

/// The board after the piece on `from` moved to `to`: `to` takes what stood
/// on `from`, and `from` becomes empty.
pub open spec fn after_move(b: Seq<Occupant>, from: Square, to: Square) -> Seq<Occupant> {
    b.update(to.index(), b[from.index()]).update(from.index(), Occupant::Empty)
}

/// `s` holds a piece of the side to move.
pub open spec fn selectable(b: Seq<Occupant>, to_move: Side, s: Square) -> bool {
    match cell(b, s.file as int, s.rank as int) {
        Occupant::Occupied(side, _) => side == to_move,
        Occupant::Empty => false,
    }
}

/// What a click did.
#[derive(Clone, Copy, Debug, PartialEq, Eq, Structural)]
pub enum ClickOutcome {
    /// Nothing was selected and the clicked square became the selection.
    Selected,
    /// Nothing was selected and the clicked square holds no piece of the side
    /// to move; nothing changed.
    Ignored,
    /// The selected piece moved to the clicked square and the turn passed.
    Moved,
    /// The clicked square is no destination of the selected piece; the
    /// selection was cleared and nothing else changed.
    Rejected,
}

/// Whether `v` holds `s`.
fn contains_square(v: &Vec<Square>, s: Square) -> (r: bool)
    ensures
        r == v@.contains(s),
{
    let mut i: usize = 0;
    while i < v.len()
        invariant
            i <= v@.len(),
            forall|j: int| 0 <= j < i ==> v@[j] != s,
        decreases v@.len() - i,
    {
        if v[i] == s {
            assert(v@[i as int] == s);
            return true;
        }
        i = i + 1;
    }
    false
}

/// The whole state of a game in progress.
pub struct Game {
    pub board: Board,
    pub to_move: Side,
    pub selected: Option<Square>,
}

impl Game {
    /// The board is well formed and any selection lies on it.
    pub open spec fn wf(&self) -> bool {
        &&& self.board.wf()
        &&& match self.selected {
            Some(s) => s.valid(),
            None => true,
        }
    }

    /// A game in the standard initial placement, Dark to move, nothing
    /// selected.
    pub fn new() -> (g: Game)
        ensures
            g.wf(),
            forall|f: int, r: int|
                0 <= f < BOARD_SIZE && 0 <= r < BOARD_SIZE ==> #[trigger] cell(g.board@, f, r)
                    == initial_occupant(f, r),
            g.to_move == Side::Dark,
            g.selected == None::<Square>,
    {
        Game { board: Board::standard_setup(), to_move: Side::Dark, selected: None }
    }

    /// What the square `s` holds.
    pub fn occupant_at(&self, s: Square) -> (o: Occupant)
        requires
            self.wf(),
            s.valid(),
        ensures
            o == cell(self.board@, s.file as int, s.rank as int),
    {
        self.board.occupant_at(s)
    }

    /// Every square that the piece on `from` may move to, each once.
    pub fn legal_destinations(&self, from: Square) -> (moves: Vec<Square>)
        requires
            self.wf(),
            from.valid(),
        ensures
            moves@.no_duplicates(),
            forall|t: Square| #[trigger]
                moves@.contains(t) <==> is_destination(self.board@, from, t),
            cell(self.board@, from.file as int, from.rank as int) == Occupant::Empty
                ==> moves@.len() == 0,
    {
        self.board.legal_destinations(from)
    }

    pub fn side_to_move(&self) -> (r: Side)
        ensures
            r == self.to_move,
    {
        self.to_move
    }

    pub fn selected_square(&self) -> (r: Option<Square>)
        ensures
            r == self.selected,
    {
        self.selected
    }

    /// The square `s` holds a piece of the side to move.
    pub fn is_selectable(&self, s: Square) -> (r: bool)
        requires
            self.wf(),
            s.valid(),
        ensures
            r == selectable(self.board@, self.to_move, s),
    {
        match self.board.occupant_at(s) {
            Occupant::Occupied(side, _) => side == self.to_move,
            Occupant::Empty => false,
        }
    }

    /// Selects `s` when it holds a piece of the side to move, and says
    /// whether it did; otherwise nothing changes.
    pub fn select(&mut self, s: Square) -> (r: bool)
        requires
            old(self).wf(),
            s.valid(),
        ensures
            final(self).wf(),
            r == selectable(old(self).board@, old(self).to_move, s),
            final(self).board@ == old(self).board@,
            final(self).to_move == old(self).to_move,
            final(self).selected == if r {
                Some(s)
            } else {
                old(self).selected
            },
    {
        if self.is_selectable(s) {
            self.selected = Some(s);
            true
        } else {
            false
        }
    }

    pub fn clear_selection(&mut self)
        requires
            old(self).wf(),
        ensures
            final(self).wf(),
            final(self).board@ == old(self).board@,
            final(self).to_move == old(self).to_move,
            final(self).selected == None::<Square>,
    {
        self.selected = None;
    }

    /// Moves the piece on `from` to `to` when `to` is one of its legal
    /// destinations, passes the turn to the other side, and returns true.
    /// Otherwise returns false and changes nothing.
    pub fn apply_move(&mut self, from: Square, to: Square) -> (moved: bool)
        requires
            old(self).wf(),
            from.valid(),
        ensures
            final(self).wf(),
            moved == is_destination(old(self).board@, from, to),
            final(self).board@ == if moved {
                after_move(old(self).board@, from, to)
            } else {
                old(self).board@
            },
            final(self).to_move == if moved {
                old(self).to_move.opponent()
            } else {
                old(self).to_move
            },
            final(self).selected == old(self).selected,
    {
        let moves = self.board.legal_destinations(from);
        if contains_square(&moves, to) {
            let piece = self.board.occupant_at(from);
            self.board.set(to, piece);
            self.board.set(from, Occupant::Empty);
            self.to_move = self.to_move.other();
            true
        } else {
            false
        }
    }

    /// One click on the square `s`. With nothing selected, selects `s` if it
    /// holds a piece of the side to move. With a selection, tries to move the
    /// selected piece to `s` and clears the selection either way.
    pub fn click(&mut self, s: Square) -> (r: ClickOutcome)
        requires
            old(self).wf(),
            s.valid(),
        ensures
            final(self).wf(),
            match old(self).selected {
                None => {
                    &&& final(self).board@ == old(self).board@
                    &&& final(self).to_move == old(self).to_move
                    &&& if selectable(old(self).board@, old(self).to_move, s) {
                        r == ClickOutcome::Selected && final(self).selected == Some(s)
                    } else {
                        r == ClickOutcome::Ignored && final(self).selected == None::<Square>
                    }
                },
                Some(from) => {
                    &&& final(self).selected == None::<Square>
                    &&& if is_destination(old(self).board@, from, s) {
                        &&& r == ClickOutcome::Moved
                        &&& final(self).board@ == after_move(old(self).board@, from, s)
                        &&& final(self).to_move == old(self).to_move.opponent()
                    } else {
                        &&& r == ClickOutcome::Rejected
                        &&& final(self).board@ == old(self).board@
                        &&& final(self).to_move == old(self).to_move
                    }
                },
            },
    {
        match self.selected {
            None => {
                if self.select(s) {
                    ClickOutcome::Selected
                } else {
                    ClickOutcome::Ignored
                }
            },
            Some(from) => {
                let moved = self.apply_move(from, s);
                self.selected = None;
                if moved {
                    ClickOutcome::Moved
                } else {
                    ClickOutcome::Rejected
                }
            },
        }
    }
}

/// A move cannot be repeated: once the piece on `from` has moved to `to`,
/// `from` is empty and the same move is no longer legal.
pub proof fn lemma_repeated_move_fails(b: Seq<Occupant>, from: Square, to: Square)
    requires
        b.len() == BOARD_SIZE * BOARD_SIZE,
        from.valid(),
        is_destination(b, from, to),
    ensures
        !is_destination(after_move(b, from, to), from, to),
{
    lemma_origin_not_destination(b, from);
    let b2 = after_move(b, from, to);
    assert(cell(b2, from.file as int, from.rank as int) == Occupant::Empty);
}

} // verus!
