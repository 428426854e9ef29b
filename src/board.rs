//! Squares, sides, pieces and the 8x8 board.
use vstd::prelude::*;

verus! {

/// The number of files (and of ranks) on the board.
pub const BOARD_SIZE: usize = 8;

/// One of the two competing colours.
#[derive(Clone, Copy, Debug, PartialEq, Eq, Structural)]
pub enum Side {
    Light,
    Dark,
}

impl Side {
    /// The side that is not `self`.
    pub open spec fn opponent(self) -> Side {
        match self {
            Side::Light => Side::Dark,
            Side::Dark => Side::Light,
        }
    }

    /// The side that is not `self`.
    pub fn other(&self) -> (r: Side)
        ensures
            r == self.opponent(),
    {
        match self {
            Side::Light => Side::Dark,
            Side::Dark => Side::Light,
        }
    }
}

/// The kind of a chess piece, without its side.
#[derive(Clone, Copy, Debug, PartialEq, Eq, Structural)]
pub enum PieceKind {
    Pawn,
    Rook,
    Knight,
    Bishop,
    Queen,
    King,
}

impl PieceKind {
    /// The letter that marks a piece of this kind; pawns carry none.
    pub open spec fn letter_of(self) -> Option<char> {
        match self {
            PieceKind::Pawn => None,
            PieceKind::Rook => Some('R'),
            PieceKind::Knight => Some('N'),
            PieceKind::Bishop => Some('B'),
            PieceKind::Queen => Some('Q'),
            PieceKind::King => Some('K'),
        }
    }

    /// The letter that marks a piece of this kind; pawns carry none.
    pub fn letter(&self) -> (r: Option<char>)
        ensures
            r == self.letter_of(),
    {
        match self {
            PieceKind::Pawn => None,
            PieceKind::Rook => Some('R'),
            PieceKind::Knight => Some('N'),
            PieceKind::Bishop => Some('B'),
            PieceKind::Queen => Some('Q'),
            PieceKind::King => Some('K'),
        }
    }
}

/// What a square holds.
#[derive(Clone, Copy, Debug, PartialEq, Eq, Structural)]
pub enum Occupant {
    Empty,
    Occupied(Side, PieceKind),
}

/// A (file, rank) coordinate. It lies on the board when both are below
/// `BOARD_SIZE`.
#[derive(Clone, Copy, Debug, PartialEq, Eq, Structural)]
pub struct Square {
    pub file: usize,
    pub rank: usize,
}

impl Square {
    /// Both coordinates lie in `[0, BOARD_SIZE)`.
    pub open spec fn valid(self) -> bool {
        self.file < BOARD_SIZE && self.rank < BOARD_SIZE
    }

    /// Position of the square in the board's row-major cell sequence.
    pub open spec fn index(self) -> int {
        self.rank * BOARD_SIZE + self.file
    }

    pub fn new(file: usize, rank: usize) -> (r: Square)
        ensures
            r.file == file,
            r.rank == rank,
    {
        Square { file, rank }
    }

    pub fn in_bounds(&self) -> (r: bool)
        ensures
            r == self.valid(),
    {
        self.file < BOARD_SIZE && self.rank < BOARD_SIZE
    }
}

/// The square under the pixel `(x, y)` of a board drawn with square tiles of
/// `tile` pixels, file along `x` and rank along `y`; `None` past the board.
pub fn square_at_pixel(x: u32, y: u32, tile: u32) -> (r: Option<Square>)
    requires
        tile > 0,
    ensures
        r == if x / tile < BOARD_SIZE && y / tile < BOARD_SIZE {
            Some(Square { file: (x / tile) as usize, rank: (y / tile) as usize })
        } else {
            None
        },
{
    let file = x / tile;
    let rank = y / tile;
    if (file as usize) < BOARD_SIZE && (rank as usize) < BOARD_SIZE {
        Some(Square { file: file as usize, rank: rank as usize })
    } else {
        None
    }
}

/// The cell at integer coordinates `(f, r)` of a board model.
pub open spec fn cell(b: Seq<Occupant>, f: int, r: int) -> Occupant {
    b[r * BOARD_SIZE + f]
}

/// The piece kind that starts on file `f` of a back rank.
pub open spec fn back_rank_kind(f: int) -> PieceKind {
    if f == 0 || f == 7 {
        PieceKind::Rook
    } else if f == 1 || f == 6 {
        PieceKind::Knight
    } else if f == 2 || f == 5 {
        PieceKind::Bishop
    } else if f == 3 {
        PieceKind::Queen
    } else {
        PieceKind::King
    }
}

/// The occupant of square `(f, r)` in the standard initial placement: Light's
/// pieces on ranks 0 and 1, Dark's on ranks 7 and 6, empty elsewhere.
pub open spec fn initial_occupant(f: int, r: int) -> Occupant {
    if r == 0 {
        Occupant::Occupied(Side::Light, back_rank_kind(f))
    } else if r == 1 {
        Occupant::Occupied(Side::Light, PieceKind::Pawn)
    } else if r == 6 {
        Occupant::Occupied(Side::Dark, PieceKind::Pawn)
    } else if r == 7 {
        Occupant::Occupied(Side::Dark, back_rank_kind(f))
    } else {
        Occupant::Empty
    }
}

/// The occupant that the standard placement puts on `(file, rank)`.
pub fn starting_occupant(file: usize, rank: usize) -> (o: Occupant)
    ensures
        o == initial_occupant(file as int, rank as int),
{
    let kind = if file == 0 || file == 7 {
        PieceKind::Rook
    } else if file == 1 || file == 6 {
        PieceKind::Knight
    } else if file == 2 || file == 5 {
        PieceKind::Bishop
    } else if file == 3 {
        PieceKind::Queen
    } else {
        PieceKind::King
    };
    if rank == 0 {
        Occupant::Occupied(Side::Light, kind)
    } else if rank == 1 {
        Occupant::Occupied(Side::Light, PieceKind::Pawn)
    } else if rank == 6 {
        Occupant::Occupied(Side::Dark, PieceKind::Pawn)
    } else if rank == 7 {
        Occupant::Occupied(Side::Dark, kind)
    } else {
        Occupant::Empty
    }
}

/// The 8x8 grid of occupants, stored rank by rank.
pub struct Board {
    cells: Vec<Occupant>,
}

impl View for Board {
    type V = Seq<Occupant>;

    closed spec fn view(&self) -> Seq<Occupant> {
        self.cells@
    }
}

impl Board {
    /// The board holds exactly one cell per square.
    pub open spec fn wf(&self) -> bool {
        self@.len() == BOARD_SIZE * BOARD_SIZE
    }

    /// A board on which every square is empty.
    pub fn empty() -> (b: Board)
        ensures
            b.wf(),
            forall|i: int| 0 <= i < b@.len() ==> b@[i] == Occupant::Empty,
    {
        let mut cells: Vec<Occupant> = Vec::new();
        let mut i: usize = 0;
        while i < BOARD_SIZE * BOARD_SIZE
            invariant
                i <= BOARD_SIZE * BOARD_SIZE,
                cells@.len() == i,
                forall|j: int| 0 <= j < i ==> cells@[j] == Occupant::Empty,
            decreases BOARD_SIZE * BOARD_SIZE - i,
        {
            cells.push(Occupant::Empty);
            i = i + 1;
        }
        Board { cells }
    }

    /// The board in the standard initial placement.
    pub fn standard_setup() -> (b: Board)
        ensures
            b.wf(),
            forall|f: int, r: int|
                0 <= f < BOARD_SIZE && 0 <= r < BOARD_SIZE ==> #[trigger] cell(b@, f, r)
                    == initial_occupant(f, r),
    {
        let mut cells: Vec<Occupant> = Vec::new();
        let mut rank: usize = 0;
        while rank < BOARD_SIZE
            invariant
                rank <= BOARD_SIZE,
                cells@.len() == rank * BOARD_SIZE,
                forall|f: int, r: int|
                    0 <= f < BOARD_SIZE && 0 <= r < rank ==> #[trigger] cell(cells@, f, r)
                        == initial_occupant(f, r),
            decreases BOARD_SIZE - rank,
        {
            let mut file: usize = 0;
            while file < BOARD_SIZE
                invariant
                    rank < BOARD_SIZE,
                    file <= BOARD_SIZE,
                    cells@.len() == rank * BOARD_SIZE + file,
                    forall|f: int, r: int|
                        0 <= f < BOARD_SIZE && (0 <= r < rank || (r == rank && 0 <= f < file))
                            ==> #[trigger] cell(cells@, f, r) == initial_occupant(f, r),
                decreases BOARD_SIZE - file,
            {
                let ghost before = cells@;
                cells.push(starting_occupant(file, rank));
                assert forall|f: int, r: int|
                    0 <= f < BOARD_SIZE && (0 <= r < rank || (r == rank && 0 <= f <= file))
                        implies #[trigger] cell(cells@, f, r) == initial_occupant(f, r) by {
                    if r < rank || f < file {
                        assert(r * BOARD_SIZE + f < before.len());
                        assert(cell(cells@, f, r) == cell(before, f, r));
                    }
                }
                file = file + 1;
            }
            rank = rank + 1;
        }
        Board { cells }
    }

    /// What the square `s` holds.
    pub fn occupant_at(&self, s: Square) -> (o: Occupant)
        requires
            self.wf(),
            s.valid(),
        ensures
            o == self@[s.index()],
    {
        self.cells[s.rank * BOARD_SIZE + s.file]
    }

    /// Puts `o` on the square `s`, replacing what was there.
    pub fn set(&mut self, s: Square, o: Occupant)
        requires
            old(self).wf(),
            s.valid(),
        ensures
            final(self)@ == old(self)@.update(s.index(), o),
    {
        self.cells.set(s.rank * BOARD_SIZE + s.file, o);
    }
}

} // verus!
