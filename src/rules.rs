//! The move rule engine: which squares a piece may move to.
//!
//! Destinations are described here as a predicate on target squares
//! (`is_destination`), and the generator in `Board::legal_destinations` is
//! proved to produce exactly the squares that satisfy it, each once.
use vstd::prelude::*;
use crate::board::{cell, Board, Occupant, PieceKind, Side, Square, BOARD_SIZE};

verus! {

/// Integer coordinates `(f, r)` lie on the board.
pub open spec fn on_board(f: int, r: int) -> bool {
    0 <= f < BOARD_SIZE && 0 <= r < BOARD_SIZE
}

/// The square with integer coordinates `(f, r)`; meaningful when on the board.
pub open spec fn square_at(f: int, r: int) -> Square {
    Square { file: f as usize, rank: r as usize }
}

/// A piece of `side` may stand on `(f, r)`: the square is on the board and
/// either empty, or held by the opponent when `allow_capture` is set. A square
/// held by `side` itself is never enterable.
pub open spec fn enterable(b: Seq<Occupant>, side: Side, f: int, r: int, allow_capture: bool) -> bool {
    on_board(f, r) && match cell(b, f, r) {
        Occupant::Empty => true,
        Occupant::Occupied(s, _) => s != side && allow_capture,
    }
}

/// `(f, r)` is on the board and holds a piece of the side opposing `side`.
pub open spec fn holds_opponent(b: Seq<Occupant>, side: Side, f: int, r: int) -> bool {
    on_board(f, r) && match cell(b, f, r) {
        Occupant::Empty => false,
        Occupant::Occupied(s, _) => s != side,
    }
}

pub open spec fn abs(x: int) -> int {
    if x >= 0 {
        x
    } else {
        -x
    }
}

pub open spec fn sign(x: int) -> int {
    if x > 0 {
        1
    } else if x < 0 {
        -1
    } else {
        0
    }
}

/// The displacement along one axis after `j` steps in direction `d`.
pub open spec fn step(d: int, j: int) -> int {
    if d > 0 {
        j
    } else if d < 0 {
        -j
    } else {
        0
    }
}

/// The number of king steps that an offset `(df, dr)` spans.
pub open spec fn distance(df: int, dr: int) -> int {
    if abs(df) >= abs(dr) {
        abs(df)
    } else {
        abs(dr)
    }
}

pub open spec fn knight_offset(df: int, dr: int) -> bool {
    (abs(df) == 1 && abs(dr) == 2) || (abs(df) == 2 && abs(dr) == 1)
}

pub open spec fn king_offset(df: int, dr: int) -> bool {
    abs(df) <= 1 && abs(dr) <= 1 && (df != 0 || dr != 0)
}

/// `kind` slides along the unit direction `(dx, dy)`: rooks along the axes,
/// bishops along the diagonals, queens along both.
pub open spec fn slides_along(kind: PieceKind, dx: int, dy: int) -> bool {
    let axis = (dx == 0) != (dy == 0);
    let diagonal = dx != 0 && dy != 0;
    match kind {
        PieceKind::Rook => axis,
        PieceKind::Bishop => diagonal,
        PieceKind::Queen => axis || diagonal,
        _ => false,
    }
}

/// The rank direction in which pawns of `side` advance.
pub open spec fn forward(side: Side) -> int {
    match side {
        Side::Light => 1,
        Side::Dark => -1,
    }
}

/// The rank on which pawns of `side` start.
pub open spec fn pawn_start_rank(side: Side) -> int {
    match side {
        Side::Light => 1,
        Side::Dark => 6,
    }
}

/// The cell `j` steps from `(f, r)` along `(dx, dy)`.
pub open spec fn ray_cell(b: Seq<Occupant>, f: int, r: int, dx: int, dy: int, j: int) -> Occupant {
    cell(b, f + step(dx, j), r + step(dy, j))
}

/// Every square strictly between `(f, r)` and step `k` of the ray is empty.
pub open spec fn ray_clear(b: Seq<Occupant>, f: int, r: int, dx: int, dy: int, k: int) -> bool {
    forall|j: int| 1 <= j < k ==> #[trigger] ray_cell(b, f, r, dx, dy, j) == Occupant::Empty
}

/// `(tf, tr)` lies one or more steps from `(f, r)` along `(dx, dy)`, nothing
/// stands between, and a piece of `side` may enter it.
pub open spec fn ray_reaches(
    b: Seq<Occupant>,
    side: Side,
    f: int,
    r: int,
    dx: int,
    dy: int,
    tf: int,
    tr: int,
) -> bool {
    let k = distance(tf - f, tr - r);
    &&& k >= 1
    &&& tf == f + step(dx, k)
    &&& tr == r + step(dy, k)
    &&& ray_clear(b, f, r, dx, dy, k)
    &&& enterable(b, side, tf, tr, true)
}

/// Pawn rule: one step forward onto an empty square; two steps forward from
/// the start rank onto an empty square (the square passed over is not
/// examined); one step diagonally forward onto an opposing piece.
pub open spec fn pawn_reaches(b: Seq<Occupant>, side: Side, f: int, r: int, tf: int, tr: int) -> bool {
    let fw = forward(side);
    ||| tf == f && tr == r + fw && enterable(b, side, tf, tr, false)
    ||| tf == f && r == pawn_start_rank(side) && tr == r + 2 * fw && enterable(b, side, tf, tr, false)
    ||| abs(tf - f) == 1 && tr == r + fw && holds_opponent(b, side, tf, tr)
}

/// A piece of `side` and `kind` on `(f, r)` may move to `(tf, tr)`.
pub open spec fn reaches(
    b: Seq<Occupant>,
    side: Side,
    kind: PieceKind,
    f: int,
    r: int,
    tf: int,
    tr: int,
) -> bool {
    let df = tf - f;
    let dr = tr - r;
    match kind {
        PieceKind::Pawn => pawn_reaches(b, side, f, r, tf, tr),
        PieceKind::Knight => knight_offset(df, dr) && enterable(b, side, tf, tr, true),
        PieceKind::King => king_offset(df, dr) && enterable(b, side, tf, tr, true),
        _ => slides_along(kind, sign(df), sign(dr)) && ray_reaches(
            b,
            side,
            f,
            r,
            sign(df),
            sign(dr),
            tf,
            tr,
        ),
    }
}

/// `to` is a legal destination of the piece on `from`; an empty square has
/// none.
pub open spec fn is_destination(b: Seq<Occupant>, from: Square, to: Square) -> bool {
    match cell(b, from.file as int, from.rank as int) {
        Occupant::Empty => false,
        Occupant::Occupied(side, kind) => to.valid() && reaches(
            b,
            side,
            kind,
            from.file as int,
            from.rank as int,
            to.file as int,
            to.rank as int,
        ),
    }
}

/// Integer coordinates lie in `[0, BOARD_SIZE)`.
pub fn in_bounds(file: i64, rank: i64) -> (r: bool)
    ensures
        r == on_board(file as int, rank as int),
{
    0 <= file && file < BOARD_SIZE as i64 && 0 <= rank && rank < BOARD_SIZE as i64
}

impl Board {
    /// A piece of `side` may stand on `(file, rank)`: see `enterable`.
    pub fn can_occupy(&self, side: Side, file: i64, rank: i64, allow_capture: bool) -> (r: bool)
        requires
            self.wf(),
        ensures
            r == enterable(self@, side, file as int, rank as int, allow_capture),
    {
        if !in_bounds(file, rank) {
            return false;
        }
        match self.occupant_at(Square { file: file as usize, rank: rank as usize }) {
            Occupant::Empty => true,
            Occupant::Occupied(s, _) => s != side && allow_capture,
        }
    }

    /// `(file, rank)` is on the board and holds a piece opposing `side`.
    pub fn holds_opponent(&self, side: Side, file: i64, rank: i64) -> (r: bool)
        requires
            self.wf(),
        ensures
            r == holds_opponent(self@, side, file as int, rank as int),
    {
        if !in_bounds(file, rank) {
            return false;
        }
        match self.occupant_at(Square { file: file as usize, rank: rank as usize }) {
            Occupant::Empty => false,
            Occupant::Occupied(s, _) => s != side,
        }
    }

    /// Appends `(file, rank)` to `out` when a piece of `side` may stand there,
    /// and says whether it did.
    pub fn try_add(
        &self,
        side: Side,
        file: i64,
        rank: i64,
        allow_capture: bool,
        out: &mut Vec<Square>,
    ) -> (added: bool)
        requires
            self.wf(),
        ensures
            added == enterable(self@, side, file as int, rank as int, allow_capture),
            final(out)@ == if added {
                old(out)@.push(square_at(file as int, rank as int))
            } else {
                old(out)@
            },
            forall|t: Square| #[trigger]
                final(out)@.contains(t) <==> old(out)@.contains(t) || (added && t.file == file
                    && t.rank == rank),
            old(out)@.no_duplicates() && (added ==> forall|t: Square| #[trigger]
                old(out)@.contains(t) ==> t.file != file || t.rank != rank)
                ==> final(out)@.no_duplicates(),
    {
        if self.can_occupy(side, file, rank, allow_capture) {
            out.push(Square { file: file as usize, rank: rank as usize });
            proof {
                broadcast use vstd::seq_lib::lemma_seq_contains_after_push;
                let s = old(out)@;
                let x = square_at(file as int, rank as int);
                if s.no_duplicates() && (forall|t: Square| #[trigger]
                    s.contains(t) ==> t.file != file || t.rank != rank) {
                    assert(!s.contains(x));
                    assert forall|i: int, j: int|
                        0 <= i < out@.len() && 0 <= j < out@.len() && i != j implies out@[i]
                        != out@[j] by {
                        if i < s.len() && j < s.len() {
                            assert(out@[i] == s[i] && out@[j] == s[j]);
                        } else if i < s.len() {
                            assert(s.contains(out@[i]));
                        } else {
                            assert(s.contains(out@[j]));
                        }
                    }
                }
            }
            true
        } else {
            false
        }
    }
}

/// `t` lies from `from` in the unit direction `(dx, dy)`.
pub open spec fn in_direction(from: Square, dx: int, dy: int, t: Square) -> bool {
    sign(t.file - from.file) == dx && sign(t.rank - from.rank) == dy
}

/// Exec form of `step`.
fn step_by(d: i64, j: i64) -> (r: i64)
    requires
        -8 <= j <= 8,
    ensures
        r == step(d as int, j as int),
{
    if d > 0 {
        j
    } else if d < 0 {
        -j
    } else {
        0
    }
}

impl Board {
    /// Walks the ray from `from` in direction `(dx, dy)` one square at a time,
    /// appending each square that a piece of `side` may enter, and stops at
    /// the first square that is off the board or occupied.
    fn walk_ray(&self, side: Side, from: Square, dx: i64, dy: i64, out: &mut Vec<Square>)
        requires
            self.wf(),
            from.valid(),
            -1 <= dx <= 1,
            -1 <= dy <= 1,
            dx != 0 || dy != 0,
            old(out)@.no_duplicates(),
            forall|t: Square| #[trigger]
                old(out)@.contains(t) ==> !in_direction(from, dx as int, dy as int, t),
        ensures
            final(out)@.no_duplicates(),
            forall|t: Square| #[trigger]
                final(out)@.contains(t) <==> old(out)@.contains(t) || (t.valid() && in_direction(
                    from,
                    dx as int,
                    dy as int,
                    t,
                ) && ray_reaches(
                    self@,
                    side,
                    from.file as int,
                    from.rank as int,
                    dx as int,
                    dy as int,
                    t.file as int,
                    t.rank as int,
                )),
    {
        let ghost start = out@;
        let ghost b = self@;
        let ghost f0 = from.file as int;
        let ghost r0 = from.rank as int;
        let f = from.file as i64;
        let r = from.rank as i64;
        let mut k: i64 = 1;
        loop
            invariant_except_break
                out@.len() == start.len() + k - 1,
            invariant
                self.wf(),
                self@ == b,
                f == f0,
                r == r0,
                f0 == from.file,
                r0 == from.rank,
                on_board(f0, r0),
                -1 <= dx <= 1,
                -1 <= dy <= 1,
                dx != 0 || dy != 0,
                1 <= k <= 8,
                start.no_duplicates(),
                forall|t: Square| #[trigger]
                    start.contains(t) ==> !in_direction(from, dx as int, dy as int, t),
                out@.no_duplicates(),
                start.len() + k - 1 <= out@.len() <= start.len() + k,
                forall|i: int| 0 <= i < start.len() ==> out@[i] == start[i],
                forall|j: int|
                    1 <= j < k ==> {
                        &&& on_board(f0 + step(dx as int, j), r0 + step(dy as int, j))
                        &&& #[trigger] ray_cell(b, f0, r0, dx as int, dy as int, j) == Occupant::Empty
                        &&& out@[start.len() + j - 1] == square_at(
                            f0 + step(dx as int, j),
                            r0 + step(dy as int, j),
                        )
                    },
            ensures
                1 <= k <= 8,
                forall|j: int|
                    1 <= j < k ==> {
                        &&& on_board(f0 + step(dx as int, j), r0 + step(dy as int, j))
                        &&& #[trigger] ray_cell(b, f0, r0, dx as int, dy as int, j) == Occupant::Empty
                    },
                forall|i: int| 0 <= i < start.len() ==> out@[i] == start[i],
                out@.no_duplicates(),
                forall|j: int|
                    1 <= j < k ==> out@[start.len() + j - 1] == square_at(
                        f0 + step(dx as int, j),
                        r0 + step(dy as int, j),
                    ),
                !enterable(b, side, f0 + step(dx as int, k as int), r0 + step(dy as int, k as int), true)
                    && out@.len() == start.len() + k - 1 || enterable(
                    b,
                    side,
                    f0 + step(dx as int, k as int),
                    r0 + step(dy as int, k as int),
                    true,
                ) && ray_cell(b, f0, r0, dx as int, dy as int, k as int) != Occupant::Empty
                    && out@.len() == start.len() + k && out@[start.len() + k - 1] == square_at(
                    f0 + step(dx as int, k as int),
                    r0 + step(dy as int, k as int),
                ),
            decreases 8 - k,
        {
            let tf = f + step_by(dx, k);
            let tr = r + step_by(dy, k);
            let ghost here = square_at(tf as int, tr as int);
            proof {
                if on_board(tf as int, tr as int) && out@.contains(here) {
                    let i = choose|i: int| 0 <= i < out@.len() && out@[i] == here;
                    if i < start.len() {
                        assert(start[i] == here);
                        assert(start.contains(here));
                        assert(in_direction(from, dx as int, dy as int, here));
                        assert(false);
                    } else {
                        let j = i - start.len() + 1;
                        assert(ray_cell(b, f0, r0, dx as int, dy as int, j) == Occupant::Empty);
                        assert(out@[start.len() + j - 1] == here);
                        assert(false);
                    }
                }
            }
            let ghost prev = out@;
            let added = self.try_add(side, tf, tr, true, out);
            proof {
                assert forall|j: int| 1 <= j < k implies out@[start.len() + j - 1] == square_at(
                    f0 + step(dx as int, j),
                    r0 + step(dy as int, j),
                ) by {
                    assert(ray_cell(b, f0, r0, dx as int, dy as int, j) == Occupant::Empty);
                    assert(out@[start.len() + j - 1] == prev[start.len() + j - 1]);
                }
                assert forall|i: int| 0 <= i < start.len() implies out@[i] == start[i] by {
                    assert(out@[i] == prev[i]);
                }
            }
            if !added {
                break;
            }
            if !self.can_occupy(side, tf, tr, false) {
                break;
            }
            k = k + 1;
        }
        proof {
            let kk = k as int;
            let dxi = dx as int;
            let dyi = dy as int;
            assert forall|t: Square| #[trigger]
                out@.contains(t) <==> start.contains(t) || (t.valid() && in_direction(
                    from,
                    dxi,
                    dyi,
                    t,
                ) && ray_reaches(b, side, f0, r0, dxi, dyi, t.file as int, t.rank as int)) by {
                let tf = t.file as int;
                let tr = t.rank as int;
                if out@.contains(t) {
                    let i = choose|i: int| 0 <= i < out@.len() && out@[i] == t;
                    if i < start.len() {
                        assert(start[i] == t);
                    } else {
                        let j = i - start.len() + 1;
                        assert(out@[start.len() + j - 1] == t);
                        assert(tf == f0 + step(dxi, j) && tr == r0 + step(dyi, j));
                        assert(distance(tf - f0, tr - r0) == j);
                        assert forall|m: int| 1 <= m < j implies #[trigger] ray_cell(
                            b,
                            f0,
                            r0,
                            dxi,
                            dyi,
                            m,
                        ) == Occupant::Empty by {}
                        if j < kk {
                            assert(ray_cell(b, f0, r0, dxi, dyi, j) == Occupant::Empty);
                        }
                    }
                }
                if start.contains(t) {
                    let i = choose|i: int| 0 <= i < start.len() && start[i] == t;
                    assert(out@[i] == t);
                } else if t.valid() && in_direction(from, dxi, dyi, t) && ray_reaches(
                    b,
                    side,
                    f0,
                    r0,
                    dxi,
                    dyi,
                    tf,
                    tr,
                ) {
                    let d = distance(tf - f0, tr - r0);
                    assert(square_at(tf, tr) == t);
                    if d < kk {
                        assert(out@[start.len() + d - 1] == t);
                    } else if d == kk {
                        assert(out@[start.len() + kk - 1] == t);
                    } else {
                        assert(ray_cell(b, f0, r0, dxi, dyi, kk) == Occupant::Empty);
                        assert(on_board(f0 + step(dxi, kk), r0 + step(dyi, kk)));
                    }
                }
            }
        }
    }
}

impl Board {
    /// Destinations of a rook, bishop or queen of `side` on `from`: each of
    /// its rays walked in turn.
    fn slider_moves(&self, side: Side, kind: PieceKind, from: Square) -> (out: Vec<Square>)
        requires
            self.wf(),
            from.valid(),
            kind == PieceKind::Rook || kind == PieceKind::Bishop || kind == PieceKind::Queen,
        ensures
            out@.no_duplicates(),
            forall|t: Square| #[trigger]
                out@.contains(t) <==> t.valid() && reaches(
                    self@,
                    side,
                    kind,
                    from.file as int,
                    from.rank as int,
                    t.file as int,
                    t.rank as int,
                ),
    {
        let mut out: Vec<Square> = Vec::new();
        let (axes, diagonals) = match kind {
            PieceKind::Rook => (true, false),
            PieceKind::Bishop => (false, true),
            PieceKind::Queen => (true, true),
            _ => (false, false),
        };
        if axes {
            self.walk_ray(side, from, 1, 0, &mut out);
            self.walk_ray(side, from, -1, 0, &mut out);
            self.walk_ray(side, from, 0, 1, &mut out);
            self.walk_ray(side, from, 0, -1, &mut out);
        }
        if diagonals {
            self.walk_ray(side, from, 1, 1, &mut out);
            self.walk_ray(side, from, -1, 1, &mut out);
            self.walk_ray(side, from, 1, -1, &mut out);
            self.walk_ray(side, from, -1, -1, &mut out);
        }
        out
    }
}

impl Board {
    /// Destinations of a knight of `side` on `from`: its eight jumps, each
    /// tested on its own, whatever stands in between.
    fn knight_moves(&self, side: Side, from: Square) -> (out: Vec<Square>)
        requires
            self.wf(),
            from.valid(),
        ensures
            out@.no_duplicates(),
            forall|t: Square| #[trigger]
                out@.contains(t) <==> t.valid() && reaches(
                    self@,
                    side,
                    PieceKind::Knight,
                    from.file as int,
                    from.rank as int,
                    t.file as int,
                    t.rank as int,
                ),
    {
        let f = from.file as i64;
        let r = from.rank as i64;
        let mut out: Vec<Square> = Vec::new();
        self.try_add(side, f + 2, r + 1, true, &mut out);
        self.try_add(side, f - 2, r + 1, true, &mut out);
        self.try_add(side, f + 2, r - 1, true, &mut out);
        self.try_add(side, f - 2, r - 1, true, &mut out);
        self.try_add(side, f + 1, r + 2, true, &mut out);
        self.try_add(side, f - 1, r + 2, true, &mut out);
        self.try_add(side, f + 1, r - 2, true, &mut out);
        self.try_add(side, f - 1, r - 2, true, &mut out);
        proof {
            assert forall|t: Square| #[trigger]
                out@.contains(t) <==> t.valid() && reaches(
                    self@,
                    side,
                    PieceKind::Knight,
                    f as int,
                    r as int,
                    t.file as int,
                    t.rank as int,
                ) by {
                let df = t.file - f;
                let dr = t.rank - r;
                assert(knight_offset(df, dr) <==> {
                    ||| df == 2 && dr == 1
                    ||| df == -2 && dr == 1
                    ||| df == 2 && dr == -1
                    ||| df == -2 && dr == -1
                    ||| df == 1 && dr == 2
                    ||| df == -1 && dr == 2
                    ||| df == 1 && dr == -2
                    ||| df == -1 && dr == -2
                });
            }
        }
        out
    }

    /// Destinations of a king of `side` on `from`: the eight adjacent squares.
    fn king_moves(&self, side: Side, from: Square) -> (out: Vec<Square>)
        requires
            self.wf(),
            from.valid(),
        ensures
            out@.no_duplicates(),
            forall|t: Square| #[trigger]
                out@.contains(t) <==> t.valid() && reaches(
                    self@,
                    side,
                    PieceKind::King,
                    from.file as int,
                    from.rank as int,
                    t.file as int,
                    t.rank as int,
                ),
    {
        let f = from.file as i64;
        let r = from.rank as i64;
        let mut out: Vec<Square> = Vec::new();
        self.try_add(side, f + 1, r, true, &mut out);
        self.try_add(side, f + 1, r + 1, true, &mut out);
        self.try_add(side, f, r + 1, true, &mut out);
        self.try_add(side, f - 1, r + 1, true, &mut out);
        self.try_add(side, f - 1, r, true, &mut out);
        self.try_add(side, f - 1, r - 1, true, &mut out);
        self.try_add(side, f, r - 1, true, &mut out);
        self.try_add(side, f + 1, r - 1, true, &mut out);
        proof {
            assert forall|t: Square| #[trigger]
                out@.contains(t) <==> t.valid() && reaches(
                    self@,
                    side,
                    PieceKind::King,
                    f as int,
                    r as int,
                    t.file as int,
                    t.rank as int,
                ) by {
                let df = t.file - f;
                let dr = t.rank - r;
                assert(king_offset(df, dr) <==> {
                    ||| df == 1 && dr == 0
                    ||| df == 1 && dr == 1
                    ||| df == 0 && dr == 1
                    ||| df == -1 && dr == 1
                    ||| df == -1 && dr == 0
                    ||| df == -1 && dr == -1
                    ||| df == 0 && dr == -1
                    ||| df == 1 && dr == -1
                });
            }
        }
        out
    }

    /// Destinations of a pawn of `side` on `from`.
    fn pawn_moves(&self, side: Side, from: Square) -> (out: Vec<Square>)
        requires
            self.wf(),
            from.valid(),
        ensures
            out@.no_duplicates(),
            forall|t: Square| #[trigger]
                out@.contains(t) <==> t.valid() && reaches(
                    self@,
                    side,
                    PieceKind::Pawn,
                    from.file as int,
                    from.rank as int,
                    t.file as int,
                    t.rank as int,
                ),
    {
        let f = from.file as i64;
        let r = from.rank as i64;
        let (fw, start): (i64, i64) = match side {
            Side::Light => (1, 1),
            Side::Dark => (-1, 6),
        };
        let mut out: Vec<Square> = Vec::new();
        self.try_add(side, f, r + fw, false, &mut out);
        if r == start {
            // The square passed over is not examined.
            self.try_add(side, f, r + 2 * fw, false, &mut out);
        }
        if self.holds_opponent(side, f + 1, r + fw) {
            self.try_add(side, f + 1, r + fw, true, &mut out);
        }
        if self.holds_opponent(side, f - 1, r + fw) {
            self.try_add(side, f - 1, r + fw, true, &mut out);
        }
        out
    }
}

impl Board {
    /// Every square that the piece on `from` may move to, each listed once,
    /// in order of generation. An empty square has none.
    pub fn legal_destinations(&self, from: Square) -> (moves: Vec<Square>)
        requires
            self.wf(),
            from.valid(),
        ensures
            moves@.no_duplicates(),
            forall|t: Square| #[trigger] moves@.contains(t) <==> is_destination(self@, from, t),
            cell(self@, from.file as int, from.rank as int) == Occupant::Empty ==> moves@.len()
                == 0,
    {
        match self.occupant_at(from) {
            Occupant::Empty => Vec::new(),
            Occupant::Occupied(side, kind) => match kind {
                PieceKind::Pawn => self.pawn_moves(side, from),
                PieceKind::Knight => self.knight_moves(side, from),
                PieceKind::King => self.king_moves(side, from),
                _ => self.slider_moves(side, kind, from),
            },
        }
    }
}

/// `t` lies `j` steps from `from` along the direction `(dx, dy)`.
pub open spec fn on_ray(from: Square, dx: int, dy: int, j: int, t: Square) -> bool {
    t.file == from.file + step(dx, j) && t.rank == from.rank + step(dy, j)
}

/// A piece never has its own square as a destination.
pub proof fn lemma_origin_not_destination(b: Seq<Occupant>, from: Square)
    ensures
        !is_destination(b, from, from),
{
}

/// A destination is never held by the moving piece's own side: it is empty or
/// holds a piece of the opposing side.
pub proof fn lemma_destination_not_own_side(b: Seq<Occupant>, from: Square, to: Square)
    requires
        is_destination(b, from, to),
    ensures
        match cell(b, from.file as int, from.rank as int) {
            Occupant::Occupied(side, _) => match cell(b, to.file as int, to.rank as int) {
                Occupant::Empty => true,
                Occupant::Occupied(s, _) => s == side.opponent(),
            },
            Occupant::Empty => false,
        },
{
}

/// Along a ray of a sliding piece, the first occupied square `k` steps out
/// ends the ray: that square is a destination exactly when it holds an
/// opposing piece, and no square beyond it is a destination.
pub proof fn lemma_ray_stops_at_first_piece(
    b: Seq<Occupant>,
    from: Square,
    side: Side,
    kind: PieceKind,
    dx: int,
    dy: int,
    k: int,
)
    requires
        from.valid(),
        cell(b, from.file as int, from.rank as int) == Occupant::Occupied(side, kind),
        -1 <= dx <= 1,
        -1 <= dy <= 1,
        slides_along(kind, dx, dy),
        k >= 1,
        ray_clear(b, from.file as int, from.rank as int, dx, dy, k),
        ray_cell(b, from.file as int, from.rank as int, dx, dy, k) != Occupant::Empty,
    ensures
        forall|t: Square| #[trigger]
            on_ray(from, dx, dy, k, t) ==> (is_destination(b, from, t) <==> holds_opponent(
                b,
                side,
                t.file as int,
                t.rank as int,
            )),
        forall|t: Square, j: int|
            j > k && #[trigger] on_ray(from, dx, dy, j, t) ==> !is_destination(b, from, t),
{
    let f = from.file as int;
    let r = from.rank as int;
    assert forall|t: Square, j: int| j > k && #[trigger] on_ray(from, dx, dy, j, t) implies !is_destination(b, from, t) by {
        assert(sign(t.file - f) == dx && sign(t.rank - r) == dy);
        assert(distance(t.file - f, t.rank - r) == j);
        if is_destination(b, from, t) {
            assert(ray_cell(b, f, r, dx, dy, k) == Occupant::Empty);
        }
    }
    assert forall|t: Square| #[trigger] on_ray(from, dx, dy, k, t) implies (is_destination(b, from, t) <==> holds_opponent(
                b,
                side,
                t.file as int,
                t.rank as int,
            )) by {
        assert(sign(t.file - f) == dx && sign(t.rank - r) == dy);
        assert(distance(t.file - f, t.rank - r) == k);
    }
}

/// Knight and king moves jump: whether `to` is a destination depends on the
/// origin and the target square alone, not on any square in between. Two
/// boards that agree on those two squares agree on it.
pub proof fn lemma_leaper_ignores_other_squares(
    b1: Seq<Occupant>,
    b2: Seq<Occupant>,
    from: Square,
    to: Square,
    side: Side,
    kind: PieceKind,
)
    requires
        kind == PieceKind::Knight || kind == PieceKind::King,
        cell(b1, from.file as int, from.rank as int) == Occupant::Occupied(side, kind),
        cell(b2, from.file as int, from.rank as int) == Occupant::Occupied(side, kind),
        cell(b1, to.file as int, to.rank as int) == cell(b2, to.file as int, to.rank as int),
    ensures
        is_destination(b1, from, to) == is_destination(b2, from, to),
{
}

} // verus!
