use vstd::prelude::*;

use crate::location::{location_of_pair, Delta, Location, LocationError, ROW_WIDTH, SLOT_WIDTH};
use crate::piece::{slot_of_bytes, Piece, PieceType, Slot, Team};

verus! {

/// Number of bytes that the eight rendered ranks take; a board holds at least these.
pub open spec fn ranks_len() -> int {
    8 * ROW_WIDTH
}

/// Index of the background colour digit of square `loc`: the `X` of `ESC [ 4 X m`,
/// which begins five bytes before the square's foreground colour.
pub open spec fn highlight_index(loc: Location) -> int {
    loc.spec_offset() - 5 + 3
}

/// What stands on square `loc` of the rendered board `b`.
pub open spec fn slot_at(b: Seq<u8>, loc: Location) -> Slot {
    let o = loc.spec_offset();
    slot_of_bytes(b.subrange(o, o + 9))
}

/// The offset of a square lies inside the rendered ranks, with room for the whole square.
pub proof fn lemma_offset_bounds(loc: Location)
    ensures
        7 <= loc.spec_offset(),
        loc.spec_offset() + SLOT_WIDTH <= ranks_len() - 6,
{
    assert(SLOT_WIDTH == 14 && ROW_WIDTH == 125);
    assert(loc.spec_offset() == 14 * loc.file() + 7 + 125 * loc.rank());
    assert(125 * loc.rank() <= 125 * 7);
}

/// Two squares' rendered bytes (from the foreground colour on, `SLOT_WIDTH` of them)
/// never overlap, and a background digit never falls inside the nine bytes that
/// tell what stands on a square.
pub proof fn lemma_offsets_apart(x: Location, y: Location)
    ensures
        x != y ==> (x.spec_offset() + SLOT_WIDTH <= y.spec_offset() || y.spec_offset()
            + SLOT_WIDTH <= x.spec_offset()),
        !(y.spec_offset() <= highlight_index(x) < y.spec_offset() + 9),
        x != y ==> highlight_index(x) != highlight_index(y),
{
    let fx = x.file();
    let rx = x.rank();
    let fy = y.file();
    let ry = y.rank();
    assert(0 <= fx < 8 && 0 <= rx < 8 && 0 <= fy < 8 && 0 <= ry < 8);
    assert(SLOT_WIDTH == 14 && ROW_WIDTH == 125);
    assert(x.spec_offset() == 14 * fx + 7 + 125 * rx);
    assert(y.spec_offset() == 14 * fy + 7 + 125 * ry);
    if rx < ry {
        assert(125 * rx + 125 <= 125 * ry);
    } else if ry < rx {
        assert(125 * ry + 125 <= 125 * rx);
    }
    if x != y {
        assert(fx != fy || rx != ry) by {
            if fx == fy && rx == ry {
                assert(x.0 == y.0);
                assert(x.1 == y.1);
            }
        }
    }
}

/// Recolouring a background digit leaves what stands on every square as it was.
pub proof fn lemma_highlight_keeps_slots(b: Seq<u8>, x: Location, v: u8, y: Location)
    requires
        b.len() >= ranks_len(),
    ensures
        slot_at(b.update(highlight_index(x), v), y) == slot_at(b, y),
{
    lemma_offsets_apart(x, y);
    let o = y.spec_offset();
    assert(b.update(highlight_index(x), v).subrange(o, o + 9) =~= b.subrange(o, o + 9));
}



/// How many more squares a walk from `loc` in steps of `d` can visit.
pub open spec fn ray_measure(loc: Location, d: Delta) -> nat {
    if d.0 > 0 {
        (8 - loc.file()) as nat
    } else if d.0 < 0 {
        (loc.file() + 1) as nat
    } else if d.1 > 0 {
        (8 - loc.rank()) as nat
    } else {
        (loc.rank() + 1) as nat
    }
}

/// The squares `start`, `start + d`, `start + 2d`, ... as long as they stay on the
/// board (just `start` when `d` is no step at all).
pub open spec fn ray(start: Location, d: Delta) -> Seq<Location>
    decreases ray_measure(start, d),
{
    if d.0 == 0 && d.1 == 0 {
        seq![start]
    } else {
        match start.spec_add(d) {
            Some(next) => {
                proof {
                    lemma_spec_add_moves(start, d);
                }
                seq![start] + ray(next, d)
            },
            None => seq![start],
        }
    }
}

/// A square reached by a step lies that step away.
pub proof fn lemma_spec_add_moves(l: Location, d: Delta)
    ensures
        l.spec_add(d) matches Some(m) ==> m.file() == l.file() + d.0 && m.rank() == l.rank() + d.1,
        l.spec_add(d) is Some <==> (0 <= l.file() + d.0 < 8 && 0 <= l.rank() + d.1 < 8),
{
}

/// The walk starts at `start`, each square after the first is one step from the one
/// before it, and the step from the last square falls off the board; when the walk
/// goes on past its first square the step is at most seven files and seven ranks.
pub proof fn lemma_ray_steps(start: Location, d: Delta)
    requires
        !(d.0 == 0 && d.1 == 0),
    ensures
        ray(start, d).len() >= 1,
        ray(start, d)[0] == start,
        forall|i: int|
            0 <= i < ray(start, d).len() - 1 ==> (#[trigger] ray(start, d)[i]).spec_add(d)
                == Some(ray(start, d)[i + 1]),
        ray(start, d).last().spec_add(d) is None,
        ray(start, d).len() > 1 ==> -7 <= d.0 <= 7 && -7 <= d.1 <= 7,
    decreases ray_measure(start, d),
{
    let r = ray(start, d);
    lemma_spec_add_moves(start, d);
    match start.spec_add(d) {
        Some(next) => {
            lemma_ray_steps(next, d);
            let rest = ray(next, d);
            assert(r == seq![start] + rest);
            assert forall|i: int| 0 <= i < r.len() - 1 implies (#[trigger] r[i]).spec_add(d) == Some(r[i + 1]) by {
                if i > 0 {
                    assert(r[i] == rest[i - 1]);
                    assert(r[i + 1] == rest[i]);
                }
            }
        },
        None => {},
    }
}

/// How many squares at the head of `squares` are empty on board `b`.
pub open spec fn leading_empty(b: Seq<u8>, squares: Seq<Location>) -> nat
    decreases squares.len(),
{
    if squares.len() == 0 {
        0
    } else if slot_at(b, squares[0]) is Piece {
        0
    } else {
        1 + leading_empty(b, squares.drop_first())
    }
}

/// The squares before the `leading_empty`-th are empty and the one at it, if any, is not.
pub proof fn lemma_leading_empty(b: Seq<u8>, squares: Seq<Location>)
    ensures
        leading_empty(b, squares) <= squares.len(),
        forall|j: int| 0 <= j < leading_empty(b, squares) ==> #[trigger] slot_at(b, squares[j]) is Empty,
        leading_empty(b, squares) < squares.len() ==> slot_at(b, squares[leading_empty(b, squares) as int]) is Piece,
    decreases squares.len(),
{
    if squares.len() > 0 && slot_at(b, squares[0]) is Empty {
        let rest = squares.drop_first();
        lemma_leading_empty(b, rest);
        assert forall|j: int| 0 <= j < leading_empty(b, squares) implies #[trigger] slot_at(b, squares[j]) is Empty by {
            if j > 0 {
                assert(squares[j] == rest[j - 1]);
            }
        }
        if leading_empty(b, squares) < squares.len() {
            assert(squares[leading_empty(b, squares) as int] == rest[leading_empty(b, rest) as int]);
        }
    }
}

/// Board `b` with the squares of `squares` coloured in order: the first `k` blue
/// (free to move to), the rest black (obstructed).
pub open spec fn paint_line(b: Seq<u8>, squares: Seq<Location>, k: int) -> Seq<u8>
    decreases squares.len(),
{
    if squares.len() == 0 {
        b
    } else {
        paint_line(b, squares.drop_last(), k).update(
            highlight_index(squares.last()),
            if squares.len() - 1 < k {
                0x34u8
            } else {
                0x30u8
            },
        )
    }
}

/// Painting a line keeps the length of the board and what stands on every square.
pub proof fn lemma_paint_line_keeps_slots(b: Seq<u8>, squares: Seq<Location>, k: int)
    requires
        b.len() >= ranks_len(),
    ensures
        paint_line(b, squares, k).len() == b.len(),
        forall|y: Location| #[trigger] slot_at(paint_line(b, squares, k), y) == slot_at(b, y),
    decreases squares.len(),
{
    if squares.len() > 0 {
        let prev = paint_line(b, squares.drop_last(), k);
        lemma_paint_line_keeps_slots(b, squares.drop_last(), k);
        let v = if squares.len() - 1 < k {
            0x34u8
        } else {
            0x30u8
        };
        assert forall|y: Location| #[trigger] slot_at(paint_line(b, squares, k), y) == slot_at(b, y) by {
            lemma_highlight_keeps_slots(prev, squares.last(), v, y);
        }
    }
}

/// The colours a line walk leaves: walking from `start` in steps of `delta`, the
/// squares before the first occupied one turn blue and that square and all after
/// it turn black.
pub open spec fn spec_highlight_line(b: Seq<u8>, start: Location, delta: Delta) -> Seq<u8> {
    let squares = ray(start, delta);
    paint_line(b, squares, leading_empty(b, squares) as int)
}

/// Board `b` with square `target` coloured `colour` when there is such a square and
/// `cond` holds.
pub open spec fn mark(b: Seq<u8>, target: Option<Location>, cond: bool, colour: u8) -> Seq<u8> {
    match target {
        Some(t) => if cond {
            b.update(highlight_index(t), colour)
        } else {
            b
        },
        None => b,
    }
}

/// Whether a piece of the side other than `turn` stands on square `target`.
pub open spec fn holds_enemy(b: Seq<u8>, target: Option<Location>, turn: Team) -> bool {
    match target {
        Some(t) => match slot_at(b, t) {
            Slot::Piece(p) => p.team != turn,
            Slot::Empty => false,
        },
        None => false,
    }
}

/// Whether a pawn of `piece`'s side stands on its starting rank at `location`.
pub open spec fn on_pawn_start(piece: Piece, location: Location) -> bool {
    (piece.team == Team::White && location.1 == crate::location::Number::Two) || (piece.team
        == Team::Black && location.1 == crate::location::Number::Seven)
}

/// The colours left by selecting `piece` at `location` for side `turn`.
///
/// Only a pawn paints anything. When its own square shows no piece, the square
/// ahead turns blue, and the one two ahead too from the starting rank; when a piece
/// stands there (as it does when the pawn itself was read), both squares ahead turn
/// black. Then each diagonal square ahead that holds a piece of the other side turns
/// blue. Any other kind leaves the board unchanged.
pub open spec fn spec_highlight_board(b: Seq<u8>, location: Location, piece: Piece, turn: Team) -> Seq<u8> {
    if piece.piece_type != PieceType::Pawn {
        b
    } else {
        let fd = turn.spec_forward_direction();
        let ahead1 = location.spec_add(Delta(0i8, fd));
        let ahead2 = location.spec_add(Delta(0i8, (2 * fd) as i8));
        let b1 = if slot_at(b, location) is Empty {
            mark(mark(b, ahead1, true, 0x34), ahead2, on_pawn_start(piece, location), 0x34)
        } else {
            mark(mark(b, ahead1, true, 0x30), ahead2, true, 0x30)
        };
        let left = location.spec_add(Delta(-1i8, fd));
        let right = location.spec_add(Delta(1i8, fd));
        mark(mark(b1, left, holds_enemy(b, left, turn), 0x34), right, holds_enemy(b, right, turn), 0x34)
    }
}

/// Marking a square keeps the length of the board and what stands on every square.
pub proof fn lemma_mark_keeps_slots(b: Seq<u8>, target: Option<Location>, cond: bool, colour: u8)
    requires
        b.len() >= ranks_len(),
    ensures
        mark(b, target, cond, colour).len() == b.len(),
        forall|y: Location| #[trigger] slot_at(mark(b, target, cond, colour), y) == slot_at(b, y),
{
    if let Some(t) = target {
        lemma_offset_bounds(t);
        assert forall|y: Location| #[trigger] slot_at(mark(b, target, cond, colour), y) == slot_at(b, y) by {
            lemma_highlight_keeps_slots(b, t, colour, y);
        }
    }
}

/// The fourteen bytes a vacated square is written with, from its foreground colour
/// on: default background, default foreground, a space and a zero-width space.
pub open spec fn empty_square_bytes() -> Seq<u8> {
    seq![0x1bu8, 0x5b, 0x34, 0x39, 0x6d, 0x1b, 0x5b, 0x33, 0x39, 0x6d, 0x20, 0xe2, 0x80, 0x8b]
}

fn empty_square() -> (r: [u8; 14])
    ensures
        r@ == empty_square_bytes(),
{
    let r: [u8; 14] = [0x1b, 0x5b, 0x34, 0x39, 0x6d, 0x1b, 0x5b, 0x33, 0x39, 0x6d, 0x20, 0xe2, 0x80, 0x8b];
    assert(r@ =~= empty_square_bytes());
    r
}

/// Board `b` with `bytes` written from index `at` on.
pub open spec fn write_at(b: Seq<u8>, at: int, bytes: Seq<u8>) -> Seq<u8> {
    b.subrange(0, at) + bytes + b.subrange(at + bytes.len(), b.len() as int)
}

/// The board after moving what is at `from` to `to`: the `SLOT_WIDTH` bytes from the
/// foreground colour of `from` on are copied to the same place of `to`, and then
/// overwritten with [`empty_square_bytes`].
pub open spec fn spec_move(b: Seq<u8>, from: Location, to: Location) -> Seq<u8> {
    let src = from.spec_offset();
    let copied = write_at(b, to.spec_offset(), b.subrange(src, src + SLOT_WIDTH));
    write_at(copied, src, empty_square_bytes())
}

/// Moving carries what stood on `from` to `to`, leaves `from` empty, and leaves what
/// stands on every other square as it was.
pub proof fn lemma_move_slots(b: Seq<u8>, from: Location, to: Location)
    requires
        b.len() >= ranks_len(),
        from != to,
    ensures
        spec_move(b, from, to).len() == b.len(),
        slot_at(spec_move(b, from, to), to) == slot_at(b, from),
        slot_at(spec_move(b, from, to), from) == Slot::Empty,
        forall|y: Location| y != from && y != to ==> #[trigger] slot_at(spec_move(b, from, to), y) == slot_at(b, y),
{
    lemma_move_copies_bytes(b, from, to);
    lemma_offset_bounds(from);
    lemma_offset_bounds(to);
    let m = spec_move(b, from, to);
    let src = from.spec_offset();
    let dst = to.spec_offset();
    assert(m.subrange(dst, dst + 9) =~= m.subrange(dst, dst + 14).subrange(0, 9));
    assert(b.subrange(src, src + 9) =~= b.subrange(src, src + 14).subrange(0, 9));
    assert(m.subrange(src, src + 9)[3] == m.subrange(src, src + 14)[3]);
    assert forall|y: Location| y != from && y != to implies #[trigger] slot_at(m, y) == slot_at(b, y) by {
        lemma_offset_bounds(y);
        lemma_offsets_apart(y, from);
        lemma_offsets_apart(y, to);
        let o = y.spec_offset();
        assert(m.subrange(o, o + 9) =~= b.subrange(o, o + 9));
    }
}

/// Selecting a piece only recolours backgrounds: the board keeps its length and
/// what stands on every square.
pub proof fn lemma_highlight_board_keeps_slots(b: Seq<u8>, location: Location, piece: Piece, turn: Team)
    requires
        b.len() >= ranks_len(),
    ensures
        spec_highlight_board(b, location, piece, turn).len() == b.len(),
        forall|y: Location| #[trigger] slot_at(spec_highlight_board(b, location, piece, turn), y) == slot_at(b, y),
{
    if piece.piece_type == PieceType::Pawn {
        let fd = turn.spec_forward_direction();
        let ahead1 = location.spec_add(Delta(0i8, fd));
        let ahead2 = location.spec_add(Delta(0i8, (2 * fd) as i8));
        let left = location.spec_add(Delta(-1i8, fd));
        let right = location.spec_add(Delta(1i8, fd));
        let b1 = if slot_at(b, location) is Empty {
            lemma_mark_keeps_slots(b, ahead1, true, 0x34);
            let m = mark(b, ahead1, true, 0x34);
            lemma_mark_keeps_slots(m, ahead2, on_pawn_start(piece, location), 0x34);
            mark(m, ahead2, on_pawn_start(piece, location), 0x34)
        } else {
            lemma_mark_keeps_slots(b, ahead1, true, 0x30);
            let m = mark(b, ahead1, true, 0x30);
            lemma_mark_keeps_slots(m, ahead2, true, 0x30);
            mark(m, ahead2, true, 0x30)
        };
        lemma_mark_keeps_slots(b1, left, holds_enemy(b, left, turn), 0x34);
        let b2 = mark(b1, left, holds_enemy(b, left, turn), 0x34);
        lemma_mark_keeps_slots(b2, right, holds_enemy(b, right, turn), 0x34);
    }
}

/// Walking a line only recolours backgrounds: the board keeps its length and what
/// stands on every square.
pub proof fn lemma_highlight_line_keeps_slots(b: Seq<u8>, start: Location, delta: Delta)
    requires
        b.len() >= ranks_len(),
    ensures
        spec_highlight_line(b, start, delta).len() == b.len(),
        forall|y: Location| #[trigger] slot_at(spec_highlight_line(b, start, delta), y) == slot_at(b, y),
{
    let r = ray(start, delta);
    lemma_paint_line_keeps_slots(b, r, leading_empty(b, r) as int);
}

/// A selection that succeeds is of a piece of the side to move, standing where the
/// input says, and leaves what stands on every square as it was; one that fails
/// leaves the board as it was.
pub proof fn lemma_select_outcome(b: Seq<u8>, line: Seq<u8>, turn: Team)
    requires
        b.len() >= ranks_len(),
    ensures
        select_outcome(b, line, turn) matches Ok((l, p)) ==> {
            &&& p.team == turn
            &&& slot_at(b, l) == Slot::Piece(p)
            &&& line.len() >= 2 && location_of_pair(line[0], line[1]) == Ok::<Location, LocationError>(l)
            &&& forall|y: Location| #[trigger] slot_at(spec_highlight_board(b, l, p, turn), y) == slot_at(b, y)
        },
{
    if let Ok((l, p)) = select_outcome(b, line, turn) {
        lemma_highlight_board_keeps_slots(b, l, p, turn);
    }
}

/// Why a move was refused, as told by the background colour of the target square.
#[derive(Debug, Clone, Copy, PartialEq, Eq, Structural)]
pub enum MoveErr {
    /// Red: the move would leave the mover's king in check.
    PutsYouInCheck,
    /// Yellow: a piece of the given side (the mover's own) stands there.
    FriendlyFire(Team),
    /// Default colour: the selected kind of piece cannot move there.
    NotInMoveSet(PieceType),
    /// Black: a piece at the given square stands in the way.
    PathObstructed(Location),
}

/// Why a piece cannot be selected.
#[derive(Debug, Clone, Copy, PartialEq, Eq, Structural)]
pub enum SelectErr {
    /// The piece belongs to the given side, not the one to move.
    NotYourPiece(Team),
    /// The side to move is in check and must move its king.
    YoureInCheck,
}

/// Whether a selected piece may go to a square.
#[derive(Debug, Clone, Copy, PartialEq, Eq, Structural)]
pub enum TryMove {
    Move,
    Blocked(MoveErr),
}

/// The background colour digits that a board carries: `'1'` red, `'2'` yellow,
/// `'9'` default, `'0'` black and `'4'` blue.
pub open spec fn is_highlight_colour(b: u8) -> bool {
    b == 0x31 || b == 0x32 || b == 0x39 || b == 0x30 || b == 0x34
}

/// What a background colour digit tells of a move to `location` by a piece of kind
/// `piece_type` and side `team`.
pub open spec fn try_move_of_colour(b: u8, team: Team, piece_type: PieceType, location: Location) -> TryMove {
    if b == 0x31 {
        TryMove::Blocked(MoveErr::PutsYouInCheck)
    } else if b == 0x32 {
        TryMove::Blocked(MoveErr::FriendlyFire(team))
    } else if b == 0x39 {
        TryMove::Blocked(MoveErr::NotInMoveSet(piece_type))
    } else if b == 0x30 {
        TryMove::Blocked(MoveErr::PathObstructed(location))
    } else {
        TryMove::Move
    }
}

impl TryMove {
    /// Whether the verdict has a background colour of its own (all but `NotInMoveSet`,
    /// which is shown by the default colour that no highlight writes).
    pub open spec fn has_colour(self) -> bool {
        !(self matches TryMove::Blocked(MoveErr::NotInMoveSet(_)))
    }

    /// The background colour digit that shows the verdict.
    pub open spec fn spec_colour(self) -> u8 {
        match self {
            TryMove::Move => 0x34,
            TryMove::Blocked(MoveErr::PutsYouInCheck) => 0x31,
            TryMove::Blocked(MoveErr::FriendlyFire(_)) => 0x32,
            TryMove::Blocked(MoveErr::NotInMoveSet(_)) => 0x39,
            TryMove::Blocked(MoveErr::PathObstructed(_)) => 0x30,
        }
    }

    /// Reads the verdict that background digit `b` shows for a move of a piece of
    /// side `team` and kind `piece_type` to `location`.
    pub fn from_colour(b: u8, team: Team, piece_type: PieceType, location: Location) -> (r: TryMove)
        requires
            is_highlight_colour(b),
        ensures
            r == try_move_of_colour(b, team, piece_type, location),
    {
        match b {
            0x31 => TryMove::Blocked(MoveErr::PutsYouInCheck),
            0x32 => TryMove::Blocked(MoveErr::FriendlyFire(team)),
            0x39 => TryMove::Blocked(MoveErr::NotInMoveSet(piece_type)),
            0x30 => TryMove::Blocked(MoveErr::PathObstructed(location)),
            _ => TryMove::Move,
        }
    }

    /// The background colour digit that shows the verdict.
    pub fn colour(self) -> (r: u8)
        requires
            self.has_colour(),
        ensures
            r == self.spec_colour(),
    {
        match self {
            TryMove::Blocked(MoveErr::PutsYouInCheck) => 0x31,
            TryMove::Blocked(MoveErr::FriendlyFire(_)) => 0x32,
            TryMove::Blocked(MoveErr::PathObstructed(_)) => 0x30,
            TryMove::Move => 0x34,
            TryMove::Blocked(MoveErr::NotInMoveSet(_)) => 0x39,
        }
    }
}

/// Why a turn's input was refused.
#[derive(Debug, Clone, Copy, PartialEq, Eq, Structural)]
pub enum MoveError {
    /// Fewer than two bytes were given for the starting square.
    MissingStart,
    /// The two bytes do not name a square.
    BadLocation(LocationError),
    /// No piece stands on the starting square.
    EmptyTile,
    /// The piece on the starting square belongs to the other side.
    NotYourPiece,
    /// Fewer than two bytes were given for the destination.
    MissingDestination,
    /// The destination's colour refuses the move.
    Refused(MoveErr),
}

/// What selecting the square named by the first two bytes of `line` gives side
/// `turn` on board `b`: the square and the piece on it, or why the selection fails.
pub open spec fn select_outcome(b: Seq<u8>, line: Seq<u8>, turn: Team) -> Result<(Location, Piece), MoveError> {
    if line.len() < 2 {
        Err(MoveError::MissingStart)
    } else {
        match location_of_pair(line[0], line[1]) {
            Err(e) => Err(MoveError::BadLocation(e)),
            Ok(l) => match slot_at(b, l) {
                Slot::Empty => Err(MoveError::EmptyTile),
                Slot::Piece(p) => if p.team != turn {
                    Err(MoveError::NotYourPiece)
                } else {
                    Ok((l, p))
                },
            },
        }
    }
}

/// Where the destination named by the first two bytes of `line` lets `piece` go on
/// board `b`, or why the move is refused.
pub open spec fn destination_outcome(b: Seq<u8>, line: Seq<u8>, piece: Piece) -> Result<Location, MoveError> {
    if line.len() < 2 {
        Err(MoveError::MissingDestination)
    } else {
        match location_of_pair(line[0], line[1]) {
            Err(e) => Err(MoveError::BadLocation(e)),
            Ok(l) => match try_move_of_colour(b[highlight_index(l)], piece.team, piece.piece_type, l) {
                TryMove::Move => Ok(l),
                TryMove::Blocked(e) => Err(MoveError::Refused(e)),
            },
        }
    }
}

/// The destination named by `line`, if it names one, carries a known background
/// colour, and, when that colour allows the move, is not `from` itself.
pub open spec fn destination_readable(b: Seq<u8>, line: Seq<u8>, from: Location) -> bool {
    line.len() >= 2 ==> match location_of_pair(line[0], line[1]) {
        Ok(l) => is_highlight_colour(b[highlight_index(l)]) && (b[highlight_index(l)] == 0x34 ==> l
            != from),
        Err(_) => true,
    }
}

/// Every verdict that has a colour is written with a colour a board carries, and that
/// colour reads back as the same verdict, its side, kind or square being the ones
/// the reading is made for.
pub proof fn lemma_colour_roundtrip(tm: TryMove, team: Team, piece_type: PieceType, location: Location)
    requires
        tm.has_colour(),
    ensures
        is_highlight_colour(tm.spec_colour()),
        try_move_of_colour(tm.spec_colour(), team, piece_type, location) == (match tm {
            TryMove::Blocked(MoveErr::FriendlyFire(_)) => TryMove::Blocked(MoveErr::FriendlyFire(team)),
            TryMove::Blocked(MoveErr::PathObstructed(_)) => TryMove::Blocked(MoveErr::PathObstructed(location)),
            _ => tm,
        }),
{
}

/// The colour a square takes when it is offered to side `turn`: yellow over one of
/// its own pieces, blue otherwise.
pub open spec fn selection_colour(slot: Slot, turn: Team) -> u8 {
    match slot {
        Slot::Piece(p) => if p.team != turn {
            0x34u8
        } else {
            0x32u8
        },
        Slot::Empty => 0x34u8,
    }
}

/// A chess board held as the bytes of its coloured terminal rendering: eight ranks
/// of `ROW_WIDTH` bytes, rank one first, each a label, eight squares of
/// `SLOT_WIDTH` bytes (background colour, foreground colour, glyph) and a colour
/// reset with a newline.
pub struct ChessBytes {
    bytes: Vec<u8>,
}

impl View for ChessBytes {
    type V = Seq<u8>;

    closed spec fn view(&self) -> Seq<u8> {
        self.bytes@
    }
}

impl ChessBytes {
    /// The board holds at least its eight rendered ranks.
    pub open spec fn wf(&self) -> bool {
        self@.len() >= ranks_len()
    }

    /// A board over the given rendered bytes, which hold at least the eight ranks.
    pub fn new(bytes: Vec<u8>) -> (r: ChessBytes)
        requires
            bytes@.len() >= ranks_len(),
        ensures
            r@ == bytes@,
            r.wf(),
    {
        ChessBytes { bytes }
    }

    /// The rendered bytes.
    pub fn as_bytes(&self) -> (r: &[u8])
        ensures
            r@ == self@,
    {
        self.bytes.as_slice()
    }

    /// The nine bytes of square `location` from its foreground colour through its glyph.
    pub fn get_bytes(&self, location: Location) -> (r: [u8; 9])
        requires
            self.wf(),
        ensures
            r@ == self@.subrange(location.spec_offset(), location.spec_offset() + 9),
    {
        proof {
            lemma_offset_bounds(location);
        }
        let o = location.offset();
        let b = &self.bytes;
        let r = [b[o], b[o + 1], b[o + 2], b[o + 3], b[o + 4], b[o + 5], b[o + 6], b[o + 7], b[o + 8]];
        assert(r@ =~= self@.subrange(location.spec_offset(), location.spec_offset() + 9));
        r
    }

    /// What stands on square `location`.
    pub fn get(&self, location: Location) -> (r: Slot)
        requires
            self.wf(),
        ensures
            r == slot_at(self@, location),
    {
        Slot::from(self.get_bytes(location))
    }

    /// The verdict that the background colour of square `location` shows for a move
    /// of `piece` there.
    pub fn get_highlight(&self, location: Location, piece: Piece) -> (r: TryMove)
        requires
            self.wf(),
            is_highlight_colour(self@[highlight_index(location)]),
        ensures
            r == try_move_of_colour(self@[highlight_index(location)], piece.team, piece.piece_type, location),
    {
        proof {
            lemma_offset_bounds(location);
        }
        let base_offset = location.offset();
        TryMove::from_colour(self.bytes[base_offset - 5 + 3], piece.team, piece.piece_type, location)
    }

    /// Colours square `location` as a target for side `turn`: yellow over one of its own
    /// pieces, blue otherwise.
    pub fn set_highlight(&mut self, location: Location, turn: Team)
        requires
            old(self).wf(),
        ensures
            final(self).wf(),
            final(self)@ == old(self)@.update(
                highlight_index(location),
                selection_colour(slot_at(old(self)@, location), turn),
            ),
    {
        let try_move = match self.get(location) {
            Slot::Piece(piece) => {
                if piece.team != turn {
                    TryMove::Move
                } else {
                    TryMove::Blocked(MoveErr::FriendlyFire(turn))
                }
            },
            Slot::Empty => TryMove::Move,
        };
        self.set_highlight_with(location, try_move);
    }

    /// Colours square `location` with the colour of `try_move`.
    pub fn set_highlight_with(&mut self, location: Location, try_move: TryMove)
        requires
            old(self).wf(),
            try_move.has_colour(),
        ensures
            final(self).wf(),
            final(self)@ == old(self)@.update(highlight_index(location), try_move.spec_colour()),
    {
        proof {
            lemma_offset_bounds(location);
        }
        let base_offset = location.offset();
        self.bytes.set(base_offset - 5 + 3, try_move.colour());
    }

    /// Walks from `location` in steps of `delta`: colours each empty square blue until
    /// it meets a piece (or the edge), then colours the square of that piece and every
    /// later one black, as obstructed by the last free square (or `location`).
    pub fn set_highlight_line(&mut self, location: Location, delta: Delta, turn: Team)
        requires
            old(self).wf(),
            !(delta.0 == 0 && delta.1 == 0),
            location.add_defined(delta),
        ensures
            final(self).wf(),
            final(self)@ == spec_highlight_line(old(self)@, location, delta),
            forall|y: Location| #[trigger] slot_at(final(self)@, y) == slot_at(old(self)@, y),
    {
        let ghost old_board = self@;
        let ghost r = ray(location, delta);
        let ghost k = leading_empty(old_board, r) as int;
        proof {
            lemma_ray_steps(location, delta);
            lemma_leading_empty(old_board, r);
            assert(r.take(0) =~= Seq::<Location>::empty());
        }
        let mut maybe_location = Some(location);
        let mut obstructed = location;
        let ghost mut i: int = 0;
        while maybe_location.is_some()
            invariant_except_break
                0 <= i <= k,
            invariant
                self.wf(),
                0 <= k <= r.len(),
                0 <= i <= r.len(),
                r == ray(location, delta),
                k == leading_empty(old_board, r),
                old_board.len() >= ranks_len(),
                location.add_defined(delta),
                r.len() >= 1,
                r[0] == location,
                forall|j: int| 0 <= j < r.len() - 1 ==> (#[trigger] r[j]).spec_add(delta) == Some(r[j + 1]),
                r.last().spec_add(delta) is None,
                r.len() > 1 ==> -7 <= delta.0 <= 7 && -7 <= delta.1 <= 7,
                forall|j: int| 0 <= j < k ==> #[trigger] slot_at(old_board, r[j]) is Empty,
                k < r.len() ==> slot_at(old_board, r[k]) is Piece,
                maybe_location == (if i < r.len() { Some(r[i]) } else { None::<Location> }),
                self@ == paint_line(old_board, r.take(i), k),
            ensures
                i == k,
                self.wf(),
                maybe_location == (if i < r.len() { Some(r[i]) } else { None::<Location> }),
                self@ == paint_line(old_board, r.take(i), k),
            decreases r.len() - i,
        {
            let loc = maybe_location.unwrap();
            proof {
                lemma_paint_line_keeps_slots(old_board, r.take(i), k);
            }
            if self.get(loc).is_piece() {
                break;
            }
            self.set_highlight(loc, turn);
            obstructed = loc;
            proof {
                if i > 0 {
                    assert(r.len() > 1);
                }
            }
            maybe_location = loc + delta;
            proof {
                assert(r.take(i + 1).drop_last() =~= r.take(i));
                i = i + 1;
            }
        }
        while maybe_location.is_some()
            invariant
                self.wf(),
                0 <= k <= i <= r.len(),
                old_board.len() >= ranks_len(),
                location.add_defined(delta),
                r.len() >= 1,
                r[0] == location,
                forall|j: int| 0 <= j < r.len() - 1 ==> (#[trigger] r[j]).spec_add(delta) == Some(r[j + 1]),
                r.last().spec_add(delta) is None,
                r.len() > 1 ==> -7 <= delta.0 <= 7 && -7 <= delta.1 <= 7,
                maybe_location == (if i < r.len() { Some(r[i]) } else { None::<Location> }),
                self@ == paint_line(old_board, r.take(i), k),
            decreases r.len() - i,
        {
            let loc = maybe_location.unwrap();
            self.set_highlight_with(loc, TryMove::Blocked(MoveErr::PathObstructed(obstructed)));
            proof {
                lemma_paint_line_keeps_slots(old_board, r.take(i), k);
                if i > 0 {
                    assert(r.len() > 1);
                }
            }
            maybe_location = loc + delta;
            proof {
                assert(r.take(i + 1).drop_last() =~= r.take(i));
                i = i + 1;
            }
        }
        assert(r.take(i) =~= r);
        proof {
            lemma_paint_line_keeps_slots(old_board, r, k);
        }
    }

    /// Paints the squares that `piece`, standing at `location`, may reach when side
    /// `turn` selects it (see [`spec_highlight_board`]: only pawns paint anything).
    pub fn highlight_board(&mut self, location: Location, piece: Piece, turn: Team)
        requires
            old(self).wf(),
        ensures
            final(self).wf(),
            final(self)@ == spec_highlight_board(old(self)@, location, piece, turn),
            forall|y: Location| #[trigger] slot_at(final(self)@, y) == slot_at(old(self)@, y),
    {
        let ghost b = self@;
        match piece.piece_type {
            PieceType::Pawn => {
                let fd = turn.forward_direction();
                self.mark_pawn_ahead(location, piece, fd);
                let ghost b1 = self@;
                let left = location + Delta(-1, 1 * fd);
                self.mark_capture(left, turn);
                proof {
                    assert(holds_enemy(b1, left, turn) == holds_enemy(b, left, turn));
                }
                let ghost b2 = self@;
                let right = location + Delta(1, 1 * fd);
                self.mark_capture(right, turn);
                proof {
                    assert(holds_enemy(b2, right, turn) == holds_enemy(b, right, turn));
                }
            },
            _ => {},
        }
    }

    /// The pawn's squares straight ahead: blue (two steps only from the starting rank)
    /// when its own square reads empty, black when a piece stands there.
    fn mark_pawn_ahead(&mut self, location: Location, piece: Piece, fd: i8)
        requires
            old(self).wf(),
            fd == 1 || fd == -1,
        ensures
            final(self).wf(),
            final(self)@ == (if slot_at(old(self)@, location) is Empty {
                mark(
                    mark(old(self)@, location.spec_add(Delta(0i8, fd)), true, 0x34),
                    location.spec_add(Delta(0i8, (2 * fd) as i8)),
                    on_pawn_start(piece, location),
                    0x34,
                )
            } else {
                mark(
                    mark(old(self)@, location.spec_add(Delta(0i8, fd)), true, 0x30),
                    location.spec_add(Delta(0i8, (2 * fd) as i8)),
                    true,
                    0x30,
                )
            }),
            forall|y: Location| #[trigger] slot_at(final(self)@, y) == slot_at(old(self)@, y),
    {
        let ghost b = self@;
        if !self.get(location).is_piece() {
            if let Some(l_2) = location + Delta(0, 1 * fd) {
                self.set_highlight_with(l_2, TryMove::Move);
            }
            proof {
                lemma_mark_keeps_slots(b, location.spec_add(Delta(0i8, fd)), true, 0x34);
            }
            let ghost b1 = self@;
            if let Some(l_2) = location + Delta(0, 2 * fd) {
                if (piece.team == Team::White && location.1 == crate::location::Number::Two)
                    || (piece.team == Team::Black && location.1 == crate::location::Number::Seven) {
                    self.set_highlight_with(l_2, TryMove::Move);
                }
            }
            proof {
                lemma_mark_keeps_slots(b1, location.spec_add(Delta(0i8, (2 * fd) as i8)), on_pawn_start(piece, location), 0x34);
            }
        } else {
            if let Some(l_2) = location + Delta(0, 1 * fd) {
                self.set_highlight_with(l_2, TryMove::Blocked(MoveErr::PathObstructed(l_2)));
            }
            proof {
                lemma_mark_keeps_slots(b, location.spec_add(Delta(0i8, fd)), true, 0x30);
            }
            let ghost b1 = self@;
            if let Some(l_2) = location + Delta(0, 2 * fd) {
                self.set_highlight_with(l_2, TryMove::Blocked(MoveErr::PathObstructed(l_2)));
            }
            proof {
                lemma_mark_keeps_slots(b1, location.spec_add(Delta(0i8, (2 * fd) as i8)), true, 0x30);
            }
        }
    }

    /// Colours square `target` blue when a piece of the side other than `turn` stands on it.
    fn mark_capture(&mut self, target: Option<Location>, turn: Team)
        requires
            old(self).wf(),
        ensures
            final(self).wf(),
            final(self)@ == mark(old(self)@, target, holds_enemy(old(self)@, target, turn), 0x34),
            forall|y: Location| #[trigger] slot_at(final(self)@, y) == slot_at(old(self)@, y),
    {
        proof {
            lemma_mark_keeps_slots(self@, target, holds_enemy(self@, target, turn), 0x34);
        }
        if let Some(l_2) = target {
            if let Slot::Piece(piece) = self.get(l_2) {
                if piece.team != turn {
                    self.set_highlight_with(l_2, TryMove::Move);
                }
            }
        }
    }

    /// Moves what stands at `from` to `to`: copies the `SLOT_WIDTH` bytes from the
    /// foreground colour of `from` on to the same place of `to`, then writes the
    /// vacated square's bytes over them at `from`.
    pub fn move_piece(&mut self, from: Location, to: Location)
        requires
            old(self).wf(),
            from != to,
        ensures
            final(self).wf(),
            final(self)@ == spec_move(old(self)@, from, to),
            slot_at(final(self)@, to) == slot_at(old(self)@, from),
            slot_at(final(self)@, from) == Slot::Empty,
            forall|y: Location|
                y != from && y != to ==> #[trigger] slot_at(final(self)@, y) == slot_at(old(self)@, y),
    {
        let ghost b = self@;
        proof {
            lemma_offset_bounds(from);
            lemma_offset_bounds(to);
            lemma_offsets_apart(from, to);
            lemma_move_slots(b, from, to);
        }
        let src = from.offset();
        let dst = to.offset();
        let mut i: usize = 0;
        while i < SLOT_WIDTH
            invariant
                0 <= i <= SLOT_WIDTH,
                src == from.spec_offset(),
                dst == to.spec_offset(),
                src + SLOT_WIDTH <= dst || dst + SLOT_WIDTH <= src,
                src + SLOT_WIDTH <= b.len(),
                dst + SLOT_WIDTH <= b.len(),
                self@.len() == b.len(),
                forall|j: int|
                    0 <= j < b.len() ==> #[trigger] self@[j] == (if dst <= j < dst + i {
                        b[j - dst + src]
                    } else {
                        b[j]
                    }),
            decreases SLOT_WIDTH - i,
        {
            let v = self.bytes[src + i];
            self.bytes.set(dst + i, v);
            i = i + 1;
        }
        let ghost copied = self@;
        assert(copied =~= write_at(b, to.spec_offset(), b.subrange(src as int, src + SLOT_WIDTH)));
        let empty = empty_square();
        let mut i: usize = 0;
        while i < SLOT_WIDTH
            invariant
                0 <= i <= SLOT_WIDTH,
                src == from.spec_offset(),
                src + SLOT_WIDTH <= copied.len(),
                empty@ == empty_square_bytes(),
                self@.len() == copied.len(),
                forall|j: int|
                    0 <= j < copied.len() ==> #[trigger] self@[j] == (if src <= j < src + i {
                        empty_square_bytes()[j - src]
                    } else {
                        copied[j]
                    }),
            decreases SLOT_WIDTH - i,
        {
            self.bytes.set(src + i, empty[i]);
            i = i + 1;
        }
        assert(self@ =~= spec_move(b, from, to));
    }

    /// Whether [`ChessBytes::finish_move`] can be given `line` after selecting `from`:
    /// see [`destination_readable`].
    pub fn can_finish(&self, line: &[u8], from: Location) -> (r: bool)
        requires
            self.wf(),
        ensures
            r == destination_readable(self@, line@, from),
    {
        if line.len() < 2 {
            return true;
        }
        match Location::try_from([line[0], line[1]]) {
            Ok(l) => {
                proof {
                    lemma_offset_bounds(l);
                }
                let c = self.bytes[l.offset() - 5 + 3];
                (c == 0x31 || c == 0x32 || c == 0x39 || c == 0x30 || c == 0x34) && (c != 0x34 || l != from)
            },
            Err(_) => true,
        }
    }

    /// The first half of a turn: reads the starting square from the first two bytes
    /// of `line`, checks that a piece of side `turn` stands there, and paints the
    /// squares it may reach (see [`select_outcome`] and [`spec_highlight_board`]).
    pub fn select_piece(&mut self, line: &[u8], turn: Team) -> (r: Result<(Location, Piece), MoveError>)
        requires
            old(self).wf(),
        ensures
            final(self).wf(),
            r == select_outcome(old(self)@, line@, turn),
            final(self)@ == (match r {
                Ok((l, p)) => spec_highlight_board(old(self)@, l, p, turn),
                Err(_) => old(self)@,
            }),
    {
        if line.len() < 2 {
            return Err(MoveError::MissingStart);
        }
        let location_1 = match Location::try_from([line[0], line[1]]) {
            Ok(l) => l,
            Err(e) => return Err(MoveError::BadLocation(e)),
        };
        let piece_1 = match self.get(location_1) {
            Slot::Piece(p) => p,
            Slot::Empty => return Err(MoveError::EmptyTile),
        };
        if piece_1.team != turn {
            return Err(MoveError::NotYourPiece);
        }
        self.highlight_board(location_1, piece_1, turn);
        Ok((location_1, piece_1))
    }

    /// The second half of a turn: reads the destination from the first two bytes of
    /// `line` and, when its colour allows `piece` (selected at `from`) to go there,
    /// moves it (see [`destination_outcome`] and [`spec_move`]).
    pub fn finish_move(&mut self, line: &[u8], from: Location, piece: Piece) -> (r: Result<(), MoveError>)
        requires
            old(self).wf(),
            destination_readable(old(self)@, line@, from),
        ensures
            final(self).wf(),
            match destination_outcome(old(self)@, line@, piece) {
                Ok(to) => r == Ok::<(), MoveError>(()) && final(self)@ == spec_move(old(self)@, from, to),
                Err(e) => r == Err::<(), MoveError>(e) && final(self)@ == old(self)@,
            },
    {
        if line.len() < 2 {
            return Err(MoveError::MissingDestination);
        }
        let location_2 = match Location::try_from([line[0], line[1]]) {
            Ok(l) => l,
            Err(e) => return Err(MoveError::BadLocation(e)),
        };
        match self.get_highlight(location_2, piece) {
            TryMove::Move => {},
            TryMove::Blocked(e) => return Err(MoveError::Refused(e)),
        }
        self.move_piece(from, location_2);
        Ok(())
    }
}

/// A pawn offers its diagonal captures: after selecting a pawn of side `turn` at
/// `location`, each of the two squares one file to either side and one rank forward
/// (forward being up for white, down for black) turns blue (`'4'`) when its bytes
/// show a piece of the other side, and keeps its background digit otherwise.
pub proof fn lemma_pawn_offers_captures(b: Seq<u8>, location: Location, piece: Piece, turn: Team, s: int, t: Location)
    requires
        b.len() >= ranks_len(),
        piece.piece_type == PieceType::Pawn,
        s == -1 || s == 1,
        t.file() == location.file() + s,
        t.rank() == location.rank() + (if turn == Team::White { 1int } else { -1int }),
    ensures
        spec_highlight_board(b, location, piece, turn)[t.spec_offset() - 2] == (if b[t.spec_offset() + 3]
            == turn.spec_opponent().spec_byte() && 0x97 <= b[t.spec_offset() + 8] <= 0x9c {
            0x34u8
        } else {
            b[t.spec_offset() - 2]
        }),
{
    let fd = turn.spec_forward_direction();
    assert(fd == (if turn == Team::White { 1int } else { -1int }));
    assert(crate::location::Letter::spec_from_index(t.file()) == Some(t.0));
    assert(crate::location::Number::spec_from_index(t.rank()) == Some(t.1));
    let ahead1 = location.spec_add(Delta(0i8, fd));
    let ahead2 = location.spec_add(Delta(0i8, (2 * fd) as i8));
    let left = location.spec_add(Delta(-1i8, fd));
    let right = location.spec_add(Delta(1i8, fd));
    lemma_spec_add_moves(location, Delta(0i8, fd));
    lemma_spec_add_moves(location, Delta(0i8, (2 * fd) as i8));
    lemma_spec_add_moves(location, Delta(-1i8, fd));
    lemma_spec_add_moves(location, Delta(1i8, fd));
    assert(ahead1 != Some(t));
    assert(ahead2 != Some(t));
    if s == -1 {
        assert(left == Some(t));
        assert(right != Some(t));
    } else {
        assert(right == Some(t));
        assert(left != Some(t));
    }
    let o = t.spec_offset();
    lemma_offset_bounds(t);
    assert(b.subrange(o, o + 9)[3] == b[o + 3]);
    assert(b.subrange(o, o + 9)[8] == b[o + 8]);
    let enemy = b[o + 3] == turn.spec_opponent().spec_byte() && 0x97 <= b[o + 8] <= 0x9c;
    assert(holds_enemy(b, Some(t), turn) == enemy);
    let h = highlight_index(t);
    let (c1, c2, v) = if slot_at(b, location) is Empty {
        (true, on_pawn_start(piece, location), 0x34u8)
    } else {
        (true, true, 0x30u8)
    };
    lemma_mark_at(b, ahead1, c1, v, t);
    let m1 = mark(b, ahead1, c1, v);
    lemma_mark_at(m1, ahead2, c2, v, t);
    let b1 = mark(m1, ahead2, c2, v);
    lemma_mark_at(b1, left, holds_enemy(b, left, turn), 0x34, t);
    let b2 = mark(b1, left, holds_enemy(b, left, turn), 0x34);
    lemma_mark_at(b2, right, holds_enemy(b, right, turn), 0x34, t);
    assert(h == o - 2);
}

/// A pawn's squares straight ahead: after selecting a pawn of side `turn` at
/// `location`, the square `k` ranks forward (`k` being 1 or 2) turns black (`'0'`)
/// when the bytes of `location` show a piece; otherwise the square one ahead turns
/// blue (`'4'`), and the square two ahead turns blue when the pawn's side is white
/// on rank two or black on rank seven and keeps its digit else.
pub proof fn lemma_pawn_offers_advance(b: Seq<u8>, location: Location, piece: Piece, turn: Team, k: int, t: Location)
    requires
        b.len() >= ranks_len(),
        piece.piece_type == PieceType::Pawn,
        k == 1 || k == 2,
        t.file() == location.file(),
        t.rank() == location.rank() + k * (if turn == Team::White { 1int } else { -1int }),
    ensures
        ({
            let o = location.spec_offset();
            let occupied = (b[o + 3] == 0x37 || b[o + 3] == 0x35) && 0x97 <= b[o + 8] <= 0x9c;
            let start = (piece.team == Team::White && location.rank() == 1) || (piece.team == Team::Black
                && location.rank() == 6);
            spec_highlight_board(b, location, piece, turn)[t.spec_offset() - 2] == (if occupied {
                0x30u8
            } else if k == 1 || start {
                0x34u8
            } else {
                b[t.spec_offset() - 2]
            })
        }),
{
    let fd = turn.spec_forward_direction();
    assert(fd == (if turn == Team::White { 1int } else { -1int }));
    assert(crate::location::Letter::spec_from_index(t.file()) == Some(t.0));
    assert(crate::location::Number::spec_from_index(t.rank()) == Some(t.1));
    let ahead1 = location.spec_add(Delta(0i8, fd));
    let ahead2 = location.spec_add(Delta(0i8, (2 * fd) as i8));
    let left = location.spec_add(Delta(-1i8, fd));
    let right = location.spec_add(Delta(1i8, fd));
    lemma_spec_add_moves(location, Delta(0i8, fd));
    lemma_spec_add_moves(location, Delta(0i8, (2 * fd) as i8));
    lemma_spec_add_moves(location, Delta(-1i8, fd));
    lemma_spec_add_moves(location, Delta(1i8, fd));
    assert(left != Some(t));
    assert(right != Some(t));
    if k == 1 {
        assert(ahead1 == Some(t));
        assert(ahead2 != Some(t));
    } else {
        assert(ahead2 == Some(t));
        assert(ahead1 != Some(t));
    }
    let o = location.spec_offset();
    lemma_offset_bounds(location);
    assert(b.subrange(o, o + 9)[3] == b[o + 3]);
    assert(b.subrange(o, o + 9)[8] == b[o + 8]);
    assert((slot_at(b, location) is Piece) == ((b[o + 3] == 0x37 || b[o + 3] == 0x35) && 0x97 <= b[o + 8]
        <= 0x9c));
    assert(on_pawn_start(piece, location) == ((piece.team == Team::White && location.rank() == 1) || (
    piece.team == Team::Black && location.rank() == 6)));
    let (c2, v) = if slot_at(b, location) is Empty {
        (on_pawn_start(piece, location), 0x34u8)
    } else {
        (true, 0x30u8)
    };
    lemma_mark_at(b, ahead1, true, v, t);
    let m1 = mark(b, ahead1, true, v);
    lemma_mark_at(m1, ahead2, c2, v, t);
    let b1 = mark(m1, ahead2, c2, v);
    lemma_mark_at(b1, left, holds_enemy(b, left, turn), 0x34, t);
    let b2 = mark(b1, left, holds_enemy(b, left, turn), 0x34);
    lemma_mark_at(b2, right, holds_enemy(b, right, turn), 0x34, t);
}

/// Selecting any piece but a pawn leaves the board exactly as it was.
pub proof fn lemma_only_pawns_paint(b: Seq<u8>, location: Location, piece: Piece, turn: Team)
    requires
        piece.piece_type != PieceType::Pawn,
    ensures
        spec_highlight_board(b, location, piece, turn) == b,
{
}

/// The bytes of square `loc` show a piece: a side's colour digit and a kind's glyph byte.
pub open spec fn bytes_show_piece(b: Seq<u8>, loc: Location) -> bool {
    let o = loc.spec_offset();
    (b[o + 3] == 0x37 || b[o + 3] == 0x35) && 0x97 <= b[o + 8] <= 0x9c
}

/// The `i`-th square of a walk is `i` steps from its start, and distinct positions
/// of the walk are distinct squares.
pub proof fn lemma_ray_positions(start: Location, d: Delta)
    requires
        !(d.0 == 0 && d.1 == 0),
    ensures
        forall|i: int|
            0 <= i < ray(start, d).len() ==> (#[trigger] ray(start, d)[i]).file() == start.file() + i * d.0
                && ray(start, d)[i].rank() == start.rank() + i * d.1,
        forall|i: int, j: int|
            0 <= i < ray(start, d).len() && 0 <= j < ray(start, d).len() && i != j ==> #[trigger] ray(start, d)[i]
                != #[trigger] ray(start, d)[j],
    decreases ray_measure(start, d),
{
    let r = ray(start, d);
    lemma_ray_steps(start, d);
    lemma_spec_add_moves(start, d);
    match start.spec_add(d) {
        Some(next) => {
            lemma_ray_positions(next, d);
            let rest = ray(next, d);
            assert(r == seq![start] + rest);
            assert forall|i: int| 0 <= i < r.len() implies (#[trigger] r[i]).file() == start.file() + i * d.0
                && r[i].rank() == start.rank() + i * d.1 by {
                if i > 0 {
                    assert(r[i] == rest[i - 1]);
                    let a = d.0 as int;
                    let c = d.1 as int;
                    assert((i - 1) * a + a == i * a) by (nonlinear_arith);
                    assert((i - 1) * c + c == i * c) by (nonlinear_arith);
                }
            }
        },
        None => {},
    }
    assert forall|i: int, j: int|
        0 <= i < r.len() && 0 <= j < r.len() && i != j implies #[trigger] r[i] != #[trigger] r[j] by {
        if r[i] == r[j] {
            assert(r[i].file() == r[j].file());
            let a = d.0 as int;
            let c = d.1 as int;
            assert(i * a == j * a);
            assert(i * c == j * c);
            assert(a == 0) by (nonlinear_arith)
                requires
                    i != j,
                    i * a == j * a,
            ;
            assert(c == 0) by (nonlinear_arith)
                requires
                    i != j,
                    i * c == j * c,
            ;
        }
    }
}

/// Painting distinct squares: the `i`-th gets blue when `i < k` and black otherwise,
/// and every byte that is no square's background digit keeps its value.
pub proof fn lemma_paint_line_at(b: Seq<u8>, squares: Seq<Location>, k: int)
    requires
        b.len() >= ranks_len(),
        forall|i: int, j: int|
            0 <= i < squares.len() && 0 <= j < squares.len() && i != j ==> #[trigger] squares[i]
                != #[trigger] squares[j],
    ensures
        paint_line(b, squares, k).len() == b.len(),
        forall|i: int|
            0 <= i < squares.len() ==> paint_line(b, squares, k)[highlight_index(#[trigger] squares[i])] == (if i
                < k {
                0x34u8
            } else {
                0x30u8
            }),
        forall|x: int|
            0 <= x < b.len() && (forall|i: int| 0 <= i < squares.len() ==> x != highlight_index(#[trigger] squares[i]))
                ==> paint_line(b, squares, k)[x] == b[x],
    decreases squares.len(),
{
    if squares.len() > 0 {
        let prev = squares.drop_last();
        lemma_paint_line_at(b, prev, k);
        lemma_paint_line_keeps_slots(b, prev, k);
        let last = squares.last();
        lemma_offset_bounds(last);
        let n = squares.len() - 1;
        assert forall|i: int| 0 <= i < squares.len() implies paint_line(b, squares, k)[highlight_index(#[trigger] squares[i])] == (if i < k {
            0x34u8
        } else {
            0x30u8
        }) by {
            let pp = paint_line(b, prev, k);
            let v = if n < k {
                0x34u8
            } else {
                0x30u8
            };
            assert(paint_line(b, squares, k) == pp.update(highlight_index(last), v));
            lemma_offset_bounds(squares[i]);
            if i < n {
                assert(squares[i] == prev[i]);
                assert(squares[i] != squares[n]);
                lemma_offsets_apart(squares[i], last);
                assert(pp[highlight_index(prev[i])] == (if i < k {
                    0x34u8
                } else {
                    0x30u8
                }));
            }
        }
        assert forall|x: int|
            0 <= x < b.len() && (forall|i: int| 0 <= i < squares.len() ==> x != highlight_index(#[trigger] squares[i]))
            implies paint_line(b, squares, k)[x] == b[x] by {
            assert(x != highlight_index(squares[n]));
            assert forall|i: int| 0 <= i < prev.len() implies x != highlight_index(#[trigger] prev[i]) by {
                assert(prev[i] == squares[i]);
            }
        }
    }
}

/// A line walk colours by what the bytes show: walking from `start` in steps of
/// `delta` (a real step), the `i`-th square of the walk, `i` steps from `start`,
/// turns blue (`'4'`) when no square of the walk up to and including it shows a
/// piece, and black (`'0'`) otherwise; every byte that is not the background digit
/// of a square of the walk keeps its value.
pub proof fn lemma_line_colours(b: Seq<u8>, start: Location, delta: Delta)
    requires
        b.len() >= ranks_len(),
        !(delta.0 == 0 && delta.1 == 0),
    ensures
        spec_highlight_line(b, start, delta).len() == b.len(),
        forall|i: int|
            0 <= i < ray(start, delta).len() ==> {
                let sq = #[trigger] ray(start, delta)[i];
                &&& sq.file() == start.file() + i * delta.0
                &&& sq.rank() == start.rank() + i * delta.1
                &&& spec_highlight_line(b, start, delta)[sq.spec_offset() - 2] == (if (forall|j: int|
                    0 <= j <= i ==> !bytes_show_piece(b, #[trigger] ray(start, delta)[j])) {
                    0x34u8
                } else {
                    0x30u8
                })
            },
        forall|x: int|
            0 <= x < b.len() && (forall|i: int|
                0 <= i < ray(start, delta).len() ==> x != (#[trigger] ray(start, delta)[i]).spec_offset() - 2)
                ==> spec_highlight_line(b, start, delta)[x] == b[x],
{
    let r = ray(start, delta);
    let k = leading_empty(b, r) as int;
    lemma_ray_positions(start, delta);
    lemma_leading_empty(b, r);
    lemma_paint_line_at(b, r, k);
    assert forall|j: int| 0 <= j < r.len() implies (slot_at(b, #[trigger] r[j]) is Piece) == bytes_show_piece(b, r[j]) by {
        lemma_offset_bounds(r[j]);
        let o = r[j].spec_offset();
        assert(b.subrange(o, o + 9)[3] == b[o + 3]);
        assert(b.subrange(o, o + 9)[8] == b[o + 8]);
    }
    assert forall|i: int| 0 <= i < r.len() implies {
        let sq = #[trigger] r[i];
        spec_highlight_line(b, start, delta)[sq.spec_offset() - 2] == (if (forall|j: int|
            0 <= j <= i ==> !bytes_show_piece(b, #[trigger] r[j])) {
            0x34u8
        } else {
            0x30u8
        })
    } by {
        assert(highlight_index(r[i]) == r[i].spec_offset() - 2);
        if i < k {
            assert forall|j: int| 0 <= j <= i implies !bytes_show_piece(b, #[trigger] r[j]) by {
                assert(slot_at(b, r[j]) is Empty);
            }
        } else {
            assert(bytes_show_piece(b, r[k]));
        }
    }
    assert forall|x: int|
        0 <= x < b.len() && (forall|i: int| 0 <= i < r.len() ==> x != (#[trigger] r[i]).spec_offset() - 2)
        implies spec_highlight_line(b, start, delta)[x] == b[x] by {
        assert forall|i: int| 0 <= i < r.len() implies x != highlight_index(#[trigger] r[i]) by {
            assert(x != r[i].spec_offset() - 2);
        }
    }
}

/// Marking a square changes the background digit of square `t` only when it marks `t`.
pub proof fn lemma_mark_at(b: Seq<u8>, target: Option<Location>, cond: bool, colour: u8, t: Location)
    requires
        b.len() >= ranks_len(),
    ensures
        mark(b, target, cond, colour).len() == b.len(),
        mark(b, target, cond, colour)[highlight_index(t)] == (if target == Some(t) && cond {
            colour
        } else {
            b[highlight_index(t)]
        }),
{
    lemma_offset_bounds(t);
    if let Some(a) = target {
        lemma_offset_bounds(a);
        lemma_offsets_apart(a, t);
    }
}

/// Selecting the square of one's own piece succeeds: when the first two bytes of
/// `line` are the letter (either case) and the digit of square `l`, and the bytes
/// of `l` show a piece `p`, the selection gives `(l, p)` if `p` is of side `turn`,
/// and is refused as not the player's piece otherwise.
pub proof fn lemma_select_named_piece(b: Seq<u8>, line: Seq<u8>, turn: Team, l: Location, p: Piece)
    requires
        b.len() >= ranks_len(),
        line.len() >= 2,
        line[0] == 0x61 + l.file() || line[0] == 0x41 + l.file(),
        line[1] == 0x31 + l.rank(),
        b[l.spec_offset() + 3] == p.team.spec_byte(),
        b[l.spec_offset() + 8] == p.piece_type.spec_byte(),
    ensures
        select_outcome(b, line, turn) == (if p.team == turn {
            Ok::<(Location, Piece), MoveError>((l, p))
        } else {
            Err::<(Location, Piece), MoveError>(MoveError::NotYourPiece)
        }),
{
    assert(crate::location::Letter::spec_from_index(l.file()) == Some(l.0));
    assert(crate::location::Number::spec_from_index(l.rank()) == Some(l.1));
    assert(location_of_pair(line[0], line[1]) == Ok::<Location, LocationError>(l));
    lemma_offset_bounds(l);
    let o = l.spec_offset();
    assert(b.subrange(o, o + 9)[3] == b[o + 3]);
    assert(b.subrange(o, o + 9)[8] == b[o + 8]);
    crate::piece::lemma_piece_bytes_roundtrip(p.piece_type, p.team);
    assert(slot_at(b, l) == Slot::Piece(p));
}

/// Only the destination's colour decides a move: when the first two bytes of `line`
/// are the letter (either case) and digit of square `l`, whose background digit is
/// one a board carries, the move goes to `l` exactly when that digit is `'4'`,
/// whatever stands on `l`; each other digit gives its own refusal.
pub proof fn lemma_destination_by_colour(b: Seq<u8>, line: Seq<u8>, piece: Piece, l: Location)
    requires
        b.len() >= ranks_len(),
        line.len() >= 2,
        line[0] == 0x61 + l.file() || line[0] == 0x41 + l.file(),
        line[1] == 0x31 + l.rank(),
        ({
            let c = b[l.spec_offset() - 2];
            c == 0x30 || c == 0x31 || c == 0x32 || c == 0x34 || c == 0x39
        }),
    ensures
        ({
            let c = b[l.spec_offset() - 2];
            destination_outcome(b, line, piece) == (if c == 0x34 {
                Ok::<Location, MoveError>(l)
            } else if c == 0x31 {
                Err::<Location, MoveError>(MoveError::Refused(MoveErr::PutsYouInCheck))
            } else if c == 0x32 {
                Err::<Location, MoveError>(MoveError::Refused(MoveErr::FriendlyFire(piece.team)))
            } else if c == 0x39 {
                Err::<Location, MoveError>(MoveError::Refused(MoveErr::NotInMoveSet(piece.piece_type)))
            } else {
                Err::<Location, MoveError>(MoveError::Refused(MoveErr::PathObstructed(l)))
            })
        }),
{
    assert(crate::location::Letter::spec_from_index(l.file()) == Some(l.0));
    assert(crate::location::Number::spec_from_index(l.rank()) == Some(l.1));
    assert(location_of_pair(line[0], line[1]) == Ok::<Location, LocationError>(l));
    assert(highlight_index(l) == l.spec_offset() - 2);
}

/// Moving copies bytes: after moving from `from` to `to`, the `SLOT_WIDTH` bytes at
/// `to`'s offset are those that were at `from`'s offset, the `SLOT_WIDTH` bytes at
/// `from`'s offset read `ESC [49m ESC [39m`, a space and a zero-width space, and
/// every other byte is as it was.
pub proof fn lemma_move_copies_bytes(b: Seq<u8>, from: Location, to: Location)
    requires
        b.len() >= ranks_len(),
        from != to,
    ensures
        spec_move(b, from, to).len() == b.len(),
        spec_move(b, from, to).subrange(to.spec_offset(), to.spec_offset() + 14) == b.subrange(
            from.spec_offset(),
            from.spec_offset() + 14,
        ),
        spec_move(b, from, to).subrange(from.spec_offset(), from.spec_offset() + 14) == seq![
            0x1bu8, 0x5b, 0x34, 0x39, 0x6d, 0x1b, 0x5b, 0x33, 0x39, 0x6d, 0x20, 0xe2, 0x80, 0x8b,
        ],
        forall|j: int|
            0 <= j < b.len() && !(from.spec_offset() <= j < from.spec_offset() + 14) && !(to.spec_offset()
                <= j < to.spec_offset() + 14) ==> #[trigger] spec_move(b, from, to)[j] == b[j],
{
    lemma_offset_bounds(from);
    lemma_offset_bounds(to);
    lemma_offsets_apart(from, to);
    assert(SLOT_WIDTH == 14);
    let m = spec_move(b, from, to);
    let src = from.spec_offset();
    let dst = to.spec_offset();
    assert forall|j: int| 0 <= j < b.len() implies #[trigger] m[j] == (if src <= j < src + 14 {
        empty_square_bytes()[j - src]
    } else if dst <= j < dst + 14 {
        b[j - dst + src]
    } else {
        b[j]
    }) by {}
    assert(m.subrange(dst, dst + 14) =~= b.subrange(src, src + 14));
    assert(m.subrange(src, src + 14) =~= seq![
        0x1bu8, 0x5b, 0x34, 0x39, 0x6d, 0x1b, 0x5b, 0x33, 0x39, 0x6d, 0x20, 0xe2, 0x80, 0x8b,
    ]);
}

/// Offering a square to side `t` colours it yellow (`'2'`) exactly when its bytes
/// show a piece of side `t`, and blue (`'4'`) otherwise (an empty square or a piece
/// of the other side).
pub proof fn lemma_selection_colour_by_side(b: Seq<u8>, loc: Location, t: Team)
    requires
        b.len() >= ranks_len(),
    ensures
        selection_colour(slot_at(b, loc), t) == (if b[loc.spec_offset() + 3] == t.spec_byte() && 0x97
            <= b[loc.spec_offset() + 8] <= 0x9c {
            0x32u8
        } else {
            0x34u8
        }),
{
    lemma_offset_bounds(loc);
    let o = loc.spec_offset();
    assert(b.subrange(o, o + 9)[3] == b[o + 3]);
    assert(b.subrange(o, o + 9)[8] == b[o + 8]);
}

} // verus!
