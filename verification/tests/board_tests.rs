use chess_bytes::board::{ChessBytes, MoveErr, MoveError, TryMove};
use chess_bytes::location::{Delta, Letter, Location, LocationError, Number};
use chess_bytes::piece::{Piece, PieceType, Slot, Team};

const EMPTY_SQUARE: &[u8] = "\u{1b}[49m\u{1b}[39m \u{200b}".as_bytes();

/// Renders a board with the given pieces: (file, rank, piece).
fn render(pieces: &[(usize, usize, Piece)]) -> Vec<u8> {
    let mut out = Vec::new();
    for rank in 0..8 {
        out.push(b'1' + rank as u8);
        out.push(b' ');
        for file in 0..8 {
            match pieces.iter().find(|(f, r, _)| *f == file && *r == rank) {
                Some((_, _, p)) => {
                    out.extend_from_slice(b"\x1b[49m\x1b[3");
                    out.push(p.team.byte());
                    out.push(b'm');
                    out.extend_from_slice(&[0xf3, 0xb0, 0xa1, p.piece_type.byte()]);
                }
                None => out.extend_from_slice(EMPTY_SQUARE),
            }
        }
        out.extend_from_slice(b"\x1b[39m\x1b[49m\n");
    }
    out.extend_from_slice(b"  a b c d e f g h");
    out
}

fn piece(piece_type: PieceType, team: Team) -> Piece {
    Piece { piece_type, team }
}

fn loc(file: Letter, rank: Number) -> Location {
    Location(file, rank)
}

fn colour(board: &ChessBytes, l: Location) -> u8 {
    board.as_bytes()[l.offset() - 2]
}

fn sample() -> ChessBytes {
    ChessBytes::new(render(&[
        (4, 1, piece(PieceType::Pawn, Team::White)),
        (3, 2, piece(PieceType::Rook, Team::Black)),
        (6, 0, piece(PieceType::Knight, Team::White)),
        (4, 7, piece(PieceType::King, Team::Black)),
        (5, 2, piece(PieceType::Bishop, Team::White)),
    ]))
}

#[test]
fn rendered_layout_length() {
    let b = sample();
    assert_eq!(b.as_bytes().len(), 1017);
}

#[test]
fn get_reads_pieces() {
    let b = sample();
    assert_eq!(b.get(loc(Letter::E, Number::Two)), Slot::Piece(piece(PieceType::Pawn, Team::White)));
    assert_eq!(b.get(loc(Letter::D, Number::Three)), Slot::Piece(piece(PieceType::Rook, Team::Black)));
    assert_eq!(b.get(loc(Letter::E, Number::Eight)), Slot::Piece(piece(PieceType::King, Team::Black)));
    assert_eq!(b.get(loc(Letter::E, Number::Four)), Slot::Empty);
    assert_eq!(b.get(loc(Letter::A, Number::One)), Slot::Empty);
}

#[test]
fn get_bytes_of_square() {
    let b = sample();
    let bytes = b.get_bytes(loc(Letter::E, Number::Two));
    assert_eq!(bytes, [0x1b, b'[', b'3', b'7', b'm', 0xf3, 0xb0, 0xa1, 0x99]);
}

#[test]
fn select_piece_errors() {
    let mut b = sample();
    let before = b.as_bytes().to_vec();
    assert_eq!(b.select_piece(b"", Team::White), Err(MoveError::MissingStart));
    assert_eq!(b.select_piece(b"e", Team::White), Err(MoveError::MissingStart));
    assert_eq!(b.select_piece(b"x1\n", Team::White), Err(MoveError::BadLocation(LocationError::NotALetter)));
    assert_eq!(b.select_piece(b"e9\n", Team::White), Err(MoveError::BadLocation(LocationError::NotANumber)));
    assert_eq!(b.select_piece(b"e4\n", Team::White), Err(MoveError::EmptyTile));
    assert_eq!(b.select_piece(b"e8\n", Team::White), Err(MoveError::NotYourPiece));
    assert_eq!(b.as_bytes(), &before[..]);
}

#[test]
fn select_pawn_paints_its_squares() {
    let mut b = sample();
    let r = b.select_piece(b"E2\n", Team::White);
    assert_eq!(r, Ok((loc(Letter::E, Number::Two), piece(PieceType::Pawn, Team::White))));
    // the pawn's own square reads occupied, so the squares ahead are shown obstructed
    assert_eq!(colour(&b, loc(Letter::E, Number::Three)), b'0');
    assert_eq!(colour(&b, loc(Letter::E, Number::Four)), b'0');
    // an enemy piece on a diagonal ahead can be taken
    assert_eq!(colour(&b, loc(Letter::D, Number::Three)), b'4');
    // a friendly piece on the other diagonal is left alone
    assert_eq!(colour(&b, loc(Letter::F, Number::Three)), b'9');
    assert_eq!(colour(&b, loc(Letter::E, Number::Five)), b'9');
    // no piece moved
    assert_eq!(b.get(loc(Letter::E, Number::Two)), Slot::Piece(piece(PieceType::Pawn, Team::White)));
}

#[test]
fn select_other_kinds_paints_nothing() {
    let mut b = sample();
    let before = b.as_bytes().to_vec();
    let r = b.select_piece(b"g1", Team::White);
    assert_eq!(r, Ok((loc(Letter::G, Number::One), piece(PieceType::Knight, Team::White))));
    assert_eq!(b.as_bytes(), &before[..]);
}

#[test]
fn black_pawn_looks_down() {
    let mut b = ChessBytes::new(render(&[
        (2, 6, piece(PieceType::Pawn, Team::Black)),
        (1, 5, piece(PieceType::Queen, Team::White)),
    ]));
    b.highlight_board(loc(Letter::C, Number::Seven), piece(PieceType::Pawn, Team::Black), Team::Black);
    assert_eq!(colour(&b, loc(Letter::C, Number::Six)), b'0');
    assert_eq!(colour(&b, loc(Letter::C, Number::Five)), b'0');
    assert_eq!(colour(&b, loc(Letter::B, Number::Six)), b'4');
    assert_eq!(colour(&b, loc(Letter::D, Number::Six)), b'9');
}

#[test]
fn pawn_on_empty_square_paints_moves() {
    // a pawn that is not on the board: its square reads empty
    let mut b = ChessBytes::new(render(&[]));
    b.highlight_board(loc(Letter::B, Number::Two), piece(PieceType::Pawn, Team::White), Team::White);
    assert_eq!(colour(&b, loc(Letter::B, Number::Three)), b'4');
    assert_eq!(colour(&b, loc(Letter::B, Number::Four)), b'4');
    let mut c = ChessBytes::new(render(&[]));
    c.highlight_board(loc(Letter::B, Number::Three), piece(PieceType::Pawn, Team::White), Team::White);
    assert_eq!(colour(&c, loc(Letter::B, Number::Four)), b'4');
    assert_eq!(colour(&c, loc(Letter::B, Number::Five)), b'9');
}

#[test]
fn finish_move_refusals() {
    let mut b = sample();
    let (from, p) = b.select_piece(b"e2\n", Team::White).unwrap();
    let before = b.as_bytes().to_vec();
    assert_eq!(b.finish_move(b"", from, p), Err(MoveError::MissingDestination));
    assert_eq!(b.finish_move(b"q3", from, p), Err(MoveError::BadLocation(LocationError::NotALetter)));
    assert!(b.can_finish(b"e3\n", from));
    assert_eq!(
        b.finish_move(b"e3\n", from, p),
        Err(MoveError::Refused(MoveErr::PathObstructed(loc(Letter::E, Number::Three))))
    );
    assert_eq!(
        b.finish_move(b"a6\n", from, p),
        Err(MoveError::Refused(MoveErr::NotInMoveSet(PieceType::Pawn)))
    );
    assert_eq!(b.as_bytes(), &before[..]);
}

#[test]
fn finish_move_takes_piece() {
    let mut b = sample();
    let (from, p) = b.select_piece(b"e2\n", Team::White).unwrap();
    assert!(b.can_finish(b"d3\n", from));
    assert_eq!(b.finish_move(b"d3\n", from, p), Ok(()));
    assert_eq!(b.get(loc(Letter::D, Number::Three)), Slot::Piece(piece(PieceType::Pawn, Team::White)));
    assert_eq!(b.get(from), Slot::Empty);
    assert_eq!(&b.as_bytes()[from.offset()..from.offset() + 14], EMPTY_SQUARE);
    // the bytes written past the vacated square spoil the next square's background
    assert_eq!(colour(&b, loc(Letter::F, Number::Two)), 0x80);
    assert!(!b.can_finish(b"f2", from));
    assert_eq!(b.get(loc(Letter::F, Number::Three)), Slot::Piece(piece(PieceType::Bishop, Team::White)));
}

#[test]
fn move_piece_carries_slot() {
    let mut b = sample();
    let from = loc(Letter::G, Number::One);
    let to = loc(Letter::A, Number::Five);
    b.move_piece(from, to);
    assert_eq!(b.get(to), Slot::Piece(piece(PieceType::Knight, Team::White)));
    assert_eq!(b.get(from), Slot::Empty);
    assert_eq!(b.get(loc(Letter::E, Number::Two)), Slot::Piece(piece(PieceType::Pawn, Team::White)));
    assert_eq!(b.as_bytes().len(), 1017);
}

#[test]
fn set_highlight_colours() {
    let mut b = sample();
    b.set_highlight(loc(Letter::E, Number::Two), Team::White);
    assert_eq!(colour(&b, loc(Letter::E, Number::Two)), b'2');
    b.set_highlight(loc(Letter::D, Number::Three), Team::White);
    assert_eq!(colour(&b, loc(Letter::D, Number::Three)), b'4');
    b.set_highlight(loc(Letter::A, Number::Eight), Team::White);
    assert_eq!(colour(&b, loc(Letter::A, Number::Eight)), b'4');
    b.set_highlight_with(loc(Letter::A, Number::Eight), TryMove::Blocked(MoveErr::PutsYouInCheck));
    assert_eq!(colour(&b, loc(Letter::A, Number::Eight)), b'1');
    let p = piece(PieceType::Rook, Team::White);
    assert_eq!(b.get_highlight(loc(Letter::A, Number::Eight), p), TryMove::Blocked(MoveErr::PutsYouInCheck));
    assert_eq!(b.get_highlight(loc(Letter::E, Number::Two), p), TryMove::Blocked(MoveErr::FriendlyFire(Team::White)));
    assert_eq!(b.get_highlight(loc(Letter::D, Number::Three), p), TryMove::Move);
    assert_eq!(b.get_highlight(loc(Letter::C, Number::Three), p), TryMove::Blocked(MoveErr::NotInMoveSet(PieceType::Rook)));
}

#[test]
fn highlight_line_from_occupied_start() {
    let mut b = sample();
    b.set_highlight_line(loc(Letter::G, Number::One), Delta(-1, 0), Team::White);
    for f in [Letter::A, Letter::B, Letter::C, Letter::D, Letter::E, Letter::F, Letter::G] {
        assert_eq!(colour(&b, loc(f, Number::One)), b'0');
    }
    assert_eq!(colour(&b, loc(Letter::H, Number::One)), b'9');
}

#[test]
fn highlight_line_stops_at_piece() {
    let mut b = sample();
    b.set_highlight_line(loc(Letter::A, Number::Three), Delta(1, 0), Team::White);
    assert_eq!(colour(&b, loc(Letter::A, Number::Three)), b'4');
    assert_eq!(colour(&b, loc(Letter::B, Number::Three)), b'4');
    assert_eq!(colour(&b, loc(Letter::C, Number::Three)), b'4');
    assert_eq!(colour(&b, loc(Letter::D, Number::Three)), b'0');
    assert_eq!(colour(&b, loc(Letter::E, Number::Three)), b'0');
    assert_eq!(colour(&b, loc(Letter::H, Number::Three)), b'0');
    assert_eq!(b.get(loc(Letter::D, Number::Three)), Slot::Piece(piece(PieceType::Rook, Team::Black)));
}

#[test]
fn highlight_line_diagonal_and_long_steps() {
    let mut b = ChessBytes::new(render(&[]));
    b.set_highlight_line(loc(Letter::A, Number::One), Delta(2, 3), Team::Black);
    assert_eq!(colour(&b, loc(Letter::A, Number::One)), b'4');
    assert_eq!(colour(&b, loc(Letter::C, Number::Four)), b'4');
    assert_eq!(colour(&b, loc(Letter::E, Number::Seven)), b'4');
    assert_eq!(colour(&b, loc(Letter::B, Number::Two)), b'9');
    let mut c = ChessBytes::new(render(&[]));
    c.set_highlight_line(loc(Letter::C, Number::Two), Delta(100, 0), Team::Black);
    assert_eq!(colour(&c, loc(Letter::C, Number::Two)), b'4');
}

#[test]
fn try_move_colours_roundtrip() {
    let l = loc(Letter::C, Number::Five);
    assert_eq!(TryMove::Move.colour(), b'4');
    assert_eq!(TryMove::Blocked(MoveErr::PutsYouInCheck).colour(), b'1');
    assert_eq!(TryMove::Blocked(MoveErr::FriendlyFire(Team::Black)).colour(), b'2');
    assert_eq!(TryMove::Blocked(MoveErr::PathObstructed(l)).colour(), b'0');
    assert_eq!(TryMove::from_colour(b'4', Team::White, PieceType::Pawn, l), TryMove::Move);
    assert_eq!(
        TryMove::from_colour(b'2', Team::Black, PieceType::Pawn, l),
        TryMove::Blocked(MoveErr::FriendlyFire(Team::Black))
    );
    assert_eq!(
        TryMove::from_colour(b'0', Team::Black, PieceType::Pawn, l),
        TryMove::Blocked(MoveErr::PathObstructed(l))
    );
    assert_eq!(
        TryMove::from_colour(b'9', Team::Black, PieceType::Queen, l),
        TryMove::Blocked(MoveErr::NotInMoveSet(PieceType::Queen))
    );
}

#[test]
fn can_finish_guards() {
    let b = sample();
    let from = loc(Letter::E, Number::Two);
    assert!(b.can_finish(b"", from));
    assert!(b.can_finish(b"zz", from));
    assert!(b.can_finish(b"e2", from));
    let mut c = sample();
    c.set_highlight_with(from, TryMove::Move);
    assert!(!c.can_finish(b"e2", from));
    assert!(c.can_finish(b"e3", from));
}
