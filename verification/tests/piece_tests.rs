use chess_bytes::piece::{Piece, PieceType, Slot, Team};

#[test]
fn forward_direction_by_side() {
    assert_eq!(Team::White.forward_direction(), 1);
    assert_eq!(Team::Black.forward_direction(), -1);
}

#[test]
fn opponent_alternates() {
    assert_eq!(Team::White.opponent(), Team::Black);
    assert_eq!(Team::Black.opponent(), Team::White);
    assert_eq!(Team::White.opponent().opponent(), Team::White);
}

#[test]
fn piece_bytes_roundtrip() {
    for t in [PieceType::King, PieceType::Knight, PieceType::Pawn, PieceType::Queen, PieceType::Rook, PieceType::Bishop] {
        assert_eq!(PieceType::n(t.byte()), Some(t));
    }
    assert_eq!(PieceType::King.byte(), 0x97);
    assert_eq!(PieceType::Bishop.byte(), 0x9c);
    assert_eq!(PieceType::n(0x96), None);
    assert_eq!(PieceType::n(0x9d), None);
    assert_eq!(Team::n(Team::White.byte()), Some(Team::White));
    assert_eq!(Team::n(Team::Black.byte()), Some(Team::Black));
    assert_eq!(Team::White.byte(), b'7');
    assert_eq!(Team::Black.byte(), b'5');
    assert_eq!(Team::n(b'9'), None);
}

#[test]
fn names() {
    assert_eq!(PieceType::Queen.name(), "Queen");
    assert_eq!(Team::Black.name(), "Black");
}

#[test]
fn slot_from_piece_bytes() {
    let white_queen = [0x1b, b'[', b'3', b'7', b'm', 0xf3, 0xb0, 0xa1, 0x9a];
    assert_eq!(
        Slot::from(white_queen),
        Slot::Piece(Piece { piece_type: PieceType::Queen, team: Team::White })
    );
    let black_knight = [0x1b, b'[', b'3', b'5', b'm', 0xf3, 0xb0, 0xa1, 0x98];
    assert_eq!(
        Slot::from(black_knight),
        Slot::Piece(Piece { piece_type: PieceType::Knight, team: Team::Black })
    );
}

#[test]
fn slot_from_other_bytes_is_empty() {
    let empty = [0x1b, b'[', b'3', b'9', b'm', b' ', 0xe2, 0x80, 0x8b];
    assert_eq!(Slot::from(empty), Slot::Empty);
    let bad_glyph = [0x1b, b'[', b'3', b'7', b'm', 0xf3, 0xb0, 0xa1, 0x9d];
    assert_eq!(Slot::from(bad_glyph), Slot::Empty);
    let bad_colour = [0x1b, b'[', b'3', b'6', b'm', 0xf3, 0xb0, 0xa1, 0x97];
    assert_eq!(Slot::from(bad_colour), Slot::Empty);
}

#[test]
fn slot_predicates() {
    let s = Slot::Piece(Piece { piece_type: PieceType::Pawn, team: Team::White });
    assert!(s.is_piece());
    assert!(!s.is_empty());
    assert!(Slot::Empty.is_empty());
    assert!(!Slot::Empty.is_piece());
}
