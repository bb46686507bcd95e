use vstd::prelude::*;

verus! {

/// The kind of a chess piece. In the rendered board each kind is told apart by the
/// last byte of its glyph (see [`PieceType::byte`]).
#[derive(Debug, Clone, Copy, PartialEq, Eq, Structural)]
pub enum PieceType {
    King,
    Knight,
    Pawn,
    Queen,
    Rook,
    Bishop,
}

impl PieceType {
    /// The last byte of the glyph of this kind: `0x97` for the king, then one more
    /// for each kind in the order of declaration.
    pub open spec fn spec_byte(self) -> u8 {
        match self {
            PieceType::King => 0x97,
            PieceType::Knight => 0x98,
            PieceType::Pawn => 0x99,
            PieceType::Queen => 0x9a,
            PieceType::Rook => 0x9b,
            PieceType::Bishop => 0x9c,
        }
    }

    /// The kind whose glyph ends in byte `b`, if any.
    pub open spec fn spec_n(b: u8) -> Option<PieceType> {
        if b == 0x97 {
            Some(PieceType::King)
        } else if b == 0x98 {
            Some(PieceType::Knight)
        } else if b == 0x99 {
            Some(PieceType::Pawn)
        } else if b == 0x9a {
            Some(PieceType::Queen)
        } else if b == 0x9b {
            Some(PieceType::Rook)
        } else if b == 0x9c {
            Some(PieceType::Bishop)
        } else {
            None
        }
    }

    /// The last byte of the glyph of this kind.
    pub fn byte(self) -> (r: u8)
        ensures
            r == self.spec_byte(),
    {
        match self {
            PieceType::King => 0x97,
            PieceType::Knight => 0x98,
            PieceType::Pawn => 0x99,
            PieceType::Queen => 0x9a,
            PieceType::Rook => 0x9b,
            PieceType::Bishop => 0x9c,
        }
    }

    /// The kind whose glyph ends in byte `b`, or `None`.
    pub fn n(b: u8) -> (r: Option<PieceType>)
        ensures
            r == PieceType::spec_n(b),
    {
        match b {
            0x97 => Some(PieceType::King),
            0x98 => Some(PieceType::Knight),
            0x99 => Some(PieceType::Pawn),
            0x9a => Some(PieceType::Queen),
            0x9b => Some(PieceType::Rook),
            0x9c => Some(PieceType::Bishop),
            _ => None,
        }
    }

    /// The name of the kind, as `Debug` prints it.
    pub open spec fn spec_name(self) -> Seq<char> {
        match self {
            PieceType::King => "King"@,
            PieceType::Knight => "Knight"@,
            PieceType::Pawn => "Pawn"@,
            PieceType::Queen => "Queen"@,
            PieceType::Rook => "Rook"@,
            PieceType::Bishop => "Bishop"@,
        }
    }

    /// The name of the kind, as `Debug` prints it.
    pub fn name(self) -> (r: &'static str)
        ensures
            r@ == self.spec_name(),
    {
        match self {
            PieceType::King => "King",
            PieceType::Knight => "Knight",
            PieceType::Pawn => "Pawn",
            PieceType::Queen => "Queen",
            PieceType::Rook => "Rook",
            PieceType::Bishop => "Bishop",
        }
    }
}

/// A side. In the rendered board a side is told apart by the digit of the foreground
/// colour of its pieces (see [`Team::byte`]).
#[derive(Debug, Clone, Copy, PartialEq, Eq, Structural)]
pub enum Team {
    White,
    Black,
}

impl Team {
    /// The foreground colour digit of the side's pieces: `'7'` (white) or `'5'` (magenta).
    pub open spec fn spec_byte(self) -> u8 {
        match self {
            Team::White => 0x37,
            Team::Black => 0x35,
        }
    }

    /// The side whose colour digit is `b`, if any.
    pub open spec fn spec_n(b: u8) -> Option<Team> {
        if b == 0x37 {
            Some(Team::White)
        } else if b == 0x35 {
            Some(Team::Black)
        } else {
            None
        }
    }

    /// The foreground colour digit of the side's pieces.
    pub fn byte(self) -> (r: u8)
        ensures
            r == self.spec_byte(),
    {
        match self {
            Team::White => 0x37,
            Team::Black => 0x35,
        }
    }

    /// The side whose colour digit is `b`, or `None`.
    pub fn n(b: u8) -> (r: Option<Team>)
        ensures
            r == Team::spec_n(b),
    {
        match b {
            0x37 => Some(Team::White),
            0x35 => Some(Team::Black),
            _ => None,
        }
    }

    /// The name of the side, as `Debug` prints it.
    pub open spec fn spec_name(self) -> Seq<char> {
        match self {
            Team::White => "White"@,
            Team::Black => "Black"@,
        }
    }

    /// The name of the side, as `Debug` prints it.
    pub fn name(self) -> (r: &'static str)
        ensures
            r@ == self.spec_name(),
    {
        match self {
            Team::White => "White",
            Team::Black => "Black",
        }
    }

    /// The rank step that moves a pawn of this side forward.
    pub open spec fn spec_forward_direction(self) -> i8 {
        match self {
            Team::White => 1i8,
            Team::Black => -1i8,
        }
    }

    /// The rank step that moves a pawn of this side forward: 1 for white, -1 for black.
    pub fn forward_direction(&self) -> (r: i8)
        ensures
            r == self.spec_forward_direction(),
    {
        match self {
            Team::White => 1,
            Team::Black => -1,
        }
    }

    /// The other side.
    pub open spec fn spec_opponent(self) -> Team {
        match self {
            Team::White => Team::Black,
            Team::Black => Team::White,
        }
    }

    /// The side that plays after this one.
    pub fn opponent(self) -> (r: Team)
        ensures
            r == self.spec_opponent(),
    {
        match self {
            Team::White => Team::Black,
            Team::Black => Team::White,
        }
    }
}

/// A piece: its kind and its side.
#[derive(Debug, Clone, Copy, PartialEq, Eq, Structural)]
pub struct Piece {
    pub piece_type: PieceType,
    pub team: Team,
}

/// What stands on a square.
#[derive(Debug, Clone, Copy, PartialEq, Eq, Structural)]
pub enum Slot {
    Piece(Piece),
    Empty,
}

impl Slot {
    /// Whether a piece stands there.
    pub fn is_piece(&self) -> (r: bool)
        ensures
            r == (*self is Piece),
    {
        match self {
            Slot::Piece(_) => true,
            Slot::Empty => false,
        }
    }

    /// Whether the square is empty.
    pub fn is_empty(&self) -> (r: bool)
        ensures
            r == (*self is Empty),
    {
        match self {
            Slot::Piece(_) => false,
            Slot::Empty => true,
        }
    }
}

/// What the nine rendered bytes of a square, from its foreground colour sequence
/// through its glyph, show: a piece when the colour digit (byte 3) names a side and
/// the last glyph byte (byte 8) names a kind, else nothing.
pub open spec fn slot_of_bytes(b: Seq<u8>) -> Slot {
    match (Team::spec_n(b[3]), PieceType::spec_n(b[8])) {
        (Some(team), Some(piece_type)) => Slot::Piece(Piece { piece_type, team }),
        _ => Slot::Empty,
    }
}

impl From<[u8; 9]> for Slot {
    /// Reads what the nine bytes of a square, from its foreground colour on, show.
    fn from(value: [u8; 9]) -> (r: Slot) {
        let t = value[3];
        let p = value[8];
        if (t == 0x37 || t == 0x35) && 0x97 <= p && p <= 0x9c {
            let team = Team::n(t);
            let piece_type = PieceType::n(p);
            Slot::Piece(Piece { team: team.unwrap(), piece_type: piece_type.unwrap() })
        } else {
            Slot::Empty
        }
    }
}

impl vstd::std_specs::convert::FromSpecImpl<[u8; 9]> for Slot {
    open spec fn obeys_from_spec() -> bool {
        true
    }

    open spec fn from_spec(v: [u8; 9]) -> Slot {
        slot_of_bytes(v@)
    }
}

/// The glyph byte of each kind and the colour digit of each side read back as that
/// kind and side.
pub proof fn lemma_piece_bytes_roundtrip(t: PieceType, team: Team)
    ensures
        PieceType::spec_n(t.spec_byte()) == Some(t),
        Team::spec_n(team.spec_byte()) == Some(team),
{
}

/// Nine square bytes whose colour digit and last glyph byte are those of a piece
/// read as that piece.
pub proof fn lemma_slot_of_piece_bytes(b: Seq<u8>, p: Piece)
    requires
        b.len() == 9,
        b[3] == p.team.spec_byte(),
        b[8] == p.piece_type.spec_byte(),
    ensures
        slot_of_bytes(b) == Slot::Piece(p),
{
}

/// Sides alternate: the opponent of a side is the other side, its opponent is the
/// side itself, and its pawns move the opposite way.
pub proof fn lemma_opponent(t: Team)
    ensures
        t.spec_opponent() != t,
        t.spec_opponent().spec_opponent() == t,
        t.spec_opponent().spec_forward_direction() == -t.spec_forward_direction(),
        t.spec_forward_direction() == (if t == Team::White { 1i8 } else { -1i8 }),
{
}

/// Nine square bytes show a piece exactly when their colour digit (byte 3) is `'7'`
/// or `'5'` and their last glyph byte (byte 8) lies in `0x97..=0x9c`; otherwise they
/// show an empty square.
pub proof fn lemma_slot_of_bytes_cases(b: Seq<u8>)
    requires
        b.len() == 9,
    ensures
        (slot_of_bytes(b) is Piece) == ((b[3] == 0x37 || b[3] == 0x35) && 0x97 <= b[8] <= 0x9c),
        slot_of_bytes(b) matches Slot::Piece(p) ==> p.team.spec_byte() == b[3] && p.piece_type.spec_byte()
            == b[8],
{
}

} // verus!
