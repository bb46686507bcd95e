use vstd::prelude::*;

verus! {

/// A file (column) of the board, `A` to `H`.
#[derive(Debug, Clone, Copy, PartialEq, Eq, Structural)]
pub enum Letter {
    A,
    B,
    C,
    D,
    E,
    F,
    G,
    H,
}

/// A rank (row) of the board, `One` to `Eight`.
#[derive(Debug, Clone, Copy, PartialEq, Eq, Structural)]
pub enum Number {
    One,
    Two,
    Three,
    Four,
    Five,
    Six,
    Seven,
    Eight,
}

impl Letter {
    /// The position of the file, counted from `A` = 0.
    pub open spec fn spec_index(self) -> int {
        match self {
            Letter::A => 0,
            Letter::B => 1,
            Letter::C => 2,
            Letter::D => 3,
            Letter::E => 4,
            Letter::F => 5,
            Letter::G => 6,
            Letter::H => 7,
        }
    }

    /// The file at position `i`, where `0 <= i < 8`.
    pub open spec fn spec_from_index(i: int) -> Option<Letter> {
        if i == 0 {
            Some(Letter::A)
        } else if i == 1 {
            Some(Letter::B)
        } else if i == 2 {
            Some(Letter::C)
        } else if i == 3 {
            Some(Letter::D)
        } else if i == 4 {
            Some(Letter::E)
        } else if i == 5 {
            Some(Letter::F)
        } else if i == 6 {
            Some(Letter::G)
        } else if i == 7 {
            Some(Letter::H)
        } else {
            None
        }
    }

    /// The position of the file, counted from `A` = 0.
    pub fn index(self) -> (r: i8)
        ensures
            r == self.spec_index(),
            0 <= r < 8,
    {
        match self {
            Letter::A => 0,
            Letter::B => 1,
            Letter::C => 2,
            Letter::D => 3,
            Letter::E => 4,
            Letter::F => 5,
            Letter::G => 6,
            Letter::H => 7,
        }
    }

    /// The file at position `i`, or `None` when `i` is not in `0..8`.
    pub fn n(i: i8) -> (r: Option<Letter>)
        ensures
            r == Letter::spec_from_index(i as int),
    {
        match i {
            0 => Some(Letter::A),
            1 => Some(Letter::B),
            2 => Some(Letter::C),
            3 => Some(Letter::D),
            4 => Some(Letter::E),
            5 => Some(Letter::F),
            6 => Some(Letter::G),
            7 => Some(Letter::H),
            _ => None,
        }
    }
}


impl Letter {
    /// The name that `Debug` prints for the file.
    pub open spec fn spec_name(self) -> Seq<char> {
        match self {
            Letter::A => "A"@,
            Letter::B => "B"@,
            Letter::C => "C"@,
            Letter::D => "D"@,
            Letter::E => "E"@,
            Letter::F => "F"@,
            Letter::G => "G"@,
            Letter::H => "H"@,
        }
    }

    /// The name that `Debug` prints for the file.
    pub fn name(self) -> (r: &'static str)
        ensures
            r@ == self.spec_name(),
    {
        match self {
            Letter::A => "A",
            Letter::B => "B",
            Letter::C => "C",
            Letter::D => "D",
            Letter::E => "E",
            Letter::F => "F",
            Letter::G => "G",
            Letter::H => "H",
        }
    }
}

impl Number {
    /// The position of the rank, counted from `One` = 0.
    pub open spec fn spec_index(self) -> int {
        match self {
            Number::One => 0,
            Number::Two => 1,
            Number::Three => 2,
            Number::Four => 3,
            Number::Five => 4,
            Number::Six => 5,
            Number::Seven => 6,
            Number::Eight => 7,
        }
    }

    /// The rank at position `i`, where `0 <= i < 8`.
    pub open spec fn spec_from_index(i: int) -> Option<Number> {
        if i == 0 {
            Some(Number::One)
        } else if i == 1 {
            Some(Number::Two)
        } else if i == 2 {
            Some(Number::Three)
        } else if i == 3 {
            Some(Number::Four)
        } else if i == 4 {
            Some(Number::Five)
        } else if i == 5 {
            Some(Number::Six)
        } else if i == 6 {
            Some(Number::Seven)
        } else if i == 7 {
            Some(Number::Eight)
        } else {
            None
        }
    }

    /// The position of the rank, counted from `One` = 0.
    pub fn index(self) -> (r: i8)
        ensures
            r == self.spec_index(),
            0 <= r < 8,
    {
        match self {
            Number::One => 0,
            Number::Two => 1,
            Number::Three => 2,
            Number::Four => 3,
            Number::Five => 4,
            Number::Six => 5,
            Number::Seven => 6,
            Number::Eight => 7,
        }
    }

    /// The rank at position `i`, or `None` when `i` is not in `0..8`.
    pub fn n(i: i8) -> (r: Option<Number>)
        ensures
            r == Number::spec_from_index(i as int),
    {
        match i {
            0 => Some(Number::One),
            1 => Some(Number::Two),
            2 => Some(Number::Three),
            3 => Some(Number::Four),
            4 => Some(Number::Five),
            5 => Some(Number::Six),
            6 => Some(Number::Seven),
            7 => Some(Number::Eight),
            _ => None,
        }
    }

    /// The name that `Debug` prints for the rank.
    pub open spec fn spec_name(self) -> Seq<char> {
        match self {
            Number::One => "One"@,
            Number::Two => "Two"@,
            Number::Three => "Three"@,
            Number::Four => "Four"@,
            Number::Five => "Five"@,
            Number::Six => "Six"@,
            Number::Seven => "Seven"@,
            Number::Eight => "Eight"@,
        }
    }

    /// The name that `Debug` prints for the rank.
    pub fn name(self) -> (r: &'static str)
        ensures
            r@ == self.spec_name(),
    {
        match self {
            Number::One => "One",
            Number::Two => "Two",
            Number::Three => "Three",
            Number::Four => "Four",
            Number::Five => "Five",
            Number::Six => "Six",
            Number::Seven => "Seven",
            Number::Eight => "Eight",
        }
    }
}

/// The sign of `x`: -1, 0 or 1.
pub open spec fn sign(x: int) -> int {
    if x > 0 {
        1
    } else if x < 0 {
        -1
    } else {
        0
    }
}

/// A step on the board: files to the right, then ranks up.
#[derive(Debug, Clone, Copy, PartialEq, Eq, Structural)]
pub struct Delta(pub i8, pub i8);

impl Delta {
    /// The step of length one in each direction that has the signs of this step.
    pub fn signum(&self) -> (r: Delta)
        ensures
            r.0 == sign(self.0 as int),
            r.1 == sign(self.1 as int),
    {
        Delta(sign_i8(self.0), sign_i8(self.1))
    }
}

fn sign_i8(x: i8) -> (r: i8)
    ensures
        r == sign(x as int),
{
    if x > 0 {
        1
    } else if x < 0 {
        -1
    } else {
        0
    }
}

/// A square of the board.
#[derive(Debug, Clone, Copy, PartialEq, Eq, Structural)]
pub struct Location(pub Letter, pub Number);

/// Width in bytes of the terminal escape sequences that colour one square.
pub const ANSI_WIDTH: usize = 10;

/// Width in bytes of the glyph drawn on one square.
pub const PIECE_WIDTH: usize = 4;

/// Width in bytes of one rendered square: its colours, then its glyph.
pub const SLOT_WIDTH: usize = ANSI_WIDTH + PIECE_WIDTH;

/// Number of squares in a rank.
pub const HORIZONTAL_COUNT: usize = 8;

/// Width in bytes of one rendered rank: the label "n ", the squares, the escape
/// sequences that reset the colours, and the newline.
pub const ROW_WIDTH: usize = 2 + SLOT_WIDTH * HORIZONTAL_COUNT + ANSI_WIDTH + 1;

impl Location {
    /// Position of the file, 0 to 7.
    pub open spec fn file(self) -> int {
        self.0.spec_index()
    }

    /// Position of the rank, 0 to 7.
    pub open spec fn rank(self) -> int {
        self.1.spec_index()
    }

    /// The square `d` away from this one, if it is on the board.
    pub open spec fn spec_add(self, d: Delta) -> Option<Location> {
        match Letter::spec_from_index(self.file() + d.0) {
            Some(l) => match Number::spec_from_index(self.rank() + d.1) {
                Some(n) => Some(Location(l, n)),
                None => None,
            },
            None => None,
        }
    }

    /// Adding `d` stays within `i8`: the file sum always, the rank sum whenever
    /// the file sum lands on the board (it is not computed otherwise).
    pub open spec fn add_defined(self, d: Delta) -> bool {
        &&& self.file() + d.0 <= 127
        &&& (0 <= self.file() + d.0 < 8 ==> self.rank() + d.1 <= 127)
    }

    /// The step from `other` to this square.
    pub open spec fn spec_sub(self, other: Location) -> Delta {
        Delta((self.file() - other.file()) as i8, (self.rank() - other.rank()) as i8)
    }

    /// Byte offset, in the rendered board, of the foreground colour sequence of the square.
    pub open spec fn spec_offset(self) -> int {
        SLOT_WIDTH * self.file() + 2 + 5 + self.rank() * ROW_WIDTH
    }

    /// Byte offset, in the rendered board, of the foreground colour sequence of the square
    /// (the background colour sequence begins five bytes before it).
    pub fn offset(self) -> (r: usize)
        ensures
            r == self.spec_offset(),
            7 <= r <= 7 * SLOT_WIDTH + 7 + 7 * ROW_WIDTH,
    {
        let l = self.0.index() as usize;
        let n = self.1.index() as usize;
        let x_offset = (SLOT_WIDTH * l) + 2 + 5;
        let y_offset = n * ROW_WIDTH;
        x_offset + y_offset
    }

    /// Moves this square by `rhs`, which must keep it on the board.
    pub fn add_assign(&mut self, rhs: Delta)
        requires
            old(self).spec_add(rhs) is Some,
        ensures
            *final(self) == old(self).spec_add(rhs).unwrap(),
    {
        let l = Letter::n(self.0.index() + rhs.0);
        let n = Number::n(self.1.index() + rhs.1);
        self.0 = l.unwrap();
        self.1 = n.unwrap();
    }

    /// The text of the square, such as `AOne` or `HEight`.
    pub open spec fn spec_to_string(self) -> Seq<char> {
        self.0.spec_name() + self.1.spec_name()
    }

    /// The text of the square, such as `AOne` or `HEight`.
    pub fn to_string(&self) -> (r: String)
        ensures
            r@ == self.spec_to_string(),
    {
        String::from_str(self.0.name()).concat(self.1.name())
    }
}

impl core::ops::Add<Delta> for Location {
    type Output = Option<Location>;

    /// The square `rhs` away, or `None` when that falls off the board.
    fn add(self, rhs: Delta) -> (r: Option<Location>) {
        let l = Letter::n(self.0.index() + rhs.0);
        match l {
            Some(l) => {
                let n = Number::n(self.1.index() + rhs.1);
                match n {
                    Some(n) => Some(Location(l, n)),
                    None => None,
                }
            },
            None => None,
        }
    }
}

impl vstd::std_specs::ops::AddSpecImpl<Delta> for Location {
    open spec fn obeys_add_spec() -> bool {
        true
    }

    open spec fn add_req(self, rhs: Delta) -> bool {
        self.add_defined(rhs)
    }

    open spec fn add_spec(self, rhs: Delta) -> Option<Location> {
        self.spec_add(rhs)
    }
}

impl core::ops::Sub<Location> for Location {
    type Output = Delta;

    /// The step that leads from `rhs` to this square.
    fn sub(self, rhs: Location) -> (r: Delta) {
        Delta(self.0.index() - rhs.0.index(), self.1.index() - rhs.1.index())
    }
}

impl vstd::std_specs::ops::SubSpecImpl<Location> for Location {
    open spec fn obeys_sub_spec() -> bool {
        true
    }

    open spec fn sub_req(self, rhs: Location) -> bool {
        true
    }

    open spec fn sub_spec(self, rhs: Location) -> Delta {
        self.spec_sub(rhs)
    }
}

/// Why two bytes do not name a square.
#[derive(Debug, Clone, Copy, PartialEq, Eq, Structural)]
pub enum LocationError {
    /// The first byte is not a letter from `a` to `h` (either case).
    NotALetter,
    /// The second byte is not a digit from `1` to `8`.
    NotANumber,
}

/// The file that byte `b` names: `A`..`H` or `a`..`h`.
pub open spec fn letter_of_byte(b: u8) -> Option<Letter> {
    if 0x41 <= b <= 0x48 {
        Letter::spec_from_index(b - 0x41)
    } else if 0x61 <= b <= 0x68 {
        Letter::spec_from_index(b - 0x61)
    } else {
        None
    }
}

/// The rank that byte `b` names: `1`..`8`.
pub open spec fn number_of_byte(b: u8) -> Option<Number> {
    if 0x31 <= b <= 0x38 {
        Number::spec_from_index(b - 0x31)
    } else {
        None
    }
}

/// The square that a letter byte and a digit byte, such as `e` and `4`, name, or why
/// they name none (the letter is looked at first).
pub open spec fn location_of_pair(first: u8, second: u8) -> Result<Location, LocationError> {
    match letter_of_byte(first) {
        None => Err(LocationError::NotALetter),
        Some(l) => match number_of_byte(second) {
            None => Err(LocationError::NotANumber),
            Some(n) => Ok(Location(l, n)),
        },
    }
}

/// The square that two bytes such as `e4` or `E4` name, or why they name none.
pub open spec fn location_of_bytes(v: [u8; 2]) -> Result<Location, LocationError> {
    location_of_pair(v@[0], v@[1])
}

impl TryFrom<[u8; 2]> for Location {
    type Error = LocationError;

    /// Reads a square from a letter byte and a digit byte, such as `e4`.
    fn try_from(value: [u8; 2]) -> (r: Result<Location, LocationError>) {
        let first = value[0];
        let letter = if 0x41 <= first && first <= 0x48 {
            Letter::n((first - 0x41) as i8)
        } else if 0x61 <= first && first <= 0x68 {
            Letter::n((first - 0x61) as i8)
        } else {
            return Err(LocationError::NotALetter);
        };
        let second = value[1];
        let number = if 0x31 <= second && second <= 0x38 {
            Number::n((second - 0x31) as i8)
        } else {
            return Err(LocationError::NotANumber);
        };
        Ok(Location(letter.unwrap(), number.unwrap()))
    }
}

impl vstd::std_specs::convert::TryFromSpecImpl<[u8; 2]> for Location {
    open spec fn obeys_try_from_spec() -> bool {
        true
    }

    open spec fn try_from_spec(v: [u8; 2]) -> Result<Location, LocationError> {
        location_of_bytes(v)
    }
}

/// Stepping from a square and then asking for the step back to it gives the step:
/// `(l + d) - l == d` whenever `l + d` is on the board.
pub proof fn lemma_add_then_sub(l: Location, d: Delta)
    ensures
        l.spec_add(d) matches Some(m) ==> m.spec_sub(l) == d,
{
}

/// The step between two squares leads from the one to the other:
/// `l + (m - l) == Some(m)`, and that addition never overflows.
pub proof fn lemma_sub_then_add(l: Location, m: Location)
    ensures
        l.add_defined(m.spec_sub(l)),
        l.spec_add(m.spec_sub(l)) == Some(m),
{
    assert(Letter::spec_from_index(m.file()) == Some(m.0));
    assert(Number::spec_from_index(m.rank()) == Some(m.1));
}

/// Square names ignore the case of the letter: `A`..`H` read as `a`..`h`.
pub proof fn lemma_letter_case_insensitive(upper: u8, second: u8)
    requires
        0x41 <= upper <= 0x48,
    ensures
        location_of_pair(upper, second) == location_of_pair((upper + 0x20) as u8, second),
{
}

/// Every square has a name that reads back: the letter `a + file` and the digit
/// `1 + rank` name it.
pub proof fn lemma_location_bytes_roundtrip(l: Location)
    ensures
        location_of_pair((0x61 + l.file()) as u8, (0x31 + l.rank()) as u8) == Ok::<Location, LocationError>(l),
{
    assert(Letter::spec_from_index(l.file()) == Some(l.0));
    assert(Number::spec_from_index(l.rank()) == Some(l.1));
}

/// Which byte is refused: a first byte outside `A`..`H` and `a`..`h` is not a
/// letter; with a letter, a second byte outside `1`..`8` is not a number; otherwise
/// the bytes name the square whose file and rank are their distances from `a`/`A`
/// and `1`.
pub proof fn lemma_location_of_pair_cases(first: u8, second: u8)
    ensures
        !((0x41 <= first <= 0x48) || (0x61 <= first <= 0x68)) ==> location_of_pair(first, second)
            == Err::<Location, LocationError>(LocationError::NotALetter),
        ((0x41 <= first <= 0x48) || (0x61 <= first <= 0x68)) && !(0x31 <= second <= 0x38) ==> location_of_pair(
            first,
            second,
        ) == Err::<Location, LocationError>(LocationError::NotANumber),
        location_of_pair(first, second) matches Ok(l) ==> (l.file() == first - 0x41 || l.file() == first
            - 0x61) && l.rank() == second - 0x31,
{
}

} // verus!
