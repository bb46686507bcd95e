use chess_bytes::location::{Delta, Letter, Location, LocationError, Number};

#[test]
fn add_stays_on_board() {
    let l = Location(Letter::B, Number::Two);
    assert_eq!(l + Delta(1, 1), Some(Location(Letter::C, Number::Three)));
    assert_eq!(l + Delta(6, 6), Some(Location(Letter::H, Number::Eight)));
    assert_eq!(l + Delta(-1, -1), Some(Location(Letter::A, Number::One)));
}

#[test]
fn add_off_board_is_none() {
    let l = Location(Letter::B, Number::Two);
    assert_eq!(l + Delta(-2, 0), None);
    assert_eq!(l + Delta(0, 7), None);
    assert_eq!(l + Delta(100, 0), None);
    assert_eq!(Location(Letter::H, Number::Eight) + Delta(1, 0), None);
}

#[test]
fn sub_gives_step() {
    let a = Location(Letter::A, Number::One);
    let h = Location(Letter::H, Number::Eight);
    assert_eq!(h - a, Delta(7, 7));
    assert_eq!(a - h, Delta(-7, -7));
    assert_eq!(a - a, Delta(0, 0));
}

#[test]
fn add_then_sub_law_on_values() {
    let l = Location(Letter::D, Number::Four);
    let d = Delta(2, -3);
    let m = (l + d).unwrap();
    assert_eq!(m, Location(Letter::F, Number::One));
    assert_eq!(m - l, d);
    assert_eq!(l + (m - l), Some(m));
}

#[test]
fn add_assign_moves() {
    let mut l = Location(Letter::E, Number::Two);
    l.add_assign(Delta(0, 2));
    assert_eq!(l, Location(Letter::E, Number::Four));
    l.add_assign(Delta(-4, 4));
    assert_eq!(l, Location(Letter::A, Number::Eight));
}

#[test]
fn signum_of_steps() {
    assert_eq!(Delta(5, -3).signum(), Delta(1, -1));
    assert_eq!(Delta(0, 7).signum(), Delta(0, 1));
    assert_eq!(Delta(-128, 0).signum(), Delta(-1, 0));
}

#[test]
fn to_string_names() {
    assert_eq!(Location(Letter::A, Number::One).to_string(), "AOne");
    assert_eq!(Location(Letter::H, Number::Eight).to_string(), "HEight");
    assert_eq!(Location(Letter::E, Number::Seven).to_string(), "ESeven");
}

#[test]
fn offsets_of_corners() {
    assert_eq!(Location(Letter::A, Number::One).offset(), 7);
    assert_eq!(Location(Letter::B, Number::One).offset(), 21);
    assert_eq!(Location(Letter::A, Number::Two).offset(), 132);
    assert_eq!(Location(Letter::H, Number::Eight).offset(), 980);
}

#[test]
fn try_from_reads_squares() {
    assert_eq!(Location::try_from([b'e', b'4']), Ok(Location(Letter::E, Number::Four)));
    assert_eq!(Location::try_from([b'E', b'4']), Ok(Location(Letter::E, Number::Four)));
    assert_eq!(Location::try_from([b'a', b'1']), Ok(Location(Letter::A, Number::One)));
    assert_eq!(Location::try_from([b'H', b'8']), Ok(Location(Letter::H, Number::Eight)));
}

#[test]
fn try_from_errors() {
    assert_eq!(Location::try_from([b'i', b'4']), Err(LocationError::NotALetter));
    assert_eq!(Location::try_from([b'@', b'4']), Err(LocationError::NotALetter));
    assert_eq!(Location::try_from([b'z', b'9']), Err(LocationError::NotALetter));
    assert_eq!(Location::try_from([b'e', b'9']), Err(LocationError::NotANumber));
    assert_eq!(Location::try_from([b'e', b'0']), Err(LocationError::NotANumber));
    assert_eq!(Location::try_from([b'e', b'\n']), Err(LocationError::NotANumber));
}

#[test]
fn letter_and_number_indices() {
    assert_eq!(Letter::n(0), Some(Letter::A));
    assert_eq!(Letter::n(7), Some(Letter::H));
    assert_eq!(Letter::n(8), None);
    assert_eq!(Letter::n(-1), None);
    assert_eq!(Number::n(3), Some(Number::Four));
    assert_eq!(Number::n(8), None);
    assert_eq!(Letter::G.index(), 6);
    assert_eq!(Number::Six.index(), 5);
    assert_eq!(Letter::C.name(), "C");
    assert_eq!(Number::Three.name(), "Three");
}
