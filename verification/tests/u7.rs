use std::fmt::Debug;
use std::str::FromStr;
use tuning_tool::error::{FromStrError, ParseIntError, TryFromU8Error};
use tuning_tool::u7::{
    Char7, Checksum, ChunkSize, DeviceId, KeyNumber, Lsb, MidiValue, Msb, NoteNumber, Preset, U7,
};

fn n(v: u8) -> NoteNumber {
    NoteNumber::from_u8_lossy(v)
}

#[test]
fn lib_basics() {
    assert_eq!(0, NoteNumber::zero().to_u8());
    assert_eq!(1, NoteNumber::one().to_u8());
    assert_eq!(0, NoteNumber::min_value().to_u8());
    assert_eq!(127, NoteNumber::max_value().to_u8());
}

#[test]
fn constant_no_panic() {
    NoteNumber::constant::<127>();
}

#[test]
fn from_str() {
    let value: NoteNumber = "123".parse().expect("Should succeed");
    assert_eq!(123, value.to_u8());

    let value: NoteNumber = NoteNumber::from_str("123").expect("Should succeed");
    assert_eq!(123, value.to_u8());
}

#[test]
fn from_str_failure() {
    assert!(NoteNumber::from_str("1234").is_err());
}

#[test]
fn widening_succ() {
    assert_eq!(1, NoteNumber::zero().widening_succ());
    assert_eq!(2, NoteNumber::one().widening_succ());
    assert_eq!(1, NoteNumber::min_value().widening_succ());
    assert_eq!(128, NoteNumber::max_value().widening_succ());
}

#[test]
fn widening_pred() {
    assert_eq!(-1, NoteNumber::zero().widening_pred());
    assert_eq!(0, NoteNumber::one().widening_pred());
    assert_eq!(-1, NoteNumber::min_value().widening_pred());
    assert_eq!(126, NoteNumber::max_value().widening_pred());
}

#[test]
fn checked_succ() {
    let mut result = Vec::new();
    let mut cursor = Some(NoteNumber::zero());
    while let Some(note_number) = cursor {
        result.push(note_number.to_u8());
        cursor = note_number.checked_succ();
    }

    assert_eq!(128, result.len());
    for (i, value) in result.iter().enumerate() {
        assert_eq!(i, *value as usize);
    }
}

#[test]
fn checked_pred() {
    let mut result = Vec::new();
    let mut cursor = Some(NoteNumber::max_value());
    while let Some(note_number) = cursor {
        result.push(note_number.to_u8());
        cursor = note_number.checked_pred();
    }

    assert_eq!(128, result.len());
    result.reverse();
    for (i, value) in result.iter().enumerate() {
        assert_eq!(i, *value as usize);
    }
}

#[test]
fn widening_add() {
    assert_eq!(0, n(0).widening_add(n(0)));
    assert_eq!(150, n(100).widening_add(n(50)));
}

#[test]
fn widening_sub() {
    assert_eq!(0, n(0).widening_sub(n(0)));
    assert_eq!(50, n(100).widening_sub(n(50)));
    assert_eq!(-50, n(50).widening_sub(n(100)));
}

#[test]
fn checked_add() {
    assert_eq!(Some(n(0)), n(0).checked_add(n(0)));
    assert_eq!(None, n(100).checked_add(n(50)));
}

#[test]
fn checked_sub() {
    assert_eq!(Some(n(0)), n(0).checked_sub(n(0)));
    assert_eq!(Some(n(50)), n(100).checked_sub(n(50)));
    assert_eq!(None, n(50).checked_sub(n(100)));
}

#[test]
fn all() {
    let mut result = Vec::new();
    for (i, value) in NoteNumber::all().into_iter().enumerate() {
        assert_eq!(i, value.to_u8() as usize);
        result.push(value);
    }
    assert_eq!(128, result.len());
}

#[test]
fn up_to() {
    let mut result = Vec::new();
    for (i, value) in NoteNumber::from_u8_lossy(10)
        .up_to(NoteNumber::from_u8_lossy(15))
        .expect("Must be valid")
        .into_iter()
        .enumerate()
    {
        assert_eq!(i + 10, value.to_u8() as usize);
        result.push(value.to_u8());
    }
    assert_eq!(6, result.len())
}

#[test]
fn up_to_invalid() {
    assert!(NoteNumber::from_u8_lossy(20)
        .up_to(NoteNumber::from_u8_lossy(15))
        .is_none());
}

fn check_u7<U: Debug + PartialEq + U7>() {
    assert_eq!(0, U::zero().to_u8());
    assert_eq!(1, U::one().to_u8());
    assert_eq!(0, U::min_value().to_u8());
    assert_eq!(127, U::max_value().to_u8());
    assert_eq!(128, U::all().len());
    assert_eq!(128, U::max_value().widening_succ());
    assert_eq!(-1, U::min_value().widening_pred());
    assert!(U::max_value().checked_succ().is_none());
    assert_eq!(Some(U::one()), U::zero().checked_succ());
    assert!(U::min_value().checked_pred().is_none());
    assert_eq!(Some(U::zero()), U::one().checked_pred());
    assert_eq!(128, U::max_value().widening_add(U::one()));
    assert_eq!(-1, U::min_value().widening_sub(U::one()));
    assert!(U::max_value().checked_add(U::one()).is_none());
    assert_eq!(Some(U::one()), U::zero().checked_add(U::one()));
    assert!(U::min_value().checked_sub(U::one()).is_none());
    assert_eq!(Some(U::zero()), U::one().checked_sub(U::one()));
    assert_eq!(2, U::zero().up_to(U::one()).expect("Must succeed").len());
}

#[test]
fn u7_trait() {
    check_u7::<NoteNumber>();
    check_u7::<MidiValue>();
    check_u7::<DeviceId>();
    check_u7::<Preset>();
    check_u7::<Checksum>();
    check_u7::<Char7>();
    check_u7::<Msb>();
    check_u7::<Lsb>();
    check_u7::<KeyNumber>();
    check_u7::<ChunkSize>();
}

#[test]
fn u7_try_from_u8() {
    assert_eq!(Ok(n(127)), NoteNumber::try_from_u8(127));
    assert_eq!(Err(TryFromU8Error::OutOfRange(128)), NoteNumber::try_from_u8(128));
    assert_eq!(Err(TryFromU8Error::OutOfRange(255)), NoteNumber::try_from_u8(255));
}

#[test]
fn u7_from_str_errors() {
    assert_eq!(Err(FromStrError::OutOfRange(128)), NoteNumber::from_str("128"));
    assert_eq!(Err(FromStrError::OutOfRange(255)), NoteNumber::from_str("255"));
    assert_eq!(Err(FromStrError::Other(ParseIntError::PosOverflow)), NoteNumber::from_str("256"));
    assert_eq!(Err(FromStrError::Other(ParseIntError::Empty)), NoteNumber::from_str(""));
    assert_eq!(Err(FromStrError::Other(ParseIntError::InvalidDigit)), NoteNumber::from_str("+"));
    assert_eq!(Err(FromStrError::Other(ParseIntError::InvalidDigit)), NoteNumber::from_str(" 1"));
    assert_eq!(Err(FromStrError::Other(ParseIntError::InvalidDigit)), NoteNumber::from_str("-1"));
    assert_eq!(Ok(n(12)), NoteNumber::from_str("+12"));
    assert_eq!(Ok(n(7)), NoteNumber::from_str("007"));
}

#[test]
fn u7_from_u8_lossy_keeps_low_bits() {
    assert_eq!(0, NoteNumber::from_u8_lossy(128).to_u8());
    assert_eq!(127, NoteNumber::from_u8_lossy(255).to_u8());
}

#[test]
fn u7_to_u8_vec() {
    let values = [n(1), n(2), n(127)];
    assert_eq!(vec![1u8, 2, 127], NoteNumber::to_u8_vec(&values));
}
