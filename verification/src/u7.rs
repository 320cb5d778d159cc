use vstd::prelude::*;
use crate::error::{FromStrError, TryFromU8Error};
use crate::text::{chars_of, parse_u8, spec_parse_unsigned};

verus! {

/// A value in `0..=127`, the range of a MIDI data byte.
///
/// Each implementing type stores one such number; the provided methods
/// offer the arithmetic and conversions shared by all of them.
pub trait U7: Sized + Copy {
    /// The number this value stands for.
    spec fn value(self) -> u8;

    /// Every value lies below 128.
    proof fn value_in_range(self)
        ensures
            self.value() < 128,
    ;

    fn to_u8(self) -> (r: u8)
        ensures
            r == self.value(),
            r < 128,
    ;

    /// Keeps the low seven bits of `v`.
    fn from_u8_lossy(v: u8) -> (r: Self)
        ensures
            r.value() == v % 128,
    ;

    fn zero() -> (r: Self)
        ensures
            r.value() == 0,
    {
        Self::from_u8_lossy(0)
    }

    fn one() -> (r: Self)
        ensures
            r.value() == 1,
    {
        Self::from_u8_lossy(1)
    }

    fn min_value() -> (r: Self)
        ensures
            r.value() == 0,
    {
        Self::from_u8_lossy(0)
    }

    fn max_value() -> (r: Self)
        ensures
            r.value() == 127,
    {
        Self::from_u8_lossy(127)
    }

    /// The value `N`, which must fit in seven bits.
    fn constant<const N: u8>() -> (r: Self)
        requires
            N < 128,
        ensures
            r.value() == N,
    {
        Self::from_u8_lossy(N)
    }

    fn try_from_u8(v: u8) -> (r: Result<Self, TryFromU8Error>)
        ensures
            v < 128 ==> (r matches Ok(x) && x.value() == v),
            v >= 128 ==> r == Err::<Self, TryFromU8Error>(TryFromU8Error::OutOfRange(v)),
    {
        if v > 127 {
            Err(TryFromU8Error::OutOfRange(v))
        } else {
            Ok(Self::from_u8_lossy(v))
        }
    }

    /// Reads a value written in decimal, as `u8`'s `from_str` does, then
    /// rejects numbers above 127.
    fn from_decimal_str(s: &str) -> (r: Result<Self, FromStrError>)
        ensures
            match spec_parse_unsigned(s@, 255) {
                Err(e) => r == Err::<Self, FromStrError>(FromStrError::Other(e)),
                Ok(n) => if n < 128 {
                    (r matches Ok(x) && x.value() == n)
                } else {
                    r == Err::<Self, FromStrError>(FromStrError::OutOfRange(n as u8))
                },
            },
    {
        let chars = chars_of(s);
        match parse_u8(chars.as_slice()) {
            Err(e) => Err(FromStrError::Other(e)),
            Ok(n) => {
                if n > 127 {
                    Err(FromStrError::OutOfRange(n))
                } else {
                    Ok(Self::from_u8_lossy(n))
                }
            },
        }
    }

    fn is_min(&self) -> (r: bool)
        ensures
            r == (self.value() == 0),
    {
        self.to_u8() == 0
    }

    fn is_max(&self) -> (r: bool)
        ensures
            r == (self.value() == 127),
    {
        self.to_u8() == 127
    }

    fn widening_succ(self) -> (r: u8)
        ensures
            r == self.value() + 1,
    {
        self.to_u8() + 1
    }

    fn widening_pred(self) -> (r: i8)
        ensures
            r == self.value() - 1,
    {
        self.to_u8() as i8 - 1
    }

    fn checked_succ(self) -> (r: Option<Self>)
        ensures
            r is Some <==> self.value() < 127,
            r matches Some(x) ==> x.value() == self.value() + 1,
    {
        let v = self.to_u8();
        if v >= 127 {
            None
        } else {
            Some(Self::from_u8_lossy(v + 1))
        }
    }

    fn checked_pred(self) -> (r: Option<Self>)
        ensures
            r is Some <==> self.value() > 0,
            r matches Some(x) ==> x.value() == self.value() - 1,
    {
        let v = self.to_u8();
        if v > 0 {
            Some(Self::from_u8_lossy(v - 1))
        } else {
            None
        }
    }

    fn widening_add(self, rhs: Self) -> (r: u8)
        ensures
            r == self.value() + rhs.value(),
    {
        self.to_u8() + rhs.to_u8()
    }

    fn widening_sub(self, rhs: Self) -> (r: i8)
        ensures
            r == self.value() - rhs.value(),
    {
        self.to_u8() as i8 - rhs.to_u8() as i8
    }

    fn checked_add(self, rhs: Self) -> (r: Option<Self>)
        ensures
            r is Some <==> self.value() + rhs.value() < 128,
            r matches Some(x) ==> x.value() == self.value() + rhs.value(),
    {
        let sum = self.to_u8() + rhs.to_u8();
        if sum > 127 {
            None
        } else {
            Some(Self::from_u8_lossy(sum))
        }
    }

    fn checked_sub(self, rhs: Self) -> (r: Option<Self>)
        ensures
            r is Some <==> self.value() >= rhs.value(),
            r matches Some(x) ==> x.value() == self.value() - rhs.value(),
    {
        let a = self.to_u8();
        let b = rhs.to_u8();
        if a >= b {
            Some(Self::from_u8_lossy(a - b))
        } else {
            None
        }
    }

    /// All 128 values in ascending order.
    fn all() -> (r: Vec<Self>)
        ensures
            r.len() == 128,
            forall|i: int| 0 <= i < 128 ==> (#[trigger] r[i]).value() == i,
    {
        let mut r: Vec<Self> = Vec::new();
        let mut i: u8 = 0;
        while i < 128
            invariant
                i <= 128,
                r.len() == i,
                forall|j: int| 0 <= j < i ==> (#[trigger] r[j]).value() == j,
            decreases 128 - i,
        {
            r.push(Self::from_u8_lossy(i));
            i = i + 1;
        }
        r
    }

    /// The values from `self` to `end`, both included, or `None` when `end`
    /// comes before `self`.
    fn up_to(self, end: Self) -> (r: Option<Vec<Self>>)
        ensures
            r is Some <==> self.value() <= end.value(),
            r matches Some(v) ==> (v.len() == end.value() - self.value() + 1 && forall|i: int|
                0 <= i < v.len() ==> (#[trigger] v[i]).value() == self.value() + i),
    {
        let start = self.to_u8();
        let stop = end.to_u8();
        if stop < start {
            return None;
        }
        let mut r: Vec<Self> = Vec::new();
        let mut i: u8 = start;
        while i <= stop
            invariant
                start <= i <= stop + 1,
                stop < 128,
                r.len() == i - start,
                forall|j: int| 0 <= j < r.len() ==> (#[trigger] r[j]).value() == start + j,
            decreases stop + 1 - i,
        {
            r.push(Self::from_u8_lossy(i));
            i = i + 1;
        }
        Some(r)
    }

    /// The numbers the values stand for, in order.
    fn to_u8_vec(values: &[Self]) -> (r: Vec<u8>)
        ensures
            r@ == values@.map_values(|x: Self| x.value()),
    {
        let mut r: Vec<u8> = Vec::new();
        let mut i: usize = 0;
        while i < values.len()
            invariant
                i <= values.len(),
                r@ == values@.take(i as int).map_values(|x: Self| x.value()),
            decreases values.len() - i,
        {
            r.push(values[i].to_u8());
            i = i + 1;
            assert(values@.take(i as int).drop_last() == values@.take(i - 1));
        }
        assert(values@.take(values.len() as int) == values@);
        r
    }
}

/// A data byte of a MIDI message.
#[derive(Clone, Copy, Debug, PartialEq, Eq, Structural)]
pub struct MidiValue(u8);

impl MidiValue {
    #[verifier::type_invariant]
    spec fn inv(self) -> bool {
        self.0 < 128
    }
}

impl U7 for MidiValue {
    closed spec fn value(self) -> u8 {
        (self.0 % 128) as u8
    }

    proof fn value_in_range(self) {
    }

    fn to_u8(self) -> (r: u8) {
        proof {
            use_type_invariant(&self);
        }
        self.0
    }

    fn from_u8_lossy(v: u8) -> (r: Self) {
        MidiValue(v % 128)
    }
}

impl std::str::FromStr for MidiValue {
    type Err = FromStrError;

    /// Reads a value written in decimal, as `u8`'s `from_str` does, then
    /// rejects numbers above 127.
    fn from_str(s: &str) -> (r: Result<Self, FromStrError>)
        ensures
            match spec_parse_unsigned(s@, 255) {
                Err(e) => r == Err::<Self, FromStrError>(FromStrError::Other(e)),
                Ok(n) => if n < 128 {
                    (r matches Ok(x) && x.value() == n)
                } else {
                    r == Err::<Self, FromStrError>(FromStrError::OutOfRange(n as u8))
                },
            },
    {
        <MidiValue as U7>::from_decimal_str(s)
    }
}

/// The device ID of a System Exclusive message.
#[derive(Clone, Copy, Debug, PartialEq, Eq, Structural)]
pub struct DeviceId(u8);

impl DeviceId {
    #[verifier::type_invariant]
    spec fn inv(self) -> bool {
        self.0 < 128
    }
}

impl U7 for DeviceId {
    closed spec fn value(self) -> u8 {
        (self.0 % 128) as u8
    }

    proof fn value_in_range(self) {
    }

    fn to_u8(self) -> (r: u8) {
        proof {
            use_type_invariant(&self);
        }
        self.0
    }

    fn from_u8_lossy(v: u8) -> (r: Self) {
        DeviceId(v % 128)
    }
}

impl std::str::FromStr for DeviceId {
    type Err = FromStrError;

    /// Reads a value written in decimal, as `u8`'s `from_str` does, then
    /// rejects numbers above 127.
    fn from_str(s: &str) -> (r: Result<Self, FromStrError>)
        ensures
            match spec_parse_unsigned(s@, 255) {
                Err(e) => r == Err::<Self, FromStrError>(FromStrError::Other(e)),
                Ok(n) => if n < 128 {
                    (r matches Ok(x) && x.value() == n)
                } else {
                    r == Err::<Self, FromStrError>(FromStrError::OutOfRange(n as u8))
                },
            },
    {
        <DeviceId as U7>::from_decimal_str(s)
    }
}

/// A tuning program (preset) number.
#[derive(Clone, Copy, Debug, PartialEq, Eq, Structural)]
pub struct Preset(u8);

impl Preset {
    #[verifier::type_invariant]
    spec fn inv(self) -> bool {
        self.0 < 128
    }
}

impl U7 for Preset {
    closed spec fn value(self) -> u8 {
        (self.0 % 128) as u8
    }

    proof fn value_in_range(self) {
    }

    fn to_u8(self) -> (r: u8) {
        proof {
            use_type_invariant(&self);
        }
        self.0
    }

    fn from_u8_lossy(v: u8) -> (r: Self) {
        Preset(v % 128)
    }
}

impl std::str::FromStr for Preset {
    type Err = FromStrError;

    /// Reads a value written in decimal, as `u8`'s `from_str` does, then
    /// rejects numbers above 127.
    fn from_str(s: &str) -> (r: Result<Self, FromStrError>)
        ensures
            match spec_parse_unsigned(s@, 255) {
                Err(e) => r == Err::<Self, FromStrError>(FromStrError::Other(e)),
                Ok(n) => if n < 128 {
                    (r matches Ok(x) && x.value() == n)
                } else {
                    r == Err::<Self, FromStrError>(FromStrError::OutOfRange(n as u8))
                },
            },
    {
        <Preset as U7>::from_decimal_str(s)
    }
}

/// The checksum byte of a bulk dump reply.
#[derive(Clone, Copy, Debug, PartialEq, Eq, Structural)]
pub struct Checksum(u8);

impl Checksum {
    #[verifier::type_invariant]
    spec fn inv(self) -> bool {
        self.0 < 128
    }
}

impl U7 for Checksum {
    closed spec fn value(self) -> u8 {
        (self.0 % 128) as u8
    }

    proof fn value_in_range(self) {
    }

    fn to_u8(self) -> (r: u8) {
        proof {
            use_type_invariant(&self);
        }
        self.0
    }

    fn from_u8_lossy(v: u8) -> (r: Self) {
        Checksum(v % 128)
    }
}

impl std::str::FromStr for Checksum {
    type Err = FromStrError;

    /// Reads a value written in decimal, as `u8`'s `from_str` does, then
    /// rejects numbers above 127.
    fn from_str(s: &str) -> (r: Result<Self, FromStrError>)
        ensures
            match spec_parse_unsigned(s@, 255) {
                Err(e) => r == Err::<Self, FromStrError>(FromStrError::Other(e)),
                Ok(n) => if n < 128 {
                    (r matches Ok(x) && x.value() == n)
                } else {
                    r == Err::<Self, FromStrError>(FromStrError::OutOfRange(n as u8))
                },
            },
    {
        <Checksum as U7>::from_decimal_str(s)
    }
}

/// A seven-bit ASCII character.
#[derive(Clone, Copy, Debug, PartialEq, Eq, Structural)]
pub struct Char7(u8);

impl Char7 {
    #[verifier::type_invariant]
    spec fn inv(self) -> bool {
        self.0 < 128
    }
}

impl U7 for Char7 {
    closed spec fn value(self) -> u8 {
        (self.0 % 128) as u8
    }

    proof fn value_in_range(self) {
    }

    fn to_u8(self) -> (r: u8) {
        proof {
            use_type_invariant(&self);
        }
        self.0
    }

    fn from_u8_lossy(v: u8) -> (r: Self) {
        Char7(v % 128)
    }
}

impl std::str::FromStr for Char7 {
    type Err = FromStrError;

    /// Reads a value written in decimal, as `u8`'s `from_str` does, then
    /// rejects numbers above 127.
    fn from_str(s: &str) -> (r: Result<Self, FromStrError>)
        ensures
            match spec_parse_unsigned(s@, 255) {
                Err(e) => r == Err::<Self, FromStrError>(FromStrError::Other(e)),
                Ok(n) => if n < 128 {
                    (r matches Ok(x) && x.value() == n)
                } else {
                    r == Err::<Self, FromStrError>(FromStrError::OutOfRange(n as u8))
                },
            },
    {
        <Char7 as U7>::from_decimal_str(s)
    }
}

/// The high seven bits of an MTS fraction of a semitone.
#[derive(Clone, Copy, Debug, PartialEq, Eq, Structural)]
pub struct Msb(u8);

impl Msb {
    #[verifier::type_invariant]
    spec fn inv(self) -> bool {
        self.0 < 128
    }
}

impl U7 for Msb {
    closed spec fn value(self) -> u8 {
        (self.0 % 128) as u8
    }

    proof fn value_in_range(self) {
    }

    fn to_u8(self) -> (r: u8) {
        proof {
            use_type_invariant(&self);
        }
        self.0
    }

    fn from_u8_lossy(v: u8) -> (r: Self) {
        Msb(v % 128)
    }
}

impl std::str::FromStr for Msb {
    type Err = FromStrError;

    /// Reads a value written in decimal, as `u8`'s `from_str` does, then
    /// rejects numbers above 127.
    fn from_str(s: &str) -> (r: Result<Self, FromStrError>)
        ensures
            match spec_parse_unsigned(s@, 255) {
                Err(e) => r == Err::<Self, FromStrError>(FromStrError::Other(e)),
                Ok(n) => if n < 128 {
                    (r matches Ok(x) && x.value() == n)
                } else {
                    r == Err::<Self, FromStrError>(FromStrError::OutOfRange(n as u8))
                },
            },
    {
        <Msb as U7>::from_decimal_str(s)
    }
}

/// The low seven bits of an MTS fraction of a semitone.
#[derive(Clone, Copy, Debug, PartialEq, Eq, Structural)]
pub struct Lsb(u8);

impl Lsb {
    #[verifier::type_invariant]
    spec fn inv(self) -> bool {
        self.0 < 128
    }
}

impl U7 for Lsb {
    closed spec fn value(self) -> u8 {
        (self.0 % 128) as u8
    }

    proof fn value_in_range(self) {
    }

    fn to_u8(self) -> (r: u8) {
        proof {
            use_type_invariant(&self);
        }
        self.0
    }

    fn from_u8_lossy(v: u8) -> (r: Self) {
        Lsb(v % 128)
    }
}

impl std::str::FromStr for Lsb {
    type Err = FromStrError;

    /// Reads a value written in decimal, as `u8`'s `from_str` does, then
    /// rejects numbers above 127.
    fn from_str(s: &str) -> (r: Result<Self, FromStrError>)
        ensures
            match spec_parse_unsigned(s@, 255) {
                Err(e) => r == Err::<Self, FromStrError>(FromStrError::Other(e)),
                Ok(n) => if n < 128 {
                    (r matches Ok(x) && x.value() == n)
                } else {
                    r == Err::<Self, FromStrError>(FromStrError::OutOfRange(n as u8))
                },
            },
    {
        <Lsb as U7>::from_decimal_str(s)
    }
}

/// A MIDI key number.
#[derive(Clone, Copy, Debug, PartialEq, Eq, Structural)]
pub struct KeyNumber(u8);

impl KeyNumber {
    #[verifier::type_invariant]
    spec fn inv(self) -> bool {
        self.0 < 128
    }
}

impl U7 for KeyNumber {
    closed spec fn value(self) -> u8 {
        (self.0 % 128) as u8
    }

    proof fn value_in_range(self) {
    }

    fn to_u8(self) -> (r: u8) {
        proof {
            use_type_invariant(&self);
        }
        self.0
    }

    fn from_u8_lossy(v: u8) -> (r: Self) {
        KeyNumber(v % 128)
    }
}

impl std::str::FromStr for KeyNumber {
    type Err = FromStrError;

    /// Reads a value written in decimal, as `u8`'s `from_str` does, then
    /// rejects numbers above 127.
    fn from_str(s: &str) -> (r: Result<Self, FromStrError>)
        ensures
            match spec_parse_unsigned(s@, 255) {
                Err(e) => r == Err::<Self, FromStrError>(FromStrError::Other(e)),
                Ok(n) => if n < 128 {
                    (r matches Ok(x) && x.value() == n)
                } else {
                    r == Err::<Self, FromStrError>(FromStrError::OutOfRange(n as u8))
                },
            },
    {
        <KeyNumber as U7>::from_decimal_str(s)
    }
}

/// A MIDI note number.
#[derive(Clone, Copy, Debug, PartialEq, Eq, Structural)]
pub struct NoteNumber(u8);

impl NoteNumber {
    #[verifier::type_invariant]
    spec fn inv(self) -> bool {
        self.0 < 128
    }
}

impl U7 for NoteNumber {
    closed spec fn value(self) -> u8 {
        (self.0 % 128) as u8
    }

    proof fn value_in_range(self) {
    }

    fn to_u8(self) -> (r: u8) {
        proof {
            use_type_invariant(&self);
        }
        self.0
    }

    fn from_u8_lossy(v: u8) -> (r: Self) {
        NoteNumber(v % 128)
    }
}

impl std::str::FromStr for NoteNumber {
    type Err = FromStrError;

    /// Reads a value written in decimal, as `u8`'s `from_str` does, then
    /// rejects numbers above 127.
    fn from_str(s: &str) -> (r: Result<Self, FromStrError>)
        ensures
            match spec_parse_unsigned(s@, 255) {
                Err(e) => r == Err::<Self, FromStrError>(FromStrError::Other(e)),
                Ok(n) => if n < 128 {
                    (r matches Ok(x) && x.value() == n)
                } else {
                    r == Err::<Self, FromStrError>(FromStrError::OutOfRange(n as u8))
                },
            },
    {
        <NoteNumber as U7>::from_decimal_str(s)
    }
}

/// How many note changes go into one message.
#[derive(Clone, Copy, Debug, PartialEq, Eq, Structural)]
pub struct ChunkSize(u8);

impl ChunkSize {
    #[verifier::type_invariant]
    spec fn inv(self) -> bool {
        self.0 < 128
    }
}

impl U7 for ChunkSize {
    closed spec fn value(self) -> u8 {
        (self.0 % 128) as u8
    }

    proof fn value_in_range(self) {
    }

    fn to_u8(self) -> (r: u8) {
        proof {
            use_type_invariant(&self);
        }
        self.0
    }

    fn from_u8_lossy(v: u8) -> (r: Self) {
        ChunkSize(v % 128)
    }
}

impl std::str::FromStr for ChunkSize {
    type Err = FromStrError;

    /// Reads a value written in decimal, as `u8`'s `from_str` does, then
    /// rejects numbers above 127.
    fn from_str(s: &str) -> (r: Result<Self, FromStrError>)
        ensures
            match spec_parse_unsigned(s@, 255) {
                Err(e) => r == Err::<Self, FromStrError>(FromStrError::Other(e)),
                Ok(n) => if n < 128 {
                    (r matches Ok(x) && x.value() == n)
                } else {
                    r == Err::<Self, FromStrError>(FromStrError::OutOfRange(n as u8))
                },
            },
    {
        <ChunkSize as U7>::from_decimal_str(s)
    }
}

} // verus!
