use vstd::prelude::*;

verus! {

/// Why a decimal integer could not be read from text.
#[derive(Clone, Copy, Debug, PartialEq, Eq, Structural)]
pub enum ParseIntError {
    /// The text was empty.
    Empty,
    /// A character other than a decimal digit was found (a lone sign counts).
    InvalidDigit,
    /// The number is larger than the target type can hold.
    PosOverflow,
}

/// A byte that does not fit in seven bits.
#[derive(Clone, Copy, Debug, PartialEq, Eq, Structural)]
pub enum TryFromU8Error {
    OutOfRange(u8),
}

/// Text that does not denote a seven-bit value.
#[derive(Clone, Copy, Debug, PartialEq, Eq, Structural)]
pub enum FromStrError {
    OutOfRange(u8),
    Other(ParseIntError),
}

/// The ways reading or building tuning data can fail.
#[derive(Clone, Copy, Debug, PartialEq, Eq, Structural)]
pub enum Error {
    /// The input ended before a byte could be read.
    ReadFailed,
    /// A byte that should be a seven-bit value is 128 or more.
    OutOfRange(u8),
    /// A SysEx message does not start with the expected header.
    UnsupportedHeader,
    /// The sub-ID of a SysEx message is not "MIDI Tuning".
    ExpectedMidiTuning,
    /// The tuning message is not a bulk dump reply.
    ExpectedBulkDumpReply,
    /// The end of exclusive byte is missing.
    EoxNotFound,
    /// The checksum byte does not match the message.
    ChecksumValidationFailed,
    /// A message does not have the length its kind requires.
    UnexpectedMessageLength,
    /// More than 127 note changes were given for one message.
    TooManyNoteChanges,
    /// A preset name holds a character outside ASCII.
    PresetNameNotAscii,
    /// A preset name is longer than sixteen characters.
    InvalidPresetName,
    /// The last key of a keyboard mapping comes before its first key.
    InvalidEndKey,
    /// A file ended before all its fields were read.
    StreamExhausted,
    /// A keyboard mapping file gives more than 127 mapping entries.
    InvalidSize,
    /// A keyboard mapping file holds more lines than its fields.
    InvalidKbmFile,
    /// A number could not be read.
    ParseInt(ParseIntError),
    /// An interval line holds no interval.
    InvalidInterval,
    /// An interval in cents is not a decimal number.
    InvalidCents,
    /// An interval ratio is not a fraction of integers with nonzero denominator.
    InvalidRatio,
    /// A scale must have at least one interval.
    EmptyScale,
    /// A tuning file holds no lines.
    InvalidTuningString,
    /// A tuning file has no description line.
    NoDescription,
    /// A tuning file has no line giving its number of notes.
    NoIntervalCount,
    /// A tuning file lists another number of notes than it announces.
    IncorrectNumberOfNotes,
    /// A keyboard mapping names a degree the scale does not have.
    DegreeNotInScale(usize),
    /// The reference key of a keyboard mapping plays no degree.
    ReferenceKeyNotMapped,
    /// A line of a Scala tuning dump has no key.
    DumpKeyNotFound,
    /// A line of a Scala tuning dump starts with no key number.
    DumpInvalidKey,
    /// A line of a Scala tuning dump names a key below that of the line before.
    DumpUnexpectedKey(u8),
    /// A line of a Scala tuning dump has no frequency.
    DumpFrequencyNotFound,
    /// A frequency is not a number.
    InvalidFrequency,
}

} // verus!
