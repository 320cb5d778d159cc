use vstd::prelude::*;

verus! {

/// Start of a System Exclusive message.
pub const SYSEX: u8 = 0xf0;
/// Universal real time SysEx ID.
pub const UNIVERSAL_REAL_TIME: u8 = 0x7f;
/// Universal non-real time SysEx ID.
pub const UNIVERSAL_NON_REAL_TIME: u8 = 0x7e;
/// Sub-ID 1 of MIDI Tuning messages.
pub const MIDI_TUNING: u8 = 8;
/// Sub-ID 2 of a single note tuning change.
pub const NOTE_CHANGE: u8 = 2;
/// Sub-ID 2 of a bulk tuning dump reply.
pub const BULK_DUMP_REPLY: u8 = 1;
/// How many values of a bulk dump reply the checksum covers.
pub const BULK_DUMP_REPLY_CHECKSUM_COUNT: usize = 405;
/// The values of a bulk dump reply between the SysEx start and end bytes.
pub const BULK_DUMP_REPLY_MESSAGE_SIZE: usize = 406;
/// End of a System Exclusive message.
pub const EOX: u8 = 0xf7;

} // verus!
