//! MIDI Tuning Standard (MTS) messages, Scala tuning and keyboard mapping
//! files, and the 7-bit values they are built from.

pub mod bulk_dump_reply;
pub mod checksum_calculator;
pub mod cli;
pub mod consts;
pub mod error;
pub mod interval;
pub mod key_frequency_mapping;
pub mod kbm_file;
pub mod keyboard_mapping;
pub mod midi_message_builder;
pub mod midi_note;
pub mod mts_entry;
pub mod note_change;
pub mod op;
pub mod outside;
pub mod preset_name;
pub mod read;
pub mod scala_dump;
pub mod scale;
pub mod scl_file;
pub mod send_tuning;
pub mod sysex;
pub mod text;
pub mod u7;
