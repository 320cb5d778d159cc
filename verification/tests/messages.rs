use tuning_tool::bulk_dump_reply::BulkDumpReply;
use tuning_tool::checksum_calculator::ChecksumCalculator;
use tuning_tool::consts::BULK_DUMP_REPLY_MESSAGE_SIZE;
use tuning_tool::error::Error;
use tuning_tool::midi_message_builder::MidiMessageBuilder;
use tuning_tool::mts_entry::MtsEntry;
use tuning_tool::note_change::{NoteChange, NoteChangeEntry};
use tuning_tool::preset_name::PresetName;
use tuning_tool::read::{read, read_multi, read_u8};
use tuning_tool::send_tuning::{make_messages, save_tunings_message};
use tuning_tool::u7::{
    Char7, Checksum, ChunkSize, DeviceId, KeyNumber, Lsb, MidiValue, Msb, NoteNumber, Preset, U7,
};

fn entry(n: u8, m: u8, l: u8) -> MtsEntry {
    MtsEntry {
        note_number: NoteNumber::from_u8_lossy(n),
        msb: Msb::from_u8_lossy(m),
        lsb: Lsb::from_u8_lossy(l),
    }
}

fn sample_reply() -> BulkDumpReply {
    let entries = (0..128u8).map(|i| entry(i, i, 127 - i)).collect::<Vec<_>>();
    BulkDumpReply::new(
        DeviceId::max_value(),
        Preset::constant::<8>(),
        PresetName::from_str("carlos_super").expect("Must succeed"),
        entries,
    )
    .expect("Must succeed")
}

#[test]
fn bulk_dump_reply_basics() {
    let bytes = sample_reply().to_bytes_with_start_and_end().expect("Must succeed");
    assert_eq!(BULK_DUMP_REPLY_MESSAGE_SIZE + 2, bytes.len());
    let reply = BulkDumpReply::from_bytes(&bytes).expect("Must succeed");
    let output = reply.to_bytes_with_start_and_end().expect("Must succeed");
    assert_eq!(BULK_DUMP_REPLY_MESSAGE_SIZE + 2, output.len());
    assert_eq!(bytes, output);
}

#[test]
fn bulk_dump_reply_layout() {
    let bytes = sample_reply().to_bytes_with_start_and_end().expect("Must succeed");
    assert_eq!(&[0xf0, 0x7e, 0x7f, 0x08, 0x01, 0x08], &bytes[0..6]);
    assert_eq!(b"carlos_super\0\0\0\0", &bytes[6..22]);
    assert_eq!(&[0, 0, 127], &bytes[22..25]);
    assert_eq!(&[127, 127, 0], &bytes[403..406]);
    let checksum = bytes[1..406].iter().fold(0x7fu8, |a, b| a ^ b) & 0x7f;
    assert_eq!(checksum, bytes[406]);
    assert_eq!(0xf7, bytes[407]);
}

#[test]
fn bulk_dump_reply_fields() {
    let bytes = sample_reply().to_bytes_with_start_and_end().expect("Must succeed");
    let reply = BulkDumpReply::from_bytes(&bytes).expect("Must succeed");
    assert_eq!(127, reply.device_id().to_u8());
    assert_eq!(8, reply.preset().to_u8());
    let name = Char7::to_u8_vec(reply.name().as_array());
    assert_eq!(b"carlos_super\0\0\0\0".to_vec(), name);
    assert_eq!(128, reply.entries().len());
    assert_eq!(entry(5, 5, 122), reply.entries()[5]);
}

#[test]
fn bulk_dump_reply_ignores_trailing_bytes() {
    let mut bytes = sample_reply().to_bytes_with_start_and_end().expect("Must succeed");
    let expected = bytes.clone();
    bytes.extend_from_slice(&[1, 2, 3]);
    let reply = BulkDumpReply::from_bytes(&bytes).expect("Must succeed");
    assert_eq!(expected, reply.to_bytes_with_start_and_end().expect("Must succeed"));
}

#[test]
fn bulk_dump_reply_errors() {
    let good = sample_reply().to_bytes_with_start_and_end().expect("Must succeed");
    assert_eq!(Some(Error::ReadFailed), BulkDumpReply::from_bytes(&[]).err());

    let mut b = good.clone();
    b[0] = 0xf1;
    assert_eq!(Some(Error::UnsupportedHeader), BulkDumpReply::from_bytes(&b).err());

    let mut b = good.clone();
    b[1] = 0x7d;
    assert_eq!(Some(Error::UnsupportedHeader), BulkDumpReply::from_bytes(&b).err());

    let mut b = good.clone();
    b[2] = 0x80;
    assert_eq!(Some(Error::OutOfRange(0x80)), BulkDumpReply::from_bytes(&b).err());

    let mut b = good.clone();
    b[3] = 0x09;
    assert_eq!(Some(Error::ExpectedMidiTuning), BulkDumpReply::from_bytes(&b).err());

    let mut b = good.clone();
    b[4] = 0x02;
    assert_eq!(Some(Error::ExpectedBulkDumpReply), BulkDumpReply::from_bytes(&b).err());

    let mut b = good.clone();
    b[100] = 0x90;
    assert_eq!(Some(Error::OutOfRange(0x90)), BulkDumpReply::from_bytes(&b).err());

    let b = good[..407].to_vec();
    assert_eq!(Some(Error::ReadFailed), BulkDumpReply::from_bytes(&b).err());

    let mut b = good.clone();
    b[407] = 0;
    assert_eq!(Some(Error::EoxNotFound), BulkDumpReply::from_bytes(&b).err());

    let mut b = good.clone();
    b[406] ^= 1;
    assert_eq!(Some(Error::ChecksumValidationFailed), BulkDumpReply::from_bytes(&b).err());
}

#[test]
fn preset_name_errors() {
    assert_eq!(Some(Error::PresetNameNotAscii), PresetName::from_str("é").err());
    assert_eq!(Some(Error::InvalidPresetName), PresetName::from_str("seventeen chars!!").err());
    let name = PresetName::from_str("sixteen chars!!!").expect("Must succeed");
    assert_eq!(b"sixteen chars!!!".to_vec(), Char7::to_u8_vec(name.as_array()));
}

#[test]
fn preset_name_new() {
    let chars = (0..16u8).map(|i| Char7::from_u8_lossy(65 + i)).collect::<Vec<_>>();
    let name = PresetName::new(chars);
    assert_eq!(b"ABCDEFGHIJKLMNOP".to_vec(), Char7::to_u8_vec(name.as_array()));
}

#[test]
fn checksum_calculator_basics() {
    let mut calc = ChecksumCalculator::new();
    assert_eq!(5, calc.update(MidiValue::from_u8_lossy(5)).to_u8());
    let values = [MidiValue::from_u8_lossy(3), MidiValue::from_u8_lossy(0x7f)];
    assert_eq!(2, calc.update_from_slice(&values).len());
    let expected = (0x7f ^ 5 ^ 3 ^ 0x7f) & 0x7f;
    let checksum = calc.finalize(Some(3)).expect("Must succeed");
    assert_eq!(expected, checksum.to_u8());

    let mut calc = ChecksumCalculator::new();
    calc.update(MidiValue::from_u8_lossy(5));
    assert_eq!(Ok(()), calc.verify(Checksum::from_u8_lossy(0x7f ^ 5), None));

    let mut calc = ChecksumCalculator::new();
    calc.update(MidiValue::from_u8_lossy(5));
    assert_eq!(
        Err(Error::ChecksumValidationFailed),
        calc.verify(Checksum::from_u8_lossy(4), Some(1))
    );
}

#[test]
fn midi_message_builder_basics() {
    let mut builder = MidiMessageBuilder::with_required_len(3);
    builder.push(MidiValue::from_u8_lossy(1));
    builder.extend_from_slice(&[MidiValue::from_u8_lossy(2), MidiValue::from_u8_lossy(3)]);
    let values = builder.finalize().expect("Must succeed");
    assert_eq!(vec![1u8, 2, 3], MidiValue::to_u8_vec(&values));

    let mut builder = MidiMessageBuilder::with_required_len(3);
    builder.push(MidiValue::from_u8_lossy(1));
    assert_eq!(Some(Error::UnexpectedMessageLength), builder.finalize().err());
}

#[test]
fn read_basics() {
    let bytes = [1u8, 2, 0x80, 4];
    let mut pos = 0usize;
    assert_eq!(Ok(1), read_u8(&bytes, &mut pos));
    let value: KeyNumber = read(&bytes, &mut pos).expect("Must succeed");
    assert_eq!(2, value.to_u8());
    assert_eq!(Some(Error::OutOfRange(0x80)), read::<KeyNumber>(&bytes, &mut pos).err());

    let mut pos = 0usize;
    let values: Vec<MidiValue> = read_multi(&bytes, &mut pos, 2).expect("Must succeed");
    assert_eq!(vec![1u8, 2], MidiValue::to_u8_vec(&values));
    assert_eq!(2, pos);

    let mut pos = 3usize;
    assert_eq!(Ok(4), read_u8(&bytes, &mut pos));
    assert_eq!(Err(Error::ReadFailed), read_u8(&bytes, &mut pos));
}

fn note_change_entries(n: usize) -> Vec<NoteChangeEntry> {
    (0..n)
        .map(|i| NoteChangeEntry {
            key_number: KeyNumber::from_u8_lossy(i as u8),
            mts: entry(i as u8, 1, 2),
        })
        .collect()
}

#[test]
fn note_change_header() {
    let entries = note_change_entries(2);
    let note_change =
        NoteChange::new(DeviceId::max_value(), Preset::zero(), &entries).expect("Must succeed");
    assert_eq!(127, note_change.device_id().to_u8());
    assert_eq!(0, note_change.preset().to_u8());
    assert_eq!(2, note_change.entries().len());
    let values = MidiValue::to_u8_vec(&note_change.to_vec().expect("Must succeed"));
    assert_eq!(
        vec![0x7fu8, 0x7f, 0x08, 0x02, 0x00, 0x02, 0, 0, 1, 2, 1, 1, 1, 2],
        values
    );
}

#[test]
fn note_change_too_many() {
    let entries = note_change_entries(128);
    assert_eq!(
        Some(Error::TooManyNoteChanges),
        NoteChange::new(DeviceId::max_value(), Preset::zero(), &entries).err()
    );
}

#[test]
fn send_tuning_chunks() {
    let entries = note_change_entries(5);
    let messages = make_messages(
        DeviceId::max_value(),
        Preset::zero(),
        &entries,
        ChunkSize::from_u8_lossy(2),
    )
    .expect("Must succeed");
    assert_eq!(3, messages.len());
    assert_eq!(
        vec![0xf0u8, 0x7f, 0x7f, 0x08, 0x02, 0x00, 0x02, 0, 0, 1, 2, 1, 1, 1, 2, 0xf7],
        messages[0]
    );
    assert_eq!(
        vec![0xf0u8, 0x7f, 0x7f, 0x08, 0x02, 0x00, 0x01, 4, 4, 1, 2, 0xf7],
        messages[2]
    );
    let keys = messages
        .iter()
        .flat_map(|m| m[7..m.len() - 1].chunks(4).map(|c| c[0]).collect::<Vec<_>>())
        .collect::<Vec<_>>();
    assert_eq!(vec![0u8, 1, 2, 3, 4], keys);
}

#[test]
fn send_tuning_no_entries() {
    let messages =
        make_messages(DeviceId::max_value(), Preset::zero(), &[], ChunkSize::from_u8_lossy(5))
            .expect("Must succeed");
    assert!(messages.is_empty());
}

#[test]
fn save_tunings_message_bytes() {
    assert_eq!(
        vec![0xf0u8, 0x00, 0x20, 0x29, 0x00, 0x33, 0x00, 0x48, 0xf7],
        save_tunings_message()
    );
}

#[test]
fn mts_entry_fixed_point() {
    assert_eq!(69 * 16384, entry(69, 0, 0).to_fixed_point_semitones());
    assert_eq!(69 * 16384 + 10 * 128 + 6, entry(69, 10, 6).to_fixed_point_semitones());
    assert_eq!(127 * 16384 + 127 * 128 + 126, entry(127, 127, 127).to_fixed_point_semitones());
}

#[test]
fn mts_entry_from_fixed_point() {
    assert_eq!(entry(69, 10, 6), MtsEntry::from_fixed_point_semitones(69 * 16384 + 10 * 128 + 6));
    assert_eq!(entry(68, 127, 127), MtsEntry::from_fixed_point_semitones(69 * 16384 - 1));
    assert_eq!(entry(0, 0, 0), MtsEntry::from_fixed_point_semitones(0));
    assert_eq!(entry(127, 127, 126), MtsEntry::from_fixed_point_semitones(128 * 16384));
    assert_eq!(entry(127, 127, 126), MtsEntry::from_fixed_point_semitones(u32::MAX));
}

#[test]
fn mts_entry_round_trip() {
    for (n, m, l) in [(0, 0, 0), (69, 10, 6), (127, 127, 127), (127, 5, 127), (126, 127, 127)] {
        let e = entry(n, m, l);
        let back = MtsEntry::from_fixed_point_semitones(e.to_fixed_point_semitones());
        if n == 127 && l == 127 {
            assert_eq!(entry(127, m, 126), back);
        } else {
            assert_eq!(e, back);
        }
    }
}

#[test]
fn note_change_entries_by_position() {
    let mts = vec![entry(60, 0, 0), entry(62, 1, 1)];
    let entries = tuning_tool::send_tuning::make_note_change_entries(&mts).expect("Must succeed");
    assert_eq!(2, entries.len());
    assert_eq!(0, entries[0].key_number.to_u8());
    assert_eq!(1, entries[1].key_number.to_u8());
    assert_eq!(entry(62, 1, 1), entries[1].mts);
    let too_many = vec![entry(0, 0, 0); 129];
    assert_eq!(
        Some(Error::OutOfRange(128)),
        tuning_tool::send_tuning::make_note_change_entries(&too_many).err()
    );
}

const EXPECTED_MESSAGE_HEX_DUMPS: [&str; 2] = [
    "F0 7F 00 08 02 08 40 00 00 00 00 01 01 06 2C 02 02 05 01 03 03 14 03 04 03 6E 3E 05 04 7D 40 06 05 41 58 07 07 02 40 08 08 33 70 09 08 6B 7D 0A 09 58 0C 0B 0A 70 7E 0C 0C 00 00 0D 0D 06 2C 0E 0E 05 01 0F 0F 14 03 10 0F 6E 3E 11 10 7D 40 12 11 41 58 13 13 02 40 14 14 33 70 15 14 6B 7D 16 15 58 0C 17 16 70 7E 18 18 00 00 19 19 06 2C 1A 1A 05 01 1B 1B 14 03 1C 1B 6E 3E 1D 1C 7D 40 1E 1D 41 58 1F 1F 02 40 20 20 33 70 21 20 6B 7D 22 21 58 0C 23 22 70 7E 24 24 00 00 25 25 06 2C 26 26 05 01 27 27 14 03 28 27 6E 3E 29 28 7D 40 2A 29 41 58 2B 2B 02 40 2C 2C 33 70 2D 2C 6B 7D 2E 2D 58 0C 2F 2E 70 7E 30 30 00 00 31 31 06 2C 32 32 05 01 33 33 14 03 34 33 6E 3E 35 34 7D 40 36 35 41 58 37 37 02 40 38 38 33 70 39 38 6B 7D 3A 39 58 0C 3B 3A 70 7E 3C 3C 00 00 3D 3D 06 2C 3E 3E 05 01 3F 3F 14 03 F7",
    "F0 7F 00 08 02 08 40 40 3F 6E 3E 41 40 7D 40 42 41 41 58 43 43 02 40 44 44 33 70 45 44 6B 7D 46 45 58 0C 47 46 70 7E 48 48 00 00 49 49 06 2C 4A 4A 05 01 4B 4B 14 03 4C 4B 6E 3E 4D 4C 7D 40 4E 4D 41 58 4F 4F 02 40 50 50 33 70 51 50 6B 7D 52 51 58 0C 53 52 70 7E 54 54 00 00 55 55 06 2C 56 56 05 01 57 57 14 03 58 57 6E 3E 59 58 7D 40 5A 59 41 58 5B 5B 02 40 5C 5C 33 70 5D 5C 6B 7D 5E 5D 58 0C 5F 5E 70 7E 60 60 00 00 61 61 06 2C 62 62 05 01 63 63 14 03 64 63 6E 3E 65 64 7D 40 66 65 41 58 67 67 02 40 68 68 33 70 69 68 6B 7D 6A 69 58 0C 6B 6A 70 7E 6C 6C 00 00 6D 6D 06 2C 6E 6E 05 01 6F 6F 14 03 70 6F 6E 3E 71 70 7D 40 72 71 41 58 73 73 02 40 74 74 33 70 75 74 6B 7D 76 75 58 0C 77 76 70 7E 78 78 00 00 79 79 06 2C 7A 7A 05 01 7B 7B 14 03 7C 7B 6E 3E 7D 7C 7D 40 7E 7D 41 58 7F 7F 02 40 F7",
];

fn from_hex_dump(s: &str) -> Vec<u8> {
    s.split_whitespace()
        .map(|b| u8::from_str_radix(b, 16).expect("Must be hex"))
        .collect()
}

#[test]
fn note_change_basics() {
    let expected = EXPECTED_MESSAGE_HEX_DUMPS
        .iter()
        .map(|s| from_hex_dump(s))
        .collect::<Vec<_>>();
    let mut mts = Vec::new();
    for message in &expected {
        let body = &message[7..message.len() - 1];
        for chunk in body.chunks(4) {
            assert_eq!(mts.len() as u8, chunk[0]);
            mts.push(entry(chunk[1], chunk[2], chunk[3]));
        }
    }
    assert_eq!(128, mts.len());
    let entries = tuning_tool::send_tuning::make_note_change_entries(&mts).expect("Must succeed");
    let messages = make_messages(
        DeviceId::zero(),
        Preset::constant::<8>(),
        &entries,
        ChunkSize::constant::<64>(),
    )
    .expect("Must succeed");
    assert_eq!(EXPECTED_MESSAGE_HEX_DUMPS.len(), messages.len());
    for (expected, actual) in expected.iter().zip(messages.iter()) {
        assert_eq!(expected, actual);
    }
}

#[test]
fn checksum_ignores_order() {
    let checksum_of = |values: &[u8]| {
        let values = values.iter().map(|v| MidiValue::from_u8_lossy(*v)).collect::<Vec<_>>();
        let mut calc = ChecksumCalculator::new();
        calc.update_from_slice(&values);
        calc.finalize(None).expect("Must succeed").to_u8()
    };
    assert_eq!(checksum_of(&[1, 2, 3, 100]), checksum_of(&[100, 3, 1, 2]));
    assert_eq!(checksum_of(&[5, 5, 7]), checksum_of(&[7, 5, 5]));
}
